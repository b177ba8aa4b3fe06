//! Quantities: a value of a numeric type together with its unit.
use crate::base_unit::IsqRoot;
use crate::error::UnitError;
use crate::unit::{
    div_fits, mul_fits, plain_root, same_dimension, unit_div, unit_mul, SimpleUnit, SlotView,
};
use core::cmp::Ordering;
use core::ops::{Add, Div, Mul, Sub};
use vstd::prelude::*;
use vstd::std_specs::cmp::{PartialEqSpec, PartialOrdSpec};
use vstd::std_specs::convert::FromSpec;
use vstd::std_specs::ops::{AddSpec, DivSpec, MulSpec, SubSpec};

verus! {

/// An affine map `v * scale_num / scale_den + offset_num / offset_den` with exact
/// integer coefficients and positive denominators.
#[derive(Clone, Copy, Debug, PartialEq, Eq, Structural)]
pub struct Affine {
    pub scale_num: i32,
    pub scale_den: i32,
    pub offset_num: i32,
    pub offset_den: i32,
}

pub open spec fn identity_map() -> Affine {
    Affine { scale_num: 1, scale_den: 1, offset_num: 0, offset_den: 1 }
}

/// The registered transforms between concrete units that are not proportional: the
/// temperature scales.
pub open spec fn registered(from: IsqRoot, to: IsqRoot) -> Option<Affine> {
    match (from, to) {
        (IsqRoot::Celsius, IsqRoot::Kelvin) => Some(
            Affine { scale_num: 1, scale_den: 1, offset_num: 27315, offset_den: 100 },
        ),
        (IsqRoot::Kelvin, IsqRoot::Celsius) => Some(
            Affine { scale_num: 1, scale_den: 1, offset_num: -27315i32, offset_den: 100 },
        ),
        (IsqRoot::Fahrenheit, IsqRoot::Kelvin) => Some(
            Affine { scale_num: 5, scale_den: 9, offset_num: 45967, offset_den: 180 },
        ),
        (IsqRoot::Kelvin, IsqRoot::Fahrenheit) => Some(
            Affine { scale_num: 9, scale_den: 5, offset_num: -45967i32, offset_den: 100 },
        ),
        (IsqRoot::Celsius, IsqRoot::Fahrenheit) => Some(
            Affine { scale_num: 9, scale_den: 5, offset_num: 32, offset_den: 1 },
        ),
        (IsqRoot::Fahrenheit, IsqRoot::Celsius) => Some(
            Affine { scale_num: 5, scale_den: 9, offset_num: -160i32, offset_den: 9 },
        ),
        _ => None,
    }
}

/// The map that converts values of unit `from` into values of unit `to`: a registered
/// transform where one exists between the two roots; otherwise, for units equal as
/// dimension vectors, the identity; otherwise none.
pub open spec fn conversion(from: Seq<SlotView>, to: Seq<SlotView>) -> Option<Affine> {
    let direct = match (plain_root(from), plain_root(to)) {
        (Some(a), Some(b)) => registered(a, b),
        _ => None,
    };
    if direct is Some {
        direct
    } else if same_dimension(from, to) {
        Some(identity_map())
    } else {
        None
    }
}

/// Registered conversions between concrete units.
pub trait ConvertFrom<U> {
    /// The map from values in `source` to values in `self`, if one is registered.
    fn convert_from(&self, source: &U) -> Option<Affine>;
}

impl ConvertFrom<IsqRoot> for IsqRoot {
    fn convert_from(&self, source: &IsqRoot) -> (r: Option<Affine>)
        ensures
            r == registered(*source, *self),
    {
        match (source, self) {
            (IsqRoot::Celsius, IsqRoot::Kelvin) => Some(
                Affine { scale_num: 1, scale_den: 1, offset_num: 27315, offset_den: 100 },
            ),
            (IsqRoot::Kelvin, IsqRoot::Celsius) => Some(
                Affine { scale_num: 1, scale_den: 1, offset_num: -27315, offset_den: 100 },
            ),
            (IsqRoot::Fahrenheit, IsqRoot::Kelvin) => Some(
                Affine { scale_num: 5, scale_den: 9, offset_num: 45967, offset_den: 180 },
            ),
            (IsqRoot::Kelvin, IsqRoot::Fahrenheit) => Some(
                Affine { scale_num: 9, scale_den: 5, offset_num: -45967, offset_den: 100 },
            ),
            (IsqRoot::Celsius, IsqRoot::Fahrenheit) => Some(
                Affine { scale_num: 9, scale_den: 5, offset_num: 32, offset_den: 1 },
            ),
            (IsqRoot::Fahrenheit, IsqRoot::Celsius) => Some(
                Affine { scale_num: 5, scale_den: 9, offset_num: -160, offset_den: 9 },
            ),
            _ => None,
        }
    }
}

impl ConvertFrom<SimpleUnit> for SimpleUnit {
    fn convert_from(&self, source: &SimpleUnit) -> (r: Option<Affine>)
        ensures
            r == conversion(source@, self@),
    {
        let direct = match (source.plain_root(), self.plain_root()) {
            (Some(a), Some(b)) => b.convert_from(&a),
            _ => None,
        };
        if direct.is_some() {
            direct
        } else if source.same_dimension(self) {
            Some(Affine { scale_num: 1, scale_den: 1, offset_num: 0, offset_den: 1 })
        } else {
            None
        }
    }
}

/// What the numeric type must accept to apply `a` to `v`.
pub open spec fn affine_req<V>(a: Affine, v: V) -> bool where
    V: From<i32> + Mul<Output = V> + Div<Output = V> + Add<Output = V>,
 {
    let sn = V::from_spec(a.scale_num);
    let sd = V::from_spec(a.scale_den);
    let on = V::from_spec(a.offset_num);
    let od = V::from_spec(a.offset_den);
    &&& <V as FromSpec<i32>>::obeys_from_spec()
    &&& V::obeys_mul_spec()
    &&& V::obeys_div_spec()
    &&& v.mul_req(sn)
    &&& v.mul_spec(sn).div_req(sd)
    &&& on.div_req(od)
    &&& v.mul_spec(sn).div_spec(sd).add_req(on.div_spec(od))
}

/// What the numeric type must accept to convert `v` from unit `from` to unit `to`.
pub open spec fn conversion_req<V>(from: Seq<SlotView>, to: Seq<SlotView>, v: V) -> bool where
    V: From<i32> + Mul<Output = V> + Div<Output = V> + Add<Output = V>,
 {
    match conversion(from, to) {
        Some(a) => a != identity_map() ==> affine_req(a, v),
        None => true,
    }
}

/// `a` applied to `v` with the numeric type's own operations.
pub open spec fn affine_value<V>(a: Affine, v: V) -> V where
    V: From<i32> + Mul<Output = V> + Div<Output = V> + Add<Output = V>,
 {
    if a == identity_map() {
        v
    } else {
        let sn = V::from_spec(a.scale_num);
        let sd = V::from_spec(a.scale_den);
        let on = V::from_spec(a.offset_num);
        let od = V::from_spec(a.offset_den);
        v.mul_spec(sn).div_spec(sd).add_spec(on.div_spec(od))
    }
}

fn apply<V>(a: Affine, v: V) -> (r: V) where
    V: From<i32> + Mul<Output = V> + Div<Output = V> + Add<Output = V>,

    requires
        a != identity_map() ==> affine_req(a, v),
    ensures
        (a == identity_map() || V::obeys_add_spec()) ==> r == affine_value(a, v),
{
    if a.scale_num == 1 && a.scale_den == 1 && a.offset_num == 0 && a.offset_den == 1 {
        return v;
    }
    let scaled = v * V::from(a.scale_num) / V::from(a.scale_den);
    let offset = V::from(a.offset_num) / V::from(a.offset_den);
    scaled + offset
}

/// A value of type `V` measured in a unit.
pub struct Quantity<V> {
    pub value: V,
    pub unit: SimpleUnit,
}

impl<V> Quantity<V> {
    pub fn new(value: V, unit: SimpleUnit) -> (r: Quantity<V>)
        ensures
            r.value == value,
            r.unit@ == unit@,
    {
        Quantity { value, unit }
    }

    /// `other` converted into `unit`; see `into`.
    pub fn from(other: Quantity<V>, unit: SimpleUnit) -> (r: Result<Quantity<V>, UnitError>) where
        V: From<i32> + Mul<Output = V> + Div<Output = V> + Add<Output = V>,

        requires
            conversion_req(other.unit@, unit@, other.value),
        ensures
            match conversion(other.unit@, unit@) {
                None => r == Err::<Quantity<V>, UnitError>(UnitError::MissingConversion),
                Some(a) => r matches Ok(q) && q.unit@ == unit@ && ((a == identity_map()
                    || V::obeys_add_spec()) ==> q.value == affine_value(a, other.value)),
            },
    {
        other.into(unit)
    }

    /// The quantity expressed in `unit`: by the registered transform between the two
    /// units where there is one, unchanged where the units are equal as dimension
    /// vectors, and `MissingConversion` otherwise.
    pub fn into(self, unit: SimpleUnit) -> (r: Result<Quantity<V>, UnitError>) where
        V: From<i32> + Mul<Output = V> + Div<Output = V> + Add<Output = V>,

        requires
            conversion_req(self.unit@, unit@, self.value),
        ensures
            match conversion(self.unit@, unit@) {
                None => r == Err::<Quantity<V>, UnitError>(UnitError::MissingConversion),
                Some(a) => r matches Ok(q) && q.unit@ == unit@ && ((a == identity_map()
                    || V::obeys_add_spec()) ==> q.value == affine_value(a, self.value)),
            },
    {
        match unit.convert_from(&self.unit) {
            None => Err(UnitError::MissingConversion),
            Some(a) => Ok(Quantity { value: apply(a, self.value), unit }),
        }
    }

    /// Sum of two quantities of the same dimension vector; the result keeps the unit
    /// of `self`. The units are compared before any value is added.
    pub fn add(self, rhs: Quantity<V>) -> (r: Result<Quantity<V>, UnitError>) where
        V: Add<Output = V>,

        requires
            same_dimension(self.unit@, rhs.unit@) ==> self.value.add_req(rhs.value),
        ensures
            !same_dimension(self.unit@, rhs.unit@) ==> r == Err::<Quantity<V>, UnitError>(
                UnitError::UnitMismatch,
            ),
            same_dimension(self.unit@, rhs.unit@) ==> (r matches Ok(q) && q.unit@ == self.unit@
                && (V::obeys_add_spec() ==> q.value == self.value.add_spec(rhs.value))),
    {
        if !self.unit.same_dimension(&rhs.unit) {
            return Err(UnitError::UnitMismatch);
        }
        Ok(Quantity { value: self.value + rhs.value, unit: self.unit })
    }

    /// Difference of two quantities of the same dimension vector; the result keeps
    /// the unit of `self`.
    pub fn sub(self, rhs: Quantity<V>) -> (r: Result<Quantity<V>, UnitError>) where
        V: Sub<Output = V>,

        requires
            same_dimension(self.unit@, rhs.unit@) ==> self.value.sub_req(rhs.value),
        ensures
            !same_dimension(self.unit@, rhs.unit@) ==> r == Err::<Quantity<V>, UnitError>(
                UnitError::UnitMismatch,
            ),
            same_dimension(self.unit@, rhs.unit@) ==> (r matches Ok(q) && q.unit@ == self.unit@
                && (V::obeys_sub_spec() ==> q.value == self.value.sub_spec(rhs.value))),
    {
        if !self.unit.same_dimension(&rhs.unit) {
            return Err(UnitError::UnitMismatch);
        }
        Ok(Quantity { value: self.value - rhs.value, unit: self.unit })
    }

    /// Product of two quantities: the product of the values in the product of the units.
    pub fn mul(self, rhs: Quantity<V>) -> (r: Result<Quantity<V>, UnitError>) where
        V: Mul<Output = V>,

        requires
            mul_fits(self.unit@, rhs.unit@),
            unit_mul(self.unit@, rhs.unit@) is Some ==> self.value.mul_req(rhs.value),
        ensures
            match unit_mul(self.unit@, rhs.unit@) {
                None => r == Err::<Quantity<V>, UnitError>(UnitError::IncompatibleCompose),
                Some(u) => r matches Ok(q) && q.unit@ == u && (V::obeys_mul_spec() ==> q.value
                    == self.value.mul_spec(rhs.value)),
            },
    {
        match self.unit.mul(&rhs.unit) {
            Err(e) => Err(e),
            Ok(unit) => Ok(Quantity { value: self.value * rhs.value, unit }),
        }
    }

    /// Quotient of two quantities: the quotient of the values in the quotient of the units.
    pub fn div(self, rhs: Quantity<V>) -> (r: Result<Quantity<V>, UnitError>) where
        V: Div<Output = V>,

        requires
            div_fits(self.unit@, rhs.unit@),
            unit_div(self.unit@, rhs.unit@) is Some ==> self.value.div_req(rhs.value),
        ensures
            match unit_div(self.unit@, rhs.unit@) {
                None => r == Err::<Quantity<V>, UnitError>(UnitError::IncompatibleCompose),
                Some(u) => r matches Ok(q) && q.unit@ == u && (V::obeys_div_spec() ==> q.value
                    == self.value.div_spec(rhs.value)),
            },
    {
        match self.unit.div(&rhs.unit) {
            Err(e) => Err(e),
            Ok(unit) => Ok(Quantity { value: self.value / rhs.value, unit }),
        }
    }

    /// Equality of the values of two quantities of the same dimension vector.
    pub fn try_eq(&self, other: &Quantity<V>) -> (r: Result<bool, UnitError>) where V: PartialEq
        ensures
            !same_dimension(self.unit@, other.unit@) ==> r == Err::<bool, UnitError>(
                UnitError::UnitMismatch,
            ),
            same_dimension(self.unit@, other.unit@) ==> (r matches Ok(b) && (V::obeys_eq_spec()
                ==> b == self.value.eq_spec(&other.value))),
    {
        if !self.unit.same_dimension(&other.unit) {
            return Err(UnitError::UnitMismatch);
        }
        Ok(self.value == other.value)
    }

    /// Ordering of the values of two quantities of the same dimension vector.
    pub fn try_partial_cmp(&self, other: &Quantity<V>) -> (r: Result<Option<Ordering>, UnitError>) where
        V: PartialOrd,

        ensures
            !same_dimension(self.unit@, other.unit@) ==> r == Err::<Option<Ordering>, UnitError>(
                UnitError::UnitMismatch,
            ),
            same_dimension(self.unit@, other.unit@) ==> (r matches Ok(o) && (
            V::obeys_partial_cmp_spec() ==> o == self.value.partial_cmp_spec(&other.value))),
    {
        if !self.unit.same_dimension(&other.unit) {
            return Err(UnitError::UnitMismatch);
        }
        Ok(self.value.partial_cmp(&other.value))
    }
}

impl<V: Clone> Clone for Quantity<V> {
    /// A copy in the same unit; the value is cloned by the numeric type.
    fn clone(&self) -> (r: Quantity<V>)
        ensures
            r.unit@ == self.unit@,
    {
        Quantity { value: self.value.clone(), unit: self.unit.clone() }
    }
}

} // verus!
