//! Units as vectors of seven slots, one per base dimension, and the rules that
//! compose them.
use crate::base_unit::{pre_dimension, BaseDimension, BaseUnit, IsqRoot, Pre, DIMENSIONS};
use crate::error::UnitError;
use crate::ops::{Inv, One};
use crate::frac::{
    fits, lemma_add_assoc, lemma_add_comm, lemma_add_neg, lemma_add_zero, lemma_neg, lemma_zero_unique,
    lemma_zero_reduced, rat_add, rat_one, rat_neg, rat_sub, rat_zero, reduced, Frac, Rational,
};
use vstd::prelude::*;

verus! {

/// The model of a slot: the concrete unit that realizes it, if any, and its exponent.
pub struct SlotView {
    pub unit: Option<Pre>,
    pub exp: Rational,
}

/// A slot is well formed at position `i`: its exponent is in lowest terms, it names a
/// concrete unit exactly when the exponent is not zero, and that unit belongs to the
/// `i`-th base dimension.
pub open spec fn slot_wf(i: int, s: SlotView) -> bool {
    &&& reduced(s.exp)
    &&& (s.unit is None <==> s.exp.num == 0)
    &&& (s.unit matches Some(u) ==> pre_dimension(u).index() == i)
}

/// A well-formed unit: seven well-formed slots.
pub open spec fn unit_wf(u: Seq<SlotView>) -> bool {
    &&& u.len() == DIMENSIONS
    &&& forall|i: int| 0 <= i < DIMENSIONS ==> #[trigger] slot_wf(i, u[i])
}

/// Two slots may be combined: a zero exponent constrains nothing, and two nonzero
/// exponents must be realized by the same concrete unit.
pub open spec fn slots_compatible(a: SlotView, b: SlotView) -> bool {
    a.unit is None || b.unit is None || a.unit == b.unit
}

pub open spec fn compatible(a: Seq<SlotView>, b: Seq<SlotView>) -> bool {
    forall|i: int| 0 <= i < DIMENSIONS ==> #[trigger] slots_compatible(a[i], b[i])
}

/// Product of two slots: exponents add; a nonzero result keeps the concrete unit of
/// whichever side has one.
pub open spec fn slot_mul(a: SlotView, b: SlotView) -> SlotView {
    let e = rat_add(a.exp, b.exp);
    SlotView {
        unit: if e.num == 0 {
            None
        } else if a.unit is Some {
            a.unit
        } else {
            b.unit
        },
        exp: e,
    }
}

pub open spec fn slot_inv(a: SlotView) -> SlotView {
    SlotView { unit: a.unit, exp: rat_neg(a.exp) }
}

/// Product of two units, slot by slot; `None` where some slot holds two different
/// concrete units with nonzero exponents.
pub open spec fn unit_mul(a: Seq<SlotView>, b: Seq<SlotView>) -> Option<Seq<SlotView>> {
    if compatible(a, b) {
        Some(Seq::new(DIMENSIONS as nat, |i: int| slot_mul(a[i], b[i])))
    } else {
        None
    }
}

/// Inverse of a unit: every exponent negated.
pub open spec fn unit_inv(a: Seq<SlotView>) -> Seq<SlotView> {
    Seq::new(DIMENSIONS as nat, |i: int| slot_inv(a[i]))
}

/// Quotient of two units: the product with the inverse.
pub open spec fn unit_div(a: Seq<SlotView>, b: Seq<SlotView>) -> Option<Seq<SlotView>> {
    unit_mul(a, unit_inv(b))
}

/// The unit with every exponent zero.
pub open spec fn dimensionless() -> Seq<SlotView> {
    Seq::new(DIMENSIONS as nat, |i: int| SlotView { unit: None, exp: rat_zero() })
}

/// Equal as dimension vectors: the seven exponents agree, whatever concrete units
/// realize them.
pub open spec fn same_dimension(a: Seq<SlotView>, b: Seq<SlotView>) -> bool {
    forall|i: int| 0 <= i < DIMENSIONS ==> (#[trigger] a[i]).exp == b[i].exp
}

/// Every exponent of the product fits in an exponent.
pub open spec fn mul_fits(a: Seq<SlotView>, b: Seq<SlotView>) -> bool {
    forall|i: int| 0 <= i < DIMENSIONS ==> fits(rat_add((#[trigger] a[i]).exp, b[i].exp))
}

/// Every exponent of the quotient fits in an exponent.
pub open spec fn div_fits(a: Seq<SlotView>, b: Seq<SlotView>) -> bool {
    forall|i: int| 0 <= i < DIMENSIONS ==> fits(rat_sub((#[trigger] a[i]).exp, b[i].exp))
}

proof fn lemma_slot_mul_wf(i: int, a: SlotView, b: SlotView)
    requires
        slot_wf(i, a),
        slot_wf(i, b),
        slots_compatible(a, b),
    ensures
        slot_wf(i, slot_mul(a, b)),
{
    assert(a.exp.den * b.exp.den > 0) by (nonlinear_arith)
        requires
            a.exp.den > 0,
            b.exp.den > 0,
    ;
    crate::frac::lemma_normalize(a.exp.num * b.exp.den + b.exp.num * a.exp.den, a.exp.den * b.exp.den);
    if a.unit is None {
        lemma_zero_unique(a.exp);
        lemma_add_zero(b.exp);
    }
}

proof fn lemma_slot_mul_comm(i: int, a: SlotView, b: SlotView)
    requires
        slot_wf(i, a),
        slot_wf(i, b),
        slots_compatible(a, b),
    ensures
        slot_mul(a, b) == slot_mul(b, a),
{
    lemma_add_comm(a.exp, b.exp);
}

proof fn lemma_slot_mul_assoc(i: int, a: SlotView, b: SlotView, c: SlotView)
    requires
        slot_wf(i, a),
        slot_wf(i, b),
        slot_wf(i, c),
        slots_compatible(a, b),
        slots_compatible(b, c),
        slots_compatible(a, c),
    ensures
        slots_compatible(slot_mul(a, b), c),
        slots_compatible(a, slot_mul(b, c)),
        slot_mul(slot_mul(a, b), c) == slot_mul(a, slot_mul(b, c)),
{
    lemma_add_assoc(a.exp, b.exp, c.exp);
    lemma_slot_mul_wf(i, a, b);
    lemma_slot_mul_wf(i, b, c);
    let ab = slot_mul(a, b);
    let bc = slot_mul(b, c);
    if ab.exp.num == 0 {
        lemma_zero_unique(ab.exp);
        lemma_add_zero(c.exp);
    }
    if bc.exp.num == 0 {
        lemma_zero_unique(bc.exp);
        lemma_add_zero(a.exp);
    }
}

/// Multiplying by the dimensionless unit changes nothing, and a unit divided by
/// itself is dimensionless.
pub proof fn lemma_mul_identity(u: Seq<SlotView>)
    requires
        unit_wf(u),
    ensures
        unit_mul(u, dimensionless()) == Some(u),
        unit_div(u, u) == Some(dimensionless()),
{
    let one = dimensionless();
    assert(compatible(u, one)) by {
        assert forall|i: int| 0 <= i < DIMENSIONS implies #[trigger] slots_compatible(u[i], one[i]) by {}
    }
    assert forall|i: int| 0 <= i < DIMENSIONS implies slot_mul(u[i], one[i]) == u[i] by {
        assert(slot_wf(i, u[i]));
        lemma_add_zero(u[i].exp);
    }
    assert(Seq::new(DIMENSIONS as nat, |i: int| slot_mul(u[i], one[i])) =~= u);
    let v = unit_inv(u);
    assert(compatible(u, v)) by {
        assert forall|i: int| 0 <= i < DIMENSIONS implies #[trigger] slots_compatible(u[i], v[i]) by {}
    }
    assert forall|i: int| 0 <= i < DIMENSIONS implies slot_mul(u[i], v[i]) == one[i] by {
        assert(slot_wf(i, u[i]));
        lemma_add_neg(u[i].exp);
    }
    assert(Seq::new(DIMENSIONS as nat, |i: int| slot_mul(u[i], v[i])) =~= one);
}

/// Inverting twice gives the unit back, and a unit times its inverse is dimensionless.
pub proof fn lemma_inv(u: Seq<SlotView>)
    requires
        unit_wf(u),
    ensures
        unit_inv(unit_inv(u)) == u,
        unit_mul(u, unit_inv(u)) == Some(dimensionless()),
{
    assert forall|i: int| 0 <= i < DIMENSIONS implies #[trigger] unit_inv(unit_inv(u))[i] == u[i] by {
        assert(slot_wf(i, u[i]));
        lemma_neg(u[i].exp);
    }
    assert(unit_inv(unit_inv(u)) =~= u);
    lemma_mul_identity(u);
}

/// Multiplication of units is commutative, failures included.
pub proof fn lemma_mul_comm(a: Seq<SlotView>, b: Seq<SlotView>)
    requires
        unit_wf(a),
        unit_wf(b),
    ensures
        unit_mul(a, b) == unit_mul(b, a),
{
    assert(compatible(a, b) == compatible(b, a)) by {
        if compatible(a, b) {
            assert forall|i: int| 0 <= i < DIMENSIONS implies #[trigger] slots_compatible(b[i], a[i]) by {
                assert(slots_compatible(a[i], b[i]));
            }
        }
        if compatible(b, a) {
            assert forall|i: int| 0 <= i < DIMENSIONS implies #[trigger] slots_compatible(a[i], b[i]) by {
                assert(slots_compatible(b[i], a[i]));
            }
        }
    }
    if compatible(a, b) {
        assert forall|i: int| 0 <= i < DIMENSIONS implies slot_mul(a[i], b[i]) == slot_mul(b[i], a[i]) by {
            assert(slot_wf(i, a[i]) && slot_wf(i, b[i]) && slots_compatible(a[i], b[i]));
            lemma_slot_mul_comm(i, a[i], b[i]);
        }
        assert(Seq::new(DIMENSIONS as nat, |i: int| slot_mul(a[i], b[i])) =~= Seq::new(
            DIMENSIONS as nat,
            |i: int| slot_mul(b[i], a[i]),
        ));
    }
}

/// Multiplication of units is associative where no slot holds two different concrete
/// units among the three factors: both groupings then succeed, with the same unit.
pub proof fn lemma_mul_assoc(a: Seq<SlotView>, b: Seq<SlotView>, c: Seq<SlotView>)
    requires
        unit_wf(a),
        unit_wf(b),
        unit_wf(c),
        compatible(a, b),
        compatible(b, c),
        compatible(a, c),
    ensures
        unit_mul(a, b) matches Some(ab) && unit_mul(ab, c) is Some,
        unit_mul(b, c) matches Some(bc) && unit_mul(a, bc) is Some,
        unit_mul(unit_mul(a, b).unwrap(), c) == unit_mul(a, unit_mul(b, c).unwrap()),
{
    let ab = unit_mul(a, b).unwrap();
    let bc = unit_mul(b, c).unwrap();
    assert forall|i: int| 0 <= i < DIMENSIONS implies slots_compatible(#[trigger] ab[i], c[i])
        && slots_compatible(a[i], bc[i]) && slot_mul(ab[i], c[i]) == slot_mul(a[i], bc[i]) by {
        assert(slot_wf(i, a[i]) && slot_wf(i, b[i]) && slot_wf(i, c[i]));
        assert(slots_compatible(a[i], b[i]) && slots_compatible(b[i], c[i]) && slots_compatible(a[i], c[i]));
        lemma_slot_mul_assoc(i, a[i], b[i], c[i]);
    }
    assert(compatible(ab, c));
    assert(compatible(a, bc)) by {
        assert forall|i: int| 0 <= i < DIMENSIONS implies #[trigger] slots_compatible(a[i], bc[i]) by {
            assert(slots_compatible(ab[i], c[i]));
        }
    }
    assert(Seq::new(DIMENSIONS as nat, |i: int| slot_mul(ab[i], c[i])) =~= Seq::new(
        DIMENSIONS as nat,
        |i: int| slot_mul(a[i], bc[i]),
    ));
}

/// Every exponent fits in an exponent.
pub open spec fn unit_fits(u: Seq<SlotView>) -> bool {
    forall|i: int| 0 <= i < DIMENSIONS ==> fits((#[trigger] u[i]).exp)
}

/// The slot of a unit that is `u` raised to `e` in `u`'s dimension.
pub open spec fn power_slot(u: Pre, e: Rational) -> SlotView {
    SlotView {
        unit: if e.num == 0 {
            None
        } else {
            Some(u)
        },
        exp: e,
    }
}

/// The unit `u ^ e`: one slot set, the others zero.
pub open spec fn single(u: Pre, e: Rational) -> Seq<SlotView> {
    Seq::new(
        DIMENSIONS as nat,
        |i: int|
            if i == pre_dimension(u).index() {
                power_slot(u, e)
            } else {
                SlotView { unit: None, exp: rat_zero() }
            },
    )
}

/// The unit is the root `r` itself: exponent one, no prefix, nothing else.
pub open spec fn is_plain_root(u: Seq<SlotView>, r: IsqRoot) -> bool {
    u == single(Pre { prefix: None, root: r }, rat_one())
}

pub open spec fn plain_root(u: Seq<SlotView>) -> Option<IsqRoot> {
    if exists|r: IsqRoot| is_plain_root(u, r) {
        Some(choose|r: IsqRoot| is_plain_root(u, r))
    } else {
        None
    }
}

/// A slot of a unit: the concrete unit that realizes a base dimension, and its
/// exponent. The unit is absent exactly when the exponent is zero.
#[derive(Clone, Copy, Debug, PartialEq, Eq, Structural)]
pub struct Exp {
    unit: Option<Pre>,
    exp: Frac,
}

impl View for Exp {
    type V = SlotView;

    closed spec fn view(&self) -> SlotView {
        SlotView { unit: self.unit, exp: self.exp@ }
    }
}

impl Exp {
    #[verifier::type_invariant]
    pub open spec fn wf(self) -> bool {
        (self@.unit is None <==> self@.exp.num == 0) && fits(self@.exp)
    }

    fn make(unit: Option<Pre>, exp: Frac) -> (r: Exp)
        requires
            unit is None <==> exp@.num == 0,
        ensures
            r@ == (SlotView { unit, exp: exp@ }),
    {
        proof {
            use_type_invariant(&exp);
        }
        Exp { unit, exp }
    }

    /// The concrete unit of the slot; `None` where the exponent is zero.
    pub fn unit(&self) -> (r: Option<Pre>)
        ensures
            r == self@.unit,
    {
        self.unit
    }
}

/// The exponent that a unit carries.
pub trait Exponent {
    fn exponent(&self) -> Frac;
}

impl Exponent for Exp {
    fn exponent(&self) -> (r: Frac)
        ensures
            r@ == self@.exp,
    {
        self.exp
    }
}

/// A unit: seven slots, one per base dimension in canonical order.
#[derive(Debug)]
pub struct SimpleUnit {
    slots: Vec<Exp>,
}

impl View for SimpleUnit {
    type V = Seq<SlotView>;

    closed spec fn view(&self) -> Seq<SlotView> {
        self.slots@.map_values(|e: Exp| e@)
    }
}

impl SimpleUnit {
    #[verifier::type_invariant]
    pub open spec fn wf(self) -> bool {
        unit_wf(self@) && unit_fits(self@)
    }

    /// The dimensionless unit.
    pub fn new() -> (r: SimpleUnit)
        ensures
            r@ == dimensionless(),
    {
        let mut slots: Vec<Exp> = Vec::new();
        let mut i: usize = 0;
        proof {
            lemma_zero_reduced();
        }
        while i < DIMENSIONS
            invariant
                i <= DIMENSIONS,
                slots@.len() == i,
                forall|j: int| 0 <= j < i ==> (#[trigger] slots@[j])@ == dimensionless()[j],
            decreases DIMENSIONS - i,
        {
            slots.push(Exp::make(None, Frac::zero()));
            i += 1;
        }
        let r = SimpleUnit { slots };
        proof {
            assert(r@ =~= dimensionless());
        }
        r
    }

    /// The unit `u ^ e`, dimensionless where `e` is zero.
    pub fn power(u: Pre, e: Frac) -> (r: SimpleUnit)
        ensures
            r@ == single(u, e@),
    {
        proof {
            use_type_invariant(&e);
            lemma_zero_reduced();
        }
        let d = u.dimension().slot();
        let mut slots: Vec<Exp> = Vec::new();
        let mut i: usize = 0;
        while i < DIMENSIONS
            invariant
                i <= DIMENSIONS,
                d == pre_dimension(u).index(),
                fits(e@),
                slots@.len() == i,
                forall|j: int| 0 <= j < i ==> (#[trigger] slots@[j])@ == single(u, e@)[j],
            decreases DIMENSIONS - i,
        {
            if i == d {
                let unit = if e.is_zero() {
                    None
                } else {
                    Some(u)
                };
                slots.push(Exp::make(unit, e));
            } else {
                slots.push(Exp::make(None, Frac::zero()));
            }
            i += 1;
        }
        let r = SimpleUnit { slots };
        proof {
            assert(r@ =~= single(u, e@));
        }
        r
    }

    /// The unit `u` itself: exponent one in its dimension.
    pub fn base(u: Pre) -> (r: SimpleUnit)
        ensures
            r@ == single(u, rat_one()),
    {
        SimpleUnit::power(u, Frac::integer(1))
    }

    /// The root of the unit, where the unit is a root alone: no prefix, exponent
    /// one, every other exponent zero.
    pub fn plain_root(&self) -> (r: Option<IsqRoot>)
        ensures
            r == plain_root(self@),
    {
        proof {
            use_type_invariant(self);
        }
        let mut found: Option<IsqRoot> = None;
        let mut i: usize = 0;
        while i < DIMENSIONS
            invariant
                i <= DIMENSIONS,
                self.slots@.len() == DIMENSIONS,
                unit_wf(self@),
                found matches Some(r) ==> pre_dimension(Pre { prefix: None, root: r }).index() < i
                    && self@[pre_dimension(Pre { prefix: None, root: r }).index()] == power_slot(
                    Pre { prefix: None, root: r },
                    rat_one(),
                ),
                forall|j: int|
                    0 <= j < i && (found is None || j != pre_dimension(
                        Pre { prefix: None, root: found.unwrap() },
                    ).index()) ==> (#[trigger] self@[j]).unit is None,
            decreases DIMENSIONS - i,
        {
            let x = self.slots[i];
            proof {
                assert(x@ == self@[i as int]);
                assert(slot_wf(i as int, self@[i as int]));
            }
            match x.unit {
                None => {},
                Some(p) => {
                    if found.is_some() || p.prefix.is_some() || !x.exp.equals(&Frac::integer(1)) {
                        proof {
                            let j = match found {
                                Some(r) => pre_dimension(Pre { prefix: None, root: r }).index(),
                                None => i as int,
                            };
                            lemma_not_plain_root(self@, i as int, j);
                        }
                        return None;
                    }
                    found = Some(p.root);
                },
            }
            i += 1;
        }
        proof {
            match found {
                Some(r) => {
                    let u = Pre { prefix: None, root: r };
                    assert forall|j: int| 0 <= j < DIMENSIONS implies #[trigger] self@[j] == single(u, rat_one())[j] by {
                        if j != pre_dimension(u).index() {
                            assert(slot_wf(j, self@[j]));
                            lemma_zero_unique(self@[j].exp);
                        }
                    }
                    assert(self@ =~= single(u, rat_one()));
                    lemma_plain_root_unique(self@, r);
                },
                None => {
                    assert forall|r: IsqRoot| !is_plain_root(self@, r) by {
                        let u = Pre { prefix: None, root: r };
                        let k = pre_dimension(u).index();
                        if is_plain_root(self@, r) {
                            assert(self@[k] == single(u, rat_one())[k]);
                        }
                    }
                },
            }
        }
        found
    }

    /// The slot at position `i` of the canonical order.
    pub fn slot_at(&self, i: usize) -> (r: Exp)
        requires
            i < DIMENSIONS,
        ensures
            r@ == self@[i as int],
            unit_wf(self@),
    {
        proof {
            use_type_invariant(self);
        }
        self.slots[i]
    }

    /// The slot of dimension `d`.
    pub fn slot(&self, d: BaseDimension) -> (r: Exp)
        ensures
            r@ == self@[d.index()],
    {
        proof {
            use_type_invariant(self);
        }
        self.slots[d.slot()]
    }

    /// Product of two units, slot by slot. Fails with `IncompatibleCompose` where a
    /// base dimension carries two different concrete units with nonzero exponents.
    pub fn mul(&self, rhs: &SimpleUnit) -> (r: Result<SimpleUnit, UnitError>)
        requires
            mul_fits(self@, rhs@),
        ensures
            match unit_mul(self@, rhs@) {
                Some(v) => r matches Ok(u) && u@ == v,
                None => r == Err::<SimpleUnit, UnitError>(UnitError::IncompatibleCompose),
            },
    {
        proof {
            use_type_invariant(self);
            use_type_invariant(rhs);
        }
        let ghost a = self@;
        let ghost b = rhs@;
        let ghost full = Seq::new(DIMENSIONS as nat, |j: int| slot_mul(a[j], b[j]));
        let mut slots: Vec<Exp> = Vec::new();
        let mut i: usize = 0;
        while i < DIMENSIONS
            invariant
                i <= DIMENSIONS,
                a == self@,
                b == rhs@,
                self.slots@.len() == DIMENSIONS,
                rhs.slots@.len() == DIMENSIONS,
                unit_wf(a),
                unit_wf(b),
                mul_fits(a, b),
                full == Seq::new(DIMENSIONS as nat, |j: int| slot_mul(a[j], b[j])),
                forall|j: int| 0 <= j < i ==> #[trigger] slots_compatible(a[j], b[j]),
                slots@.len() == i,
                forall|j: int| 0 <= j < i ==> (#[trigger] slots@[j])@ == full[j],
            decreases DIMENSIONS - i,
        {
            let x = self.slots[i];
            let y = rhs.slots[i];
            proof {
                use_type_invariant(&x);
                use_type_invariant(&y);
                assert(x@ == a[i as int] && y@ == b[i as int]);
            }
            let conflict = match (x.unit, y.unit) {
                (Some(p), Some(q)) => p != q,
                _ => false,
            };
            if conflict {
                proof {
                    assert(!slots_compatible(a[i as int], b[i as int]));
                }
                return Err(UnitError::IncompatibleCompose);
            }
            proof {
                assert(fits(rat_add(a[i as int].exp, b[i as int].exp)));
                assert(slot_wf(i as int, a[i as int]) && slot_wf(i as int, b[i as int]));
                lemma_slot_mul_wf(i as int, a[i as int], b[i as int]);
            }
            let e = x.exp.add(&y.exp);
            let unit = if e.is_zero() {
                None
            } else if x.unit.is_some() {
                x.unit
            } else {
                y.unit
            };
            slots.push(Exp::make(unit, e));
            i += 1;
        }
        proof {
            assert(compatible(a, b));
            assert forall|j: int| 0 <= j < DIMENSIONS implies #[trigger] slot_wf(j, full[j]) && fits(full[j].exp) by {
                assert(slot_wf(j, a[j]) && slot_wf(j, b[j]) && slots_compatible(a[j], b[j]));
                lemma_slot_mul_wf(j, a[j], b[j]);
            }
        }
        let r = SimpleUnit { slots };
        proof {
            assert(r@ =~= full);
        }
        Ok(r)
    }

    /// Quotient of two units: the product with the inverse of `rhs`.
    pub fn div(&self, rhs: &SimpleUnit) -> (r: Result<SimpleUnit, UnitError>)
        requires
            div_fits(self@, rhs@),
        ensures
            match unit_div(self@, rhs@) {
                Some(v) => r matches Ok(u) && u@ == v,
                None => r == Err::<SimpleUnit, UnitError>(UnitError::IncompatibleCompose),
            },
    {
        let v = rhs.inv();
        proof {
            assert(mul_fits(self@, v@)) by {
                assert forall|i: int| 0 <= i < DIMENSIONS implies fits(rat_add((#[trigger] self@[i]).exp, v@[i].exp)) by {
                    assert(fits(rat_sub(self@[i].exp, rhs@[i].exp)));
                }
            }
        }
        self.mul(&v)
    }

    /// The two units are equal as dimension vectors: all seven exponents agree.
    pub fn same_dimension(&self, other: &SimpleUnit) -> (r: bool)
        ensures
            r == same_dimension(self@, other@),
    {
        proof {
            use_type_invariant(self);
            use_type_invariant(other);
        }
        let mut i: usize = 0;
        while i < DIMENSIONS
            invariant
                i <= DIMENSIONS,
                self.slots@.len() == DIMENSIONS,
                other.slots@.len() == DIMENSIONS,
                forall|j: int| 0 <= j < i ==> (#[trigger] self@[j]).exp == other@[j].exp,
            decreases DIMENSIONS - i,
        {
            let x = self.slots[i];
            let y = other.slots[i];
            proof {
                assert(x@ == self@[i as int] && y@ == other@[i as int]);
            }
            if !x.exp.equals(&y.exp) {
                return false;
            }
            i += 1;
        }
        true
    }

    /// The unit is exactly `other`: same exponents, realized by the same concrete units.
    pub fn equals(&self, other: &SimpleUnit) -> (r: bool)
        ensures
            r == (self@ == other@),
    {
        proof {
            use_type_invariant(self);
            use_type_invariant(other);
        }
        let mut i: usize = 0;
        while i < DIMENSIONS
            invariant
                i <= DIMENSIONS,
                self.slots@.len() == DIMENSIONS,
                other.slots@.len() == DIMENSIONS,
                forall|j: int| 0 <= j < i ==> (#[trigger] self@[j]) == other@[j],
            decreases DIMENSIONS - i,
        {
            let x = self.slots[i];
            let y = other.slots[i];
            proof {
                assert(x@ == self@[i as int] && y@ == other@[i as int]);
            }
            if !x.exp.equals(&y.exp) || x.unit != y.unit {
                return false;
            }
            i += 1;
        }
        proof {
            assert(self@ =~= other@);
        }
        true
    }
}

impl Inv for SimpleUnit {
    /// Every exponent negated; the concrete units stay.
    fn inv(&self) -> (r: SimpleUnit)
        ensures
            r@ == unit_inv(self@),
    {
        proof {
            use_type_invariant(self);
        }
        let ghost a = self@;
        let mut slots: Vec<Exp> = Vec::new();
        let mut i: usize = 0;
        while i < DIMENSIONS
            invariant
                i <= DIMENSIONS,
                a == self@,
                self.slots@.len() == DIMENSIONS,
                unit_wf(a),
                slots@.len() == i,
                forall|j: int| 0 <= j < i ==> (#[trigger] slots@[j])@ == unit_inv(a)[j],
            decreases DIMENSIONS - i,
        {
            let x = self.slots[i];
            proof {
                use_type_invariant(&x);
                assert(x@ == a[i as int]);
            }
            let e = x.exp.neg();
            slots.push(Exp::make(x.unit, e));
            i += 1;
        }
        proof {
            assert forall|j: int| 0 <= j < DIMENSIONS implies #[trigger] slot_wf(j, unit_inv(a)[j]) && fits(unit_inv(a)[j].exp) by {
                assert(slot_wf(j, a[j]));
                lemma_neg(a[j].exp);
            }
        }
        let r = SimpleUnit { slots };
        proof {
            assert(r@ =~= unit_inv(a));
        }
        r
    }
}

impl Clone for SimpleUnit {
    fn clone(&self) -> (r: SimpleUnit)
        ensures
            r@ == self@,
    {
        proof {
            use_type_invariant(self);
        }
        let mut slots: Vec<Exp> = Vec::new();
        let mut i: usize = 0;
        while i < DIMENSIONS
            invariant
                i <= DIMENSIONS,
                self.slots@.len() == DIMENSIONS,
                slots@.len() == i,
                forall|j: int| 0 <= j < i ==> (#[trigger] slots@[j])@ == self@[j],
            decreases DIMENSIONS - i,
        {
            slots.push(self.slots[i]);
            i += 1;
        }
        let r = SimpleUnit { slots };
        proof {
            assert(r@ =~= self@);
        }
        r
    }
}

impl One for SimpleUnit {
    fn one() -> (r: SimpleUnit)
        ensures
            r@ == dimensionless(),
    {
        SimpleUnit::new()
    }
}

/// A unit with a slot at `i` that no plain root has (a prefix, an exponent other than
/// one, or a second nonzero slot at `j`) is no plain root.
proof fn lemma_not_plain_root(u: Seq<SlotView>, i: int, j: int)
    requires
        0 <= i < DIMENSIONS,
        0 <= j < DIMENSIONS,
        u[i].unit is Some,
        (j != i && u[j].unit is Some) || u[i].unit.unwrap().prefix is Some || u[i].exp
            != rat_one(),
    ensures
        plain_root(u) is None,
{
    assert forall|r: IsqRoot| !is_plain_root(u, r) by {
        let p = Pre { prefix: None, root: r };
        let k = pre_dimension(p).index();
        if is_plain_root(u, r) {
            assert(u[i] == single(p, rat_one())[i]);
            assert(u[j] == single(p, rat_one())[j]);
        }
    }
}

proof fn lemma_plain_root_unique(u: Seq<SlotView>, r: IsqRoot)
    requires
        is_plain_root(u, r),
    ensures
        plain_root(u) == Some(r),
{
    let c = choose|x: IsqRoot| is_plain_root(u, x);
    let k = pre_dimension(Pre { prefix: None, root: c }).index();
    assert(u[k] == single(Pre { prefix: None, root: c }, rat_one())[k]);
    assert(u[k] == single(Pre { prefix: None, root: r }, rat_one())[k]);
}

} // verus!
