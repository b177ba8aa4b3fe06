//! The catalog of concrete units: base dimensions, metric prefixes, named roots, and
//! the prefixed roots that occupy the slots of a unit.
use crate::name::Name;
use vstd::prelude::*;

verus! {

/// One of the seven independent kinds of physical quantity.
#[derive(Clone, Copy, Debug, PartialEq, Eq, Structural)]
pub enum BaseDimension {
    Length,
    Mass,
    Time,
    Current,
    Temperature,
    AmountOfSubstance,
    LuminousIntensity,
}

/// Number of base dimensions, and of slots in a unit.
pub const DIMENSIONS: usize = 7;

impl BaseDimension {
    /// The slot that the dimension occupies, in the fixed canonical order.
    pub open spec fn index(self) -> int {
        match self {
            BaseDimension::Length => 0,
            BaseDimension::Mass => 1,
            BaseDimension::Time => 2,
            BaseDimension::Current => 3,
            BaseDimension::Temperature => 4,
            BaseDimension::AmountOfSubstance => 5,
            BaseDimension::LuminousIntensity => 6,
        }
    }

    pub fn slot(&self) -> (r: usize)
        ensures
            r == self.index(),
            r < DIMENSIONS,
    {
        match self {
            BaseDimension::Length => 0,
            BaseDimension::Mass => 1,
            BaseDimension::Time => 2,
            BaseDimension::Current => 3,
            BaseDimension::Temperature => 4,
            BaseDimension::AmountOfSubstance => 5,
            BaseDimension::LuminousIntensity => 6,
        }
    }
}

/// Metric prefixes: a power of ten that scales a root.
#[derive(Clone, Copy, Debug, PartialEq, Eq, Structural)]
pub enum Metric {
    Yocto,
    Zepto,
    Atto,
    Femto,
    Pico,
    Nano,
    Micro,
    Milli,
    Centi,
    Deci,
    Deca,
    Hecto,
    Kilo,
    Mega,
    Giga,
    Tera,
    Peta,
    Exa,
    Zetta,
    Yotta,
}

pub open spec fn metric_short(p: Metric) -> Seq<char> {
    match p {
        Metric::Yocto => "y"@,
        Metric::Zepto => "z"@,
        Metric::Atto => "a"@,
        Metric::Femto => "f"@,
        Metric::Pico => "p"@,
        Metric::Nano => "n"@,
        Metric::Micro => "μ"@,
        Metric::Milli => "m"@,
        Metric::Centi => "c"@,
        Metric::Deci => "d"@,
        Metric::Deca => "da"@,
        Metric::Hecto => "h"@,
        Metric::Kilo => "k"@,
        Metric::Mega => "M"@,
        Metric::Giga => "G"@,
        Metric::Tera => "T"@,
        Metric::Peta => "P"@,
        Metric::Exa => "E"@,
        Metric::Zetta => "Z"@,
        Metric::Yotta => "Y"@,
    }
}

pub open spec fn metric_full(p: Metric) -> Seq<char> {
    match p {
        Metric::Yocto => "yocto"@,
        Metric::Zepto => "zepto"@,
        Metric::Atto => "atto"@,
        Metric::Femto => "femto"@,
        Metric::Pico => "pico"@,
        Metric::Nano => "nano"@,
        Metric::Micro => "micro"@,
        Metric::Milli => "milli"@,
        Metric::Centi => "centi"@,
        Metric::Deci => "deci"@,
        Metric::Deca => "deca"@,
        Metric::Hecto => "hecto"@,
        Metric::Kilo => "kilo"@,
        Metric::Mega => "mega"@,
        Metric::Giga => "giga"@,
        Metric::Tera => "tera"@,
        Metric::Peta => "peta"@,
        Metric::Exa => "exa"@,
        Metric::Zetta => "zetta"@,
        Metric::Yotta => "yotta"@,
    }
}

/// The decimal exponent of a metric prefix.
pub open spec fn metric_exp(p: Metric) -> int {
    match p {
        Metric::Yocto => -24,
        Metric::Zepto => -21,
        Metric::Atto => -18,
        Metric::Femto => -15,
        Metric::Pico => -12,
        Metric::Nano => -9,
        Metric::Micro => -6,
        Metric::Milli => -3,
        Metric::Centi => -2,
        Metric::Deci => -1,
        Metric::Deca => 1,
        Metric::Hecto => 2,
        Metric::Kilo => 3,
        Metric::Mega => 6,
        Metric::Giga => 9,
        Metric::Tera => 12,
        Metric::Peta => 15,
        Metric::Exa => 18,
        Metric::Zetta => 21,
        Metric::Yotta => 24,
    }
}

impl Name for Metric {
    fn short(&self) -> (r: &'static str)
        ensures
            r@ == metric_short(*self),
    {
        match self {
            Metric::Yocto => "y",
            Metric::Zepto => "z",
            Metric::Atto => "a",
            Metric::Femto => "f",
            Metric::Pico => "p",
            Metric::Nano => "n",
            Metric::Micro => "μ",
            Metric::Milli => "m",
            Metric::Centi => "c",
            Metric::Deci => "d",
            Metric::Deca => "da",
            Metric::Hecto => "h",
            Metric::Kilo => "k",
            Metric::Mega => "M",
            Metric::Giga => "G",
            Metric::Tera => "T",
            Metric::Peta => "P",
            Metric::Exa => "E",
            Metric::Zetta => "Z",
            Metric::Yotta => "Y",
        }
    }

    fn full(&self) -> (r: &'static str)
        ensures
            r@ == metric_full(*self),
    {
        match self {
            Metric::Yocto => "yocto",
            Metric::Zepto => "zepto",
            Metric::Atto => "atto",
            Metric::Femto => "femto",
            Metric::Pico => "pico",
            Metric::Nano => "nano",
            Metric::Micro => "micro",
            Metric::Milli => "milli",
            Metric::Centi => "centi",
            Metric::Deci => "deci",
            Metric::Deca => "deca",
            Metric::Hecto => "hecto",
            Metric::Kilo => "kilo",
            Metric::Mega => "mega",
            Metric::Giga => "giga",
            Metric::Tera => "tera",
            Metric::Peta => "peta",
            Metric::Exa => "exa",
            Metric::Zetta => "zetta",
            Metric::Yotta => "yotta",
        }
    }
}

/// A scale factor `base ^ exp` with short and full names.
pub trait Prefix: Name {
    fn base(&self) -> u32;

    fn exp(&self) -> i32;
}

impl Prefix for Metric {
    fn base(&self) -> (r: u32)
        ensures
            r == 10,
    {
        10
    }

    fn exp(&self) -> (r: i32)
        ensures
            r == metric_exp(*self),
    {
        match self {
            Metric::Yocto => -24,
            Metric::Zepto => -21,
            Metric::Atto => -18,
            Metric::Femto => -15,
            Metric::Pico => -12,
            Metric::Nano => -9,
            Metric::Micro => -6,
            Metric::Milli => -3,
            Metric::Centi => -2,
            Metric::Deci => -1,
            Metric::Deca => 1,
            Metric::Hecto => 2,
            Metric::Kilo => 3,
            Metric::Mega => 6,
            Metric::Giga => 9,
            Metric::Tera => 12,
            Metric::Peta => 15,
            Metric::Exa => 18,
            Metric::Zetta => 21,
            Metric::Yotta => 24,
        }
    }
}

/// Named units without a prefix, each of exactly one base dimension.
#[derive(Clone, Copy, Debug, PartialEq, Eq, Structural)]
pub enum IsqRoot {
    Meter,
    AstroUnit,
    Foot,
    Yard,
    Inch,
    Gram,
    Second,
    Ampere,
    Kelvin,
    Celsius,
    Fahrenheit,
    Mole,
    Candela,
}

pub open spec fn root_short(r: IsqRoot) -> Seq<char> {
    match r {
        IsqRoot::Meter => "m"@,
        IsqRoot::AstroUnit => "AU"@,
        IsqRoot::Foot => "ft"@,
        IsqRoot::Yard => "yd"@,
        IsqRoot::Inch => "\""@,
        IsqRoot::Gram => "g"@,
        IsqRoot::Second => "s"@,
        IsqRoot::Ampere => "A"@,
        IsqRoot::Kelvin => "K"@,
        IsqRoot::Celsius => "°C"@,
        IsqRoot::Fahrenheit => "°F"@,
        IsqRoot::Mole => "mol"@,
        IsqRoot::Candela => "cd"@,
    }
}

pub open spec fn root_full(r: IsqRoot) -> Seq<char> {
    match r {
        IsqRoot::Meter => "meter"@,
        IsqRoot::AstroUnit => "astronomical unit"@,
        IsqRoot::Foot => "foot"@,
        IsqRoot::Yard => "yard"@,
        IsqRoot::Inch => "inch"@,
        IsqRoot::Gram => "gram"@,
        IsqRoot::Second => "second"@,
        IsqRoot::Ampere => "Ampere"@,
        IsqRoot::Kelvin => "Kelvin"@,
        IsqRoot::Celsius => "degree Celsius"@,
        IsqRoot::Fahrenheit => "degree Fahrenheit"@,
        IsqRoot::Mole => "mole"@,
        IsqRoot::Candela => "candela"@,
    }
}

pub open spec fn root_dimension(r: IsqRoot) -> BaseDimension {
    match r {
        IsqRoot::Meter => BaseDimension::Length,
        IsqRoot::AstroUnit => BaseDimension::Length,
        IsqRoot::Foot => BaseDimension::Length,
        IsqRoot::Yard => BaseDimension::Length,
        IsqRoot::Inch => BaseDimension::Length,
        IsqRoot::Gram => BaseDimension::Mass,
        IsqRoot::Second => BaseDimension::Time,
        IsqRoot::Ampere => BaseDimension::Current,
        IsqRoot::Kelvin => BaseDimension::Temperature,
        IsqRoot::Celsius => BaseDimension::Temperature,
        IsqRoot::Fahrenheit => BaseDimension::Temperature,
        IsqRoot::Mole => BaseDimension::AmountOfSubstance,
        IsqRoot::Candela => BaseDimension::LuminousIntensity,
    }
}

impl Name for IsqRoot {
    fn short(&self) -> (r: &'static str)
        ensures
            r@ == root_short(*self),
    {
        match self {
            IsqRoot::Meter => "m",
            IsqRoot::AstroUnit => "AU",
            IsqRoot::Foot => "ft",
            IsqRoot::Yard => "yd",
            IsqRoot::Inch => "\"",
            IsqRoot::Gram => "g",
            IsqRoot::Second => "s",
            IsqRoot::Ampere => "A",
            IsqRoot::Kelvin => "K",
            IsqRoot::Celsius => "°C",
            IsqRoot::Fahrenheit => "°F",
            IsqRoot::Mole => "mol",
            IsqRoot::Candela => "cd",
        }
    }

    fn full(&self) -> (r: &'static str)
        ensures
            r@ == root_full(*self),
    {
        match self {
            IsqRoot::Meter => "meter",
            IsqRoot::AstroUnit => "astronomical unit",
            IsqRoot::Foot => "foot",
            IsqRoot::Yard => "yard",
            IsqRoot::Inch => "inch",
            IsqRoot::Gram => "gram",
            IsqRoot::Second => "second",
            IsqRoot::Ampere => "Ampere",
            IsqRoot::Kelvin => "Kelvin",
            IsqRoot::Celsius => "degree Celsius",
            IsqRoot::Fahrenheit => "degree Fahrenheit",
            IsqRoot::Mole => "mole",
            IsqRoot::Candela => "candela",
        }
    }
}

/// A unit that stands in one slot: it belongs to one base dimension.
pub trait BaseUnit {
    fn dimension(&self) -> BaseDimension;
}

impl BaseUnit for IsqRoot {
    fn dimension(&self) -> (r: BaseDimension)
        ensures
            r == root_dimension(*self),
    {
        match self {
            IsqRoot::Meter => BaseDimension::Length,
            IsqRoot::AstroUnit => BaseDimension::Length,
            IsqRoot::Foot => BaseDimension::Length,
            IsqRoot::Yard => BaseDimension::Length,
            IsqRoot::Inch => BaseDimension::Length,
            IsqRoot::Gram => BaseDimension::Mass,
            IsqRoot::Second => BaseDimension::Time,
            IsqRoot::Ampere => BaseDimension::Current,
            IsqRoot::Kelvin => BaseDimension::Temperature,
            IsqRoot::Celsius => BaseDimension::Temperature,
            IsqRoot::Fahrenheit => BaseDimension::Temperature,
            IsqRoot::Mole => BaseDimension::AmountOfSubstance,
            IsqRoot::Candela => BaseDimension::LuminousIntensity,
        }
    }
}

/// A named unit without a prefix.
pub trait Root: Name + BaseUnit {}

impl Root for IsqRoot {}

/// A concrete unit: a root, perhaps scaled by a prefix (kilogram, millisecond).
#[derive(Clone, Copy, Debug, PartialEq, Eq, Structural)]
pub struct Pre {
    pub prefix: Option<Metric>,
    pub root: IsqRoot,
}

pub open spec fn pre_dimension(u: Pre) -> BaseDimension {
    root_dimension(u.root)
}

/// The name of a concrete unit: the prefix's name, then the root's.
pub open spec fn pre_name(u: Pre, full: bool) -> Seq<char> {
    let p = match u.prefix {
        Some(p) => if full {
            metric_full(p)
        } else {
            metric_short(p)
        },
        None => Seq::empty(),
    };
    p + if full {
        root_full(u.root)
    } else {
        root_short(u.root)
    }
}

impl Pre {
    pub fn new(prefix: Option<Metric>, root: IsqRoot) -> (r: Pre)
        ensures
            r == (Pre { prefix, root }),
    {
        Pre { prefix, root }
    }

    /// The root alone, without prefix.
    pub fn plain(root: IsqRoot) -> (r: Pre)
        ensures
            r == (Pre { prefix: None, root }),
    {
        Pre { prefix: None, root }
    }

    pub(crate) fn name(&self, full: bool) -> (r: String)
        ensures
            r@ == pre_name(*self, full),
    {
        let mut s = String::new();
        match self.prefix {
            Some(p) => {
                if full {
                    s.append(p.full());
                } else {
                    s.append(p.short());
                }
            },
            None => {},
        }
        if full {
            s.append(self.root.full());
        } else {
            s.append(self.root.short());
        }
        s
    }
}

impl BaseUnit for Pre {
    fn dimension(&self) -> (r: BaseDimension)
        ensures
            r == pre_dimension(*self),
    {
        self.root.dimension()
    }
}

impl crate::name::Display for Pre {
    fn display(&self) -> (r: String)
        ensures
            r@ == pre_name(*self, false),
    {
        self.name(false)
    }
}

impl crate::name::Debug for Pre {
    fn debug(&self) -> (r: String)
        ensures
            r@ == pre_name(*self, true),
    {
        self.name(true)
    }
}

} // verus!
