use uom_ng::base_unit::{BaseDimension, IsqRoot, Metric, Pre};
use uom_ng::error::UnitError;
use uom_ng::frac::Frac;
use uom_ng::name::{superscript, Display};
use uom_ng::ops::{Inv, One};
fn full<T: uom_ng::name::Debug>(t: &T) -> String {
    uom_ng::name::Debug::debug(t)
}

use uom_ng::unit::{Exponent, SimpleUnit};

fn root(r: IsqRoot) -> SimpleUnit {
    SimpleUnit::base(Pre::plain(r))
}

fn half() -> Frac {
    Frac::new(1, 2).unwrap()
}

#[test]
fn fraction_sum() {
    let third = Frac::new(1, 3).unwrap();
    let sum = half().add(&third);
    assert_eq!((sum.num(), sum.den()), (5, 6));
    let zero = half().add(&Frac::new(-1, 2).unwrap());
    assert_eq!((zero.num(), zero.den()), (0, 1));
    let d = half().sub(&third);
    assert_eq!((d.num(), d.den()), (1, 6));
    let w = Frac::integer(2).add(&Frac::integer(-5));
    assert_eq!((w.num(), w.den()), (-3, 1));
}

#[test]
fn fraction_reduced_on_creation() {
    let f = Frac::new(2, -4).unwrap();
    assert_eq!((f.num(), f.den()), (-1, 2));
    let g = Frac::new(0, -7).unwrap();
    assert_eq!((g.num(), g.den()), (0, 1));
    assert!(Frac::new(1, 0).is_none());
    assert!(Frac::new(i32::MIN, 1).is_none());
    let h = Frac::new(i32::MIN, 2).unwrap();
    assert_eq!((h.num(), h.den()), (-(1 << 30), 1));
    let n = Frac::new(3, 4).unwrap().neg();
    assert_eq!((n.num(), n.den()), (-3, 4));
}

#[test]
fn identity_and_division_by_self() {
    let u = root(IsqRoot::Meter).div(&root(IsqRoot::Second)).unwrap();
    let one = SimpleUnit::new();
    assert!(u.mul(&one).unwrap().equals(&u));
    assert!(u.div(&u).unwrap().equals(&SimpleUnit::one()));
}

#[test]
fn inverse_twice_and_product_with_inverse() {
    let u = root(IsqRoot::Meter).mul(&root(IsqRoot::Second).inv()).unwrap();
    assert!(u.inv().inv().equals(&u));
    assert!(u.mul(&u.inv()).unwrap().equals(&SimpleUnit::new()));
    assert_eq!(u.inv().display(), "s/m");
}

#[test]
fn product_commutes() {
    let a = root(IsqRoot::Meter).div(&root(IsqRoot::Second)).unwrap();
    let b = root(IsqRoot::Ampere).mul(&root(IsqRoot::Second)).unwrap();
    assert!(a.mul(&b).unwrap().equals(&b.mul(&a).unwrap()));
    let ft = root(IsqRoot::Foot);
    assert_eq!(a.mul(&ft).err(), Some(UnitError::IncompatibleCompose));
    assert_eq!(ft.mul(&a).err(), Some(UnitError::IncompatibleCompose));
}

#[test]
fn product_associates() {
    let a = root(IsqRoot::Meter);
    let b = root(IsqRoot::Second).inv();
    let c = SimpleUnit::power(Pre::plain(IsqRoot::Meter), half());
    let left = a.mul(&b).unwrap().mul(&c).unwrap();
    let right = a.mul(&b.mul(&c).unwrap()).unwrap();
    assert!(left.equals(&right));
    assert_eq!(left.display(), "m^(3/2)/s");
}

#[test]
fn zero_slot_takes_the_other_unit() {
    let m = root(IsqRoot::Meter);
    let km = SimpleUnit::base(Pre::new(Some(Metric::Kilo), IsqRoot::Meter));
    let gone = m.div(&m).unwrap();
    let u = gone.mul(&km).unwrap();
    assert!(u.equals(&km));
    assert_eq!(u.slot(BaseDimension::Length).unit(), Some(Pre::new(Some(Metric::Kilo), IsqRoot::Meter)));
    assert_eq!(gone.slot(BaseDimension::Length).unit(), None);
    let e = u.slot(BaseDimension::Length).exponent();
    assert_eq!((e.num(), e.den()), (1, 1));
    assert!(m.same_dimension(&km));
    assert!(!m.equals(&km));
}

#[test]
fn names_of_units() {
    assert_eq!(SimpleUnit::new().display(), "");
    assert_eq!(root(IsqRoot::Meter).display(), "m");
    assert_eq!(full(&root(IsqRoot::Meter)), "meter");
    let mps = root(IsqRoot::Meter).div(&root(IsqRoot::Second)).unwrap();
    assert_eq!(mps.display(), "m/s");
    assert_eq!(full(&mps), "meter/second");
    let kg = SimpleUnit::base(Pre::new(Some(Metric::Kilo), IsqRoot::Gram));
    let u = root(IsqRoot::Meter).mul(&kg).unwrap().div(&root(IsqRoot::Second)).unwrap();
    assert_eq!(u.display(), "(m⋅kg)/s");
    assert_eq!(full(&u), "(meter⋅kilogram)/second");
}

#[test]
fn layouts_of_denominators() {
    let m = root(IsqRoot::Meter);
    let s = root(IsqRoot::Second);
    let hz = s.inv();
    assert_eq!(hz.display(), "1/s");
    let a = root(IsqRoot::Ampere);
    assert_eq!(a.inv().mul(&hz).unwrap().display(), "1/s⋅A");
    let accel = m.div(&s).unwrap().div(&s).unwrap();
    assert_eq!(accel.display(), "m/s²");
    let u = m.div(&s).unwrap().div(&a).unwrap();
    assert_eq!(u.display(), "m/(s⋅A)");
    let kg = SimpleUnit::base(Pre::new(Some(Metric::Kilo), IsqRoot::Gram));
    let v = m.mul(&kg).unwrap().div(&s).unwrap().div(&a).unwrap();
    assert_eq!(v.display(), "(m⋅kg)/(s⋅A)");
    let m3 = m.mul(&m).unwrap().mul(&m).unwrap();
    assert_eq!(m3.display(), "m³");
    assert_eq!(kg.div(&m3).unwrap().display(), "kg/m³");
}

#[test]
fn names_of_prefixed_units() {
    let km = Pre::new(Some(Metric::Kilo), IsqRoot::Meter);
    assert_eq!(km.display(), "km");
    assert_eq!(full(&km), "kilometer");
    let us = Pre::new(Some(Metric::Micro), IsqRoot::Second);
    assert_eq!(us.display(), "μs");
    assert_eq!(full(&Pre::plain(IsqRoot::Celsius)), "degree Celsius");
}

#[test]
fn superscript_digits() {
    assert_eq!(superscript(0), "⁰");
    assert_eq!(superscript(2), "²");
    assert_eq!(superscript(-12), "⁻¹²");
    assert_eq!(superscript(1234567890), "¹²³⁴⁵⁶⁷⁸⁹⁰");
    assert_eq!(superscript(i32::MIN), "⁻²¹⁴⁷⁴⁸³⁶⁴⁸");
}
