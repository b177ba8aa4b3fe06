use uom_ng::base_unit::{IsqRoot, Metric, Pre};
use uom_ng::error::UnitError;
use uom_ng::name::Display;
use uom_ng::quantity::Quantity;
fn full<T: uom_ng::name::Debug>(t: &T) -> String {
    uom_ng::name::Debug::debug(t)
}

use uom_ng::unit::SimpleUnit;

fn m() -> SimpleUnit {
    SimpleUnit::base(Pre::plain(IsqRoot::Meter))
}

fn s() -> SimpleUnit {
    SimpleUnit::base(Pre::plain(IsqRoot::Second))
}

fn kg() -> SimpleUnit {
    SimpleUnit::base(Pre::new(Some(Metric::Kilo), IsqRoot::Gram))
}

fn m3() -> SimpleUnit {
    m().mul(&m()).unwrap().mul(&m()).unwrap()
}

fn mps() -> SimpleUnit {
    m().div(&s()).unwrap()
}

#[test]
fn add_quantity_to_quantity() {
    let v1 = Quantity::new(10_f32, mps());
    let v2 = Quantity::new(3_f32, mps());
    let volume = Quantity::new(100_i32, m3());
    let density = Quantity::new(1000_i32, kg().div(&m3()).unwrap());
    let destiny = Quantity::new(1000_i32, kg().div(&m3()).unwrap().div(&kg()).unwrap());
    let destiny2 = Quantity::new(
        1000_i32,
        kg().div(&m3()).unwrap().div(&s()).unwrap().div(&s()).unwrap(),
    );
    println!(
        "{} {}\n{} {}\n{} {}\n{} {}\n{} {}\n{} {}",
        v1.value,
        v1.unit.display(),
        v2.value,
        v2.unit.display(),
        volume.value,
        volume.unit.display(),
        density.value,
        density.unit.display(),
        destiny.value,
        destiny.unit.display(),
        destiny2.value,
        destiny2.unit.display()
    );
    println!(
        "{:?} {}\n{:?} {}\n{:?} {}\n{:?} {}\n{:?} {}\n{:?} {}",
        v1.value,
        full(&v1.unit),
        v2.value,
        full(&v2.unit),
        volume.value,
        full(&volume.unit),
        density.value,
        full(&density.unit),
        destiny.value,
        full(&destiny.unit),
        destiny2.value,
        full(&destiny2.unit)
    );
    let sum = v1.add(v2).unwrap();
    assert_eq!(sum.try_eq(&Quantity::new(13_f32, mps())), Ok(true));
}

#[test]
fn sub_quantity_from_quantity() {
    let v1 = Quantity::new(10_f32, mps());
    let v2 = Quantity::new(3_f32, mps());
    let diff = v1.sub(v2).unwrap();
    assert_eq!(diff.try_eq(&Quantity::new(7_f32, mps())), Ok(true));
}

#[test]
fn mul_quantity_by_quantity() {
    let speed = Quantity::new(10_f32, mps());
    let time = Quantity::new(3_f32, s());
    let distance = speed.mul(time).unwrap();
    assert_eq!(distance.try_eq(&Quantity::new(30_f32, m())), Ok(true));
    assert!(distance.unit.equals(&m()));
}

#[test]
fn div_quantity_by_quantity() {
    let distance = Quantity::new(21_f32, m());
    let time = Quantity::new(3_f32, s());
    let speed = distance.div(time).unwrap();
    assert_eq!(speed.try_eq(&Quantity::new(7_f32, mps())), Ok(true));
    assert!(speed.unit.equals(&mps()));
}

#[test]
fn round_trip_in_f64() {
    let speed = Quantity::new(10.0_f64, mps());
    let time = Quantity::new(3.0_f64, s());
    let distance = speed.mul(time).unwrap();
    assert_eq!(distance.value, 30.0);
    assert!(distance.unit.equals(&m()));
    let back = Quantity::new(21.0_f64, m()).div(Quantity::new(3.0_f64, s())).unwrap();
    assert_eq!(back.value, 7.0);
    assert!(back.unit.equals(&mps()));
}

#[test]
fn add_of_different_dimensions_is_refused() {
    let a = Quantity::new(10.0_f64, m());
    let b = Quantity::new(3.0_f64, s());
    assert!(matches!(a.add(b), Err(UnitError::UnitMismatch)));
    let c = Quantity::new(10.0_f64, m());
    let d = Quantity::new(3.0_f64, s());
    assert!(matches!(c.sub(d), Err(UnitError::UnitMismatch)));
    let e = Quantity::new(1_i32, m());
    let f = Quantity::new(1_i32, s());
    assert_eq!(e.try_eq(&f), Err(UnitError::UnitMismatch));
    assert_eq!(e.try_partial_cmp(&f), Err(UnitError::UnitMismatch));
}

#[test]
fn comparison_of_values() {
    let a = Quantity::new(2_i32, m());
    let b = Quantity::new(5_i32, m());
    assert_eq!(a.try_partial_cmp(&b), Ok(Some(std::cmp::Ordering::Less)));
    assert_eq!(a.try_eq(&b), Ok(false));
}

#[test]
fn celsius_to_kelvin() {
    let celsius = SimpleUnit::base(Pre::plain(IsqRoot::Celsius));
    let kelvin = SimpleUnit::base(Pre::plain(IsqRoot::Kelvin));
    let q = Quantity::new(0.0_f64, celsius.clone());
    let k = q.into(kelvin.clone()).unwrap();
    assert_eq!(k.value, 273.15);
    assert!(k.unit.equals(&kelvin));
    let back = Quantity::from(Quantity::new(273.15_f64, kelvin), celsius).unwrap();
    assert!(back.value.abs() < 1e-9);
}

#[test]
fn fahrenheit_to_celsius() {
    let celsius = SimpleUnit::base(Pre::plain(IsqRoot::Celsius));
    let fahrenheit = SimpleUnit::base(Pre::plain(IsqRoot::Fahrenheit));
    let c = Quantity::new(212.0_f64, fahrenheit).into(celsius).unwrap();
    assert!((c.value - 100.0).abs() < 1e-9);
}

#[test]
fn conversion_between_dimensions_is_missing() {
    let q = Quantity::new(1.0_f64, m());
    assert!(matches!(q.into(s()), Err(UnitError::MissingConversion)));
}

#[test]
fn conversion_within_a_dimension_keeps_the_value() {
    let km = SimpleUnit::base(Pre::new(Some(Metric::Kilo), IsqRoot::Meter));
    let q = Quantity::new(5_i32, m()).into(km.clone()).unwrap();
    assert_eq!(q.value, 5);
    assert!(q.unit.equals(&km));
}

#[test]
fn mul_with_conflicting_units_is_refused() {
    let ft = SimpleUnit::base(Pre::plain(IsqRoot::Foot));
    let a = Quantity::new(2_i32, m());
    let b = Quantity::new(3_i32, ft);
    assert!(matches!(a.mul(b), Err(UnitError::IncompatibleCompose)));
}
