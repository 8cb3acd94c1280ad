use fixed128::{Fixed128, DIV};
use sp_arithmetic::{PerThing, Perbill, Percent, Permill, Perquintill};

fn max() -> Fixed128 {
    Fixed128::from_parts(i128::max_value())
}

#[test]
fn fixed128_semantics() {
    assert_eq!(Fixed128::from_rational(5, 2).deconstruct(), 5 * 1_000_000_000_000_000_000 / 2);
    assert_eq!(Fixed128::from_rational(5, 2), Fixed128::from_rational(10, 4));
    assert_eq!(Fixed128::from_rational(5, 0), Fixed128::from_rational(5, 1));

    // biggest value that can be created.
    assert_ne!(max(), Fixed128::from_natural(170_141_183_460_469_231_731));
    assert_eq!(max(), Fixed128::from_natural(170_141_183_460_469_231_732));
}

#[test]
fn fixed128_operation() {
    let a = Fixed128::from_natural(2);
    let b = Fixed128::from_natural(1);
    assert_eq!(a.checked_add(&b), Some(Fixed128::from_natural(1 + 2)));
    assert_eq!(a.checked_sub(&b), Some(Fixed128::from_natural(2 - 1)));
    assert_eq!(a.checked_mul(&b), Some(Fixed128::from_natural(1 * 2)));
    assert_eq!(a.checked_div(&b), Some(Fixed128::from_rational(2, 1)));

    let a = Fixed128::from_rational(5, 2);
    let b = Fixed128::from_rational(3, 2);
    assert_eq!(a.checked_add(&b), Some(Fixed128::from_rational(8, 2)));
    assert_eq!(a.checked_sub(&b), Some(Fixed128::from_rational(2, 2)));
    assert_eq!(a.checked_mul(&b), Some(Fixed128::from_rational(15, 4)));
    assert_eq!(a.checked_div(&b), Some(Fixed128::from_rational(10, 6)));

    let a = Fixed128::from_natural(120);
    let b = 2i32;
    assert_eq!(a.checked_div_int::<i32>(&b), Some(60));

    let a = Fixed128::from_rational(20, 1);
    let b = 2i32;
    assert_eq!(a.checked_div_int::<i32>(&b), Some(10));

    let a = Fixed128::from_natural(120);
    let b = 2i32;
    assert_eq!(a.checked_mul_int::<i32>(&b), Some(240));

    let a = Fixed128::from_rational(1, 2);
    let b = 20i32;
    assert_eq!(a.checked_mul_int::<i32>(&b), Some(10));

    let a = Fixed128::from_rational(-1, 2);
    let b = 20i32;
    assert_eq!(a.checked_mul_int::<i32>(&b), Some(-10));
}

#[test]
fn saturating_mul_int_works() {
    let a = Fixed128::from_rational(10, 1);
    let b = i32::max_value() / 5;
    assert_eq!(a.saturating_mul_int(&b), i32::max_value());

    let a = Fixed128::from_rational(-10, 1);
    let b = i32::max_value() / 5;
    assert_eq!(a.saturating_mul_int(&b), i32::min_value());

    let a = Fixed128::from_rational(3, 1);
    let b = 100i8;
    assert_eq!(a.saturating_mul_int(&b), i8::max_value());

    let a = Fixed128::from_rational(10, 1);
    let b = 123;
    assert_eq!(a.saturating_mul_int(&b), 1230);

    let a = Fixed128::from_rational(-10, 1);
    let b = 123;
    assert_eq!(a.saturating_mul_int(&b), -1230);

    let b = 2i128;
    assert_eq!(max().saturating_mul_int(&b), 340_282_366_920_938_463_463);

    let b = i128::min_value();
    assert_eq!(max().saturating_mul_int(&b), i128::min_value());

    let b = Fixed128::from_parts(i128::min_value());
    assert_eq!(b.saturating_mul_int(&i128::max_value()), i128::min_value());

    let b = Fixed128::from_parts(i128::min_value());
    assert_eq!(b.saturating_mul_int(&i128::min_value()), i128::max_value());
}

#[test]
fn zero_works() {
    assert_eq!(Fixed128::zero(), Fixed128::from_natural(0));
}

#[test]
fn is_zero_works() {
    assert!(Fixed128::zero().is_zero());
    assert!(!Fixed128::from_natural(1).is_zero());
}

#[test]
fn checked_div_with_zero_should_be_none() {
    let a = Fixed128::from_natural(1);
    let b = Fixed128::from_natural(0);
    assert_eq!(a.checked_div(&b), None);
}

#[test]
fn checked_div_int_with_zero_should_be_none() {
    let a = Fixed128::from_natural(1);
    let b = 0i32;
    assert_eq!(a.checked_div_int(&b), None);
}

#[test]
fn under_flow_should_be_none() {
    let a = Fixed128::from_parts(i128::min_value());
    let b = Fixed128::from_natural(1);
    assert_eq!(a.checked_sub(&b), None);
}

#[test]
fn over_flow_should_be_none() {
    let a = Fixed128::from_parts(i128::max_value() - 1);
    let b = Fixed128::from_parts(2);
    assert_eq!(a.checked_add(&b), None);

    let a = Fixed128::max_value();
    let b = Fixed128::from_rational(2, 1);
    assert_eq!(a.checked_mul(&b), None);

    let a = Fixed128::from_natural(255);
    let b = 2u8;
    assert_eq!(a.checked_mul_int(&b), None);

    let a = Fixed128::from_natural(256);
    let b = 1u8;
    assert_eq!(a.checked_div_int(&b), None);

    let a = Fixed128::from_natural(256);
    let b = -1i8;
    assert_eq!(a.checked_div_int(&b), None);
}

#[test]
fn checked_div_int_should_work() {
    let a = Fixed128::from_natural(256);
    let b = 10i128;
    assert_eq!(a.checked_div_int(&b), Some(25));

    let a = Fixed128::from_natural(256);
    let b = 100i128;
    assert_eq!(a.checked_div_int(&b), Some(2));

    let a = Fixed128::from_natural(256);
    let b = 1000i128;
    assert_eq!(a.checked_div_int(&b), Some(0));

    let a = Fixed128::from_natural(256);
    let b = -1i128;
    assert_eq!(a.checked_div_int(&b), Some(-256));

    let a = Fixed128::from_rational(20, 2);
    let b = -5i128;
    assert_eq!(a.checked_div_int(&b), Some(-2));

    let a = Fixed128::from_natural(-256);
    let b = -1i128;
    assert_eq!(a.checked_div_int(&b), Some(256));
}

#[test]
fn perthing_into_fixed_i128() {
    let p = Percent::from_percent(10);
    let ten_percent_percent = Fixed128::from_rational(p.deconstruct() as i128, Percent::ACCURACY as i128);
    assert_eq!(ten_percent_percent.deconstruct(), DIV / 10);

    let p = Permill::from_percent(10);
    let ten_percent_permill = Fixed128::from_rational(p.deconstruct() as i128, Permill::ACCURACY as i128);
    assert_eq!(ten_percent_permill.deconstruct(), DIV / 10);

    let p = Perbill::from_percent(10);
    let ten_percent_perbill = Fixed128::from_rational(p.deconstruct() as i128, Perbill::ACCURACY as i128);
    assert_eq!(ten_percent_perbill.deconstruct(), DIV / 10);

    let p = Perquintill::from_percent(10);
    let ten_percent_perquintill =
        Fixed128::from_rational(p.deconstruct() as i128, Perquintill::ACCURACY as i128);
    assert_eq!(ten_percent_perquintill.deconstruct(), DIV / 10);
}

#[test]
fn recip_should_work() {
    let a = Fixed128::from_natural(2);
    assert_eq!(a.recip(), Some(Fixed128::from_rational(1, 2)));

    let a = Fixed128::from_natural(2);
    assert_eq!(a.recip().unwrap().checked_mul_int(&4i32), Some(2i32));

    let a = Fixed128::from_rational(100, 121);
    assert_eq!(a.recip(), Some(Fixed128::from_rational(121, 100)));

    let a = Fixed128::from_rational(1, 2);
    assert_eq!(a.recip().unwrap().checked_mul(&a), Some(Fixed128::from_natural(1)));

    let a = Fixed128::from_natural(0);
    assert_eq!(a.recip(), None);

    let a = Fixed128::from_rational(-1, 2);
    assert_eq!(a.recip(), Some(Fixed128::from_natural(-2)));
}
