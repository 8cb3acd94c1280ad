use fixed128::{Fixed128, DIV};

fn one() -> Fixed128 {
    Fixed128::from_natural(1)
}

#[test]
fn text_round_trip() {
    for parts in [
        2_500_000_000_000_000_000i128,
        -2_500_000_000_000_000_000,
        0,
        7,
        -10,
        i128::MIN,
        i128::MAX,
    ] {
        let x = Fixed128::from_parts(parts);
        let text = x.i128_str();
        assert_eq!(text, parts.to_string());
        assert_eq!(Fixed128::try_from_i128_str(&text), Ok(x));
    }
    assert_eq!(Fixed128::from_rational(5, 2).i128_str(), "2500000000000000000");
    assert_eq!(Fixed128::from_rational(-5, 2).i128_str(), "-2500000000000000000");
}

#[test]
fn text_reading_accepts_signs_and_leading_zeros() {
    assert_eq!(Fixed128::try_from_i128_str("+42"), Ok(Fixed128::from_parts(42)));
    assert_eq!(Fixed128::try_from_i128_str("007"), Ok(Fixed128::from_parts(7)));
    assert_eq!(Fixed128::try_from_i128_str("-0"), Ok(Fixed128::zero()));
    assert_eq!(
        Fixed128::try_from_i128_str("-170141183460469231731687303715884105728"),
        Ok(Fixed128::min_value())
    );
}

#[test]
fn text_reading_rejects_bad_input() {
    for text in [
        "",
        "-",
        "+",
        "12a",
        " 1",
        "1.5",
        "--1",
        "170141183460469231731687303715884105728",
        "-170141183460469231731687303715884105729",
        "99999999999999999999999999999999999999999",
    ] {
        assert_eq!(Fixed128::try_from_i128_str(text), Err("invalid string input"));
    }
}

#[test]
fn natural_range_is_exact_then_saturates() {
    assert_eq!(
        Fixed128::from_natural(170_141_183_460_469_231_731).deconstruct(),
        170_141_183_460_469_231_731_000_000_000_000_000_000
    );
    assert_eq!(
        Fixed128::from_natural(-170_141_183_460_469_231_731).deconstruct(),
        -170_141_183_460_469_231_731_000_000_000_000_000_000
    );
    assert_eq!(Fixed128::from_natural(-170_141_183_460_469_231_732), Fixed128::min_value());
    assert_eq!(Fixed128::from_natural(i128::MAX), Fixed128::max_value());
}

#[test]
fn rational_over_one_zero_and_negative_denominators() {
    assert_eq!(Fixed128::from_rational(7, 1), Fixed128::from_natural(7));
    assert_eq!(Fixed128::from_rational(-7, 1), Fixed128::from_natural(-7));
    assert_eq!(Fixed128::from_rational(7, 0), Fixed128::from_natural(7));
    assert_eq!(Fixed128::from_rational(1, -2), Fixed128::from_parts(-500_000_000_000_000_000));
    assert_eq!(Fixed128::from_rational(7, -3), Fixed128::from_rational(-7, 3));
    assert_eq!(Fixed128::from_rational(-7, -3), Fixed128::from_rational(7, 3));
    assert_eq!(Fixed128::from_rational(7, i128::MIN), Fixed128::zero());
    // n units saturate at the least value, and that divided by -1 saturates at the greatest
    assert_eq!(Fixed128::from_rational(i128::MIN, -1), Fixed128::max_value());
    assert_eq!(Fixed128::from_rational(i128::MIN, 1), Fixed128::min_value());
}

#[test]
fn rational_rounds_toward_zero_and_scales() {
    assert_eq!(Fixed128::from_rational(2, 3).deconstruct(), 666_666_666_666_666_666);
    assert_eq!(Fixed128::from_rational(-2, 3).deconstruct(), -666_666_666_666_666_666);
    assert_eq!(Fixed128::from_rational(3 * 7, 3 * 5), Fixed128::from_rational(7, 5));
    assert_eq!(Fixed128::from_rational(-4 * 7, 4 * 9), Fixed128::from_rational(-7, 9));
}

#[test]
fn sub_undoes_add() {
    let a = Fixed128::from_rational(5, 2);
    let b = Fixed128::from_rational(-7, 3);
    let c = a.checked_add(&b).unwrap();
    assert_eq!(c.checked_sub(&b), Some(a));
    assert_eq!(a.checked_add(&b), b.checked_add(&a));
}

#[test]
fn mul_commutes() {
    let a = Fixed128::from_rational(-5, 3);
    let b = Fixed128::from_rational(7, 11);
    assert_eq!(a.checked_mul(&b), b.checked_mul(&a));
    assert_eq!(a.checked_mul(&Fixed128::min_value()), Fixed128::min_value().checked_mul(&a));
}

#[test]
fn one_is_neutral() {
    let a = Fixed128::from_rational(-7, 3);
    assert_eq!(a.checked_mul(&one()), Some(a));
    assert_eq!(one().checked_mul(&a), Some(a));
    assert_eq!(a.checked_div(&one()), Some(a));
    assert_eq!(Fixed128::max_value().checked_mul(&one()), Some(Fixed128::max_value()));
    assert_eq!(Fixed128::min_value().checked_mul(&one()), Some(Fixed128::min_value()));
    assert_eq!(one().checked_mul(&Fixed128::min_value()), Some(Fixed128::min_value()));
    assert_eq!(Fixed128::min_value().checked_div(&one()), Some(Fixed128::min_value()));
}

#[test]
fn least_value_operands() {
    let min = Fixed128::min_value();
    let minus_one = Fixed128::from_natural(-1);
    assert_eq!(min.checked_mul(&min), None);
    assert_eq!(min.checked_mul(&minus_one), None);
    assert_eq!(min.checked_div(&minus_one), None);
    assert_eq!(
        min.checked_mul(&Fixed128::from_rational(1, 2)),
        Some(Fixed128::from_parts(i128::MIN / 2))
    );
    assert_eq!(one().checked_mul_int(&i128::MIN), Some(i128::MIN));
    assert_eq!(minus_one.checked_mul_int(&i128::MIN), None);
    assert_eq!(minus_one.saturating_mul_int(&i128::MIN), i128::MAX);
    assert_eq!(min.saturating_mul(minus_one), Fixed128::max_value());
}

#[test]
fn checked_mul_rounds_magnitude_down() {
    let tiny = Fixed128::from_parts(1);
    assert_eq!(tiny.checked_mul(&tiny), Some(Fixed128::zero()));
    let a = Fixed128::from_parts(-3);
    let half = Fixed128::from_rational(1, 2);
    assert_eq!(a.checked_mul(&half), Some(Fixed128::from_parts(-1)));
}

#[test]
fn checked_div_of_zero_is_zero() {
    let z = Fixed128::zero();
    assert_eq!(z.checked_div(&Fixed128::from_natural(3)), Some(z));
    assert_eq!(z.checked_div(&Fixed128::from_natural(-3)), Some(z));
    assert_eq!(z.checked_div(&z), None);
}

#[test]
fn checked_div_overflows_to_none() {
    let small = Fixed128::from_parts(1);
    assert_eq!(Fixed128::max_value().checked_div(&small), None);
    assert_eq!(
        Fixed128::from_natural(3).checked_div(&Fixed128::from_natural(-2)),
        Some(Fixed128::from_rational(-3, 2))
    );
}

#[test]
fn whole_number_times_and_over_int() {
    assert_eq!(Fixed128::from_natural(-12).checked_mul_int(&7i64), Some(-84i64));
    assert_eq!(Fixed128::from_natural(12).checked_mul_int(&-7i16), Some(-84i16));
    assert_eq!(Fixed128::from_natural(-7).checked_div_int(&2i32), Some(-3i32));
    assert_eq!(Fixed128::from_natural(7).checked_div_int(&-2isize), Some(-3isize));
    assert_eq!(Fixed128::from_natural(9).checked_div_int(&4usize), Some(2usize));
}

#[test]
fn int_operands_outside_i128() {
    let one = one();
    assert_eq!(one.checked_mul_int(&u128::MAX), None);
    assert_eq!(one.saturating_mul_int(&u128::MAX), u128::MAX);
    assert_eq!(Fixed128::from_natural(-1).saturating_mul_int(&u128::MAX), u128::MAX);
    assert_eq!(one.checked_div_int(&u128::MAX), None);
    assert_eq!(one.checked_mul_int(&(i128::MAX as u128)), Some(i128::MAX as u128));
    assert_eq!(Fixed128::from_natural(-1).checked_mul_int(&5u32), None);
    assert_eq!(Fixed128::from_natural(-1).saturating_mul_int(&5u32), 0u32);
    assert_eq!(Fixed128::from_natural(2).saturating_mul_int(&u64::MAX), u64::MAX);
}

#[test]
fn checked_div_int_least_by_minus_one() {
    let a = Fixed128::from_parts(i128::MIN);
    assert_eq!(a.checked_div_int(&-1i128), None);
    assert_eq!(a.checked_div_int(&1i128), Some(i128::MIN / DIV));
}

#[test]
fn saturating_operations() {
    let max = Fixed128::max_value();
    let min = Fixed128::min_value();
    assert_eq!(max.saturating_add(one()), max);
    assert_eq!(min.saturating_add(Fixed128::from_natural(-1)), min);
    assert_eq!(min.saturating_sub(one()), min);
    assert_eq!(max.saturating_sub(Fixed128::from_natural(-1)), max);
    assert_eq!(
        Fixed128::from_natural(3).saturating_add(Fixed128::from_natural(2)),
        Fixed128::from_natural(5)
    );
    assert_eq!(
        Fixed128::from_natural(3).saturating_sub(Fixed128::from_natural(5)),
        Fixed128::from_natural(-2)
    );
    assert_eq!(
        Fixed128::from_natural(3).saturating_mul(Fixed128::from_natural(2)),
        Fixed128::from_natural(6)
    );
    assert_eq!(
        Fixed128::from_natural(-100).saturating_mul(Fixed128::from_natural(10_000_000_000_000_000_000)),
        min
    );
    assert_eq!(
        Fixed128::from_natural(10_000_000_000).saturating_mul(Fixed128::from_natural(10_000_000_000)),
        Fixed128::from_natural(100_000_000_000_000_000_000)
    );
    assert_eq!(
        Fixed128::from_rational(-1, 2).saturating_mul(Fixed128::from_natural(7)),
        Fixed128::from_rational(-7, 2)
    );
}

#[test]
fn constants_and_default() {
    assert_eq!(Fixed128::accuracy(), 1_000_000_000_000_000_000);
    assert_eq!(Fixed128::accuracy(), DIV);
    assert_eq!(Fixed128::default(), Fixed128::zero());
    assert_eq!(Fixed128::max_value().deconstruct(), i128::MAX);
    assert_eq!(Fixed128::min_value().deconstruct(), i128::MIN);
    assert!(Fixed128::from_natural(-1) < Fixed128::zero());
}

#[test]
fn debug_text() {
    assert_eq!(Fixed128::from_rational(5, 2).to_debug_string(), "Fixed128(2,500000000000000)");
    assert_eq!(Fixed128::from_rational(-5, 2).to_debug_string(), "Fixed128(-2,-500000000000000)");
    assert_eq!(Fixed128::zero().to_debug_string(), "Fixed128(0,0)");
    assert_eq!(Fixed128::from_parts(1_234_567).to_debug_string(), "Fixed128(0,1234)");
    assert_eq!(
        Fixed128::max_value().to_debug_string(),
        "Fixed128(170141183460469231731,687303715884105)"
    );
}

#[test]
fn saturating_powers() {
    let two = Fixed128::from_natural(2);
    assert_eq!(two.saturating_pow(0), one());
    assert_eq!(two.saturating_pow(1), two);
    assert_eq!(two.saturating_pow(2), Fixed128::from_natural(4));
    assert_eq!(two.saturating_pow(10), Fixed128::from_natural(1024));
    assert_eq!(Fixed128::from_natural(-2).saturating_pow(3), Fixed128::from_natural(-8));
    assert_eq!(Fixed128::from_rational(1, 2).saturating_pow(2), Fixed128::from_rational(1, 4));
    assert_eq!(Fixed128::max_value().saturating_pow(2), Fixed128::max_value());
    assert_eq!(Fixed128::min_value().saturating_pow(3), Fixed128::min_value());
    assert_eq!(one().saturating_pow(usize::MAX), one());
}

#[test]
fn saturating_mul_int_clamps_to_the_operand_range() {
    assert_eq!(Fixed128::from_rational(3, 1).saturating_mul_int(&100i8), i8::MAX);
    assert_eq!(Fixed128::from_rational(-3, 1).saturating_mul_int(&100i8), i8::MIN);
    assert_eq!(Fixed128::from_rational(1, 2).saturating_mul_int(&-7i8), -3i8);
    assert_eq!(Fixed128::from_rational(-3, 1).saturating_mul_int(&100u8), 0u8);
    assert_eq!(Fixed128::from_rational(3, 1).saturating_mul_int(&100u8), u8::MAX);
    assert_eq!(Fixed128::from_rational(5, 2).saturating_mul_int(&40u8), 100u8);
}
