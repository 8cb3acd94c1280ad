//! Properties of `Fixed128` that relate its operations, stated over the
//! values that their contracts give.

use vstd::prelude::*;
use vstd::arithmetic::div_mod::{
    lemma_div_by_multiple, lemma_div_denominator, lemma_div_multiples_vanish_quotient,
    lemma_fundamental_div_mod, lemma_mod_pos_bound,
};

use crate::arith::{
    abs, div_toward_zero, in_i128, lemma_div_toward_zero_bounded, lemma_div_toward_zero_of_product,
    lemma_div_toward_zero_scaled, saturate, sign,
};
use crate::operand::FixedPointOperand;
use crate::decimal::{decimal, lemma_parse_decimal};
use crate::fixed_128::{
    checked_difference, checked_int_quotient, checked_product, checked_quotient, checked_sum,
    int_product, int_quotient, natural_value, parse_result, product_value, rational_value,
    saturating_int_product, saturating_power, saturating_product, DIV,
};

verus! {

/// The least magnitude that a result of the given sign cannot have as an
/// `i128`: 2^127 + 1 for a negative result, 2^127 otherwise.
pub open spec fn magnitude_cap(negative: bool) -> int {
    if negative {
        170_141_183_460_469_231_731_687_303_715_884_105_729
    } else {
        170_141_183_460_469_231_731_687_303_715_884_105_728
    }
}

/// Whether `r` is the value of the given sign whose magnitude is `x / y`
/// rounded down: `|r| * y <= x < (|r| + 1) * y`, and `r` is zero or has that sign.
pub open spec fn rounds_down_to(r: int, x: int, y: int, negative: bool) -> bool {
    &&& abs(r) * y <= x < (abs(r) + 1) * y
    &&& (r == 0 || (r < 0) == negative)
}

/// Division rounding down brackets the dividend, and is below a cap exactly
/// when the dividend is below the cap times the divisor.
proof fn lemma_floor(x: int, y: int, cap: int)
    requires
        x >= 0,
        y > 0,
        cap >= 0,
    ensures
        x / y >= 0,
        (x / y) * y <= x < (x / y + 1) * y,
        (x / y < cap) == (x < cap * y),
{
    lemma_fundamental_div_mod(x, y);
    lemma_mod_pos_bound(x, y);
    let m = x / y;
    assert(m >= 0 && m * y <= x < (m + 1) * y) by (nonlinear_arith)
        requires
            x == y * m + x % y,
            0 <= x % y < y,
            x >= 0,
            y > 0,
    ;
    assert((m < cap) == (x < cap * y)) by (nonlinear_arith)
        requires
            m * y <= x < (m + 1) * y,
            y > 0,
    ;
}

/// The signed value of magnitude `m` fits an `i128` exactly when `m` is below the cap.
proof fn lemma_signed_fits(m: int, negative: bool)
    requires
        m >= 0,
    ensures
        in_i128(if negative { -m } else { m }) == (m < magnitude_cap(negative)),
        abs(if negative { -m } else { m }) == m,
{
}

/// `checked_mul` gives the product of the two numbers rounded toward zero:
/// a result `q` has `|q| * DIV <= |a| * |b| < (|q| + 1) * DIV` and the sign of
/// the product; and it is `None` exactly when that rounded product is too
/// large for an `i128` of its sign.
pub proof fn law_checked_mul_rounds(a: int, b: int)
    requires
        in_i128(a),
        in_i128(b),
    ensures
        checked_product(a, b) matches Some(q) ==> in_i128(q) && rounds_down_to(
            q,
            abs(a) * abs(b),
            DIV as int,
            (a < 0) != (b < 0),
        ),
        checked_product(a, b) is None <==> abs(a) * abs(b) >= magnitude_cap((a < 0) != (b < 0))
            * DIV,
{
    let neg = (a < 0) != (b < 0);
    let x = abs(a) * abs(b);
    assert(x >= 0) by (nonlinear_arith)
        requires
            x == abs(a) * abs(b),
            abs(a) >= 0,
            abs(b) >= 0,
    ;
    lemma_div_toward_zero_of_product(a, b, DIV as int);
    lemma_floor(x, DIV as int, magnitude_cap(neg));
    lemma_signed_fits(x / (DIV as int), neg);
}

/// `checked_div` gives the quotient of the two numbers rounded toward zero:
/// a result `q` has `|q| * |b| <= |a| * DIV < (|q| + 1) * |b|` and the sign of
/// the quotient; and it is `None` exactly when `b` is zero or that rounded
/// quotient is too large for an `i128` of its sign.
pub proof fn law_checked_div_rounds(a: int, b: int)
    requires
        in_i128(a),
        in_i128(b),
    ensures
        b == 0 ==> checked_quotient(a, b) is None,
        checked_quotient(a, b) matches Some(q) ==> in_i128(q) && rounds_down_to(
            q,
            abs(a) * DIV,
            abs(b),
            (a < 0) != (b < 0),
        ),
        b != 0 ==> (checked_quotient(a, b) is None <==> abs(a) * DIV >= magnitude_cap(
            (a < 0) != (b < 0),
        ) * abs(b)),
{
    if b != 0 {
        let neg = (a < 0) != (b < 0);
        let x = abs(a) * DIV;
        lemma_div_toward_zero_scaled(a, DIV as int, b);
        lemma_floor(x, abs(b), magnitude_cap(neg));
        lemma_signed_fits(x / abs(b), neg);
    }
}

/// `saturating_mul` gives the product rounded toward zero where that fits an
/// `i128`, and otherwise the least value for a negative product and the
/// greatest for a positive one.
pub proof fn law_saturating_mul_rounds(a: int, b: int)
    requires
        in_i128(a),
        in_i128(b),
    ensures
        abs(a) * abs(b) < magnitude_cap((a < 0) != (b < 0)) * DIV ==> rounds_down_to(
            saturating_product(a, b),
            abs(a) * abs(b),
            DIV as int,
            (a < 0) != (b < 0),
        ),
        abs(a) * abs(b) >= magnitude_cap((a < 0) != (b < 0)) * DIV ==> saturating_product(a, b)
            == (if (a < 0) != (b < 0) {
            i128::MIN as int
        } else {
            i128::MAX as int
        }),
        checked_product(a, b) matches Some(q) ==> saturating_product(a, b) == q,
{
    let neg = (a < 0) != (b < 0);
    let x = abs(a) * abs(b);
    assert(x >= 0) by (nonlinear_arith)
        requires
            x == abs(a) * abs(b),
            abs(a) >= 0,
            abs(b) >= 0,
    ;
    lemma_div_toward_zero_of_product(a, b, DIV as int);
    lemma_floor(x, DIV as int, magnitude_cap(neg));
    lemma_signed_fits(x / (DIV as int), neg);
}

/// `checked_mul_int` is `checked_mul` by the integer's value as parts, where
/// the integer fits an `i128` and the result fits the integer's type, and
/// `None` otherwise.
pub proof fn law_checked_mul_int_is_checked_mul<N: FixedPointOperand>(a: int, b: int)
    ensures
        int_product::<N>(a, b) == (if in_i128(b) && checked_product(a, b) is Some && N::min_int()
            <= checked_product(a, b)->0 <= N::max_int() {
            checked_product(a, b)
        } else {
            None
        }),
{
}

/// `saturating_mul_int` is `checked_mul_int` wherever that succeeds; otherwise
/// the least value of the integer's type for a negative product and the
/// greatest otherwise.
pub proof fn law_saturating_mul_int_agrees<N: FixedPointOperand>(a: int, b: int)
    ensures
        int_product::<N>(a, b) matches Some(v) ==> saturating_int_product::<N>(a, b) == v,
        int_product::<N>(a, b) is None ==> saturating_int_product::<N>(a, b) == (if in_i128(b)
            && sign(a) * sign(b) < 0 {
            N::min_int()
        } else {
            N::max_int()
        }),
{
}

/// `checked_div_int` divides the number by the integer's value in whole units,
/// rounding toward zero: a result `q` has `|q| * |b| * DIV <= |a| < (|q| + 1) * |b| * DIV`
/// and the sign of the quotient; it is `None` exactly for a zero divisor and
/// for `i128::MIN` parts divided by `-1`.
pub proof fn law_int_quotient_rounds(a: int, b: int)
    requires
        in_i128(a),
        in_i128(b),
    ensures
        checked_int_quotient(a, b) is None <==> (b == 0 || (a == i128::MIN && b == -1)),
        checked_int_quotient(a, b) matches Some(q) ==> rounds_down_to(
            q,
            abs(a),
            abs(b) * DIV,
            (a < 0) != (b < 0),
        ),
{
    if b != 0 && !(a == i128::MIN && b == -1) {
        let d = DIV as int;
        let t = div_toward_zero(a, b);
        let m = abs(a) / abs(b);
        assert(m >= 0) by (nonlinear_arith)
            requires
                abs(a) >= 0,
                abs(b) > 0,
                m == abs(a) / abs(b),
        ;
        assert(abs(t) == m);
        lemma_div_denominator(abs(a), abs(b), d);
        let q = div_toward_zero(t, d);
        assert(abs(q) == m / d);
        assert(abs(b) * d > 0) by (nonlinear_arith)
            requires
                abs(b) > 0,
                d > 0,
        ;
        lemma_floor(abs(a), abs(b) * d, 0);
        if q != 0 {
            assert(m / d > 0);
            assert(m > 0) by (nonlinear_arith)
                requires
                    m / d > 0,
                    m >= 0,
                    d > 0,
            ;
        }
    }
}

/// `checked_div_int` is that quotient where the integer fits an `i128` and
/// the quotient fits the integer's type, and `None` otherwise.
pub proof fn law_checked_div_int_is_int_quotient<N: FixedPointOperand>(a: int, b: int)
    ensures
        int_quotient::<N>(a, b) == (if in_i128(b) && checked_int_quotient(a, b) is Some
            && N::min_int() <= checked_int_quotient(a, b)->0 <= N::max_int() {
            checked_int_quotient(a, b)
        } else {
            None
        }),
{
}

/// Reading back the text that `i128_str` writes gives the same number:
/// `try_from_i128_str(&x.i128_str()) == Ok(x)`.
pub proof fn law_text_round_trip(a: int)
    requires
        in_i128(a),
    ensures
        parse_result(decimal(a)) == Ok::<int, Seq<char>>(a),
{
    lemma_parse_decimal(a);
}

/// `from_natural` is exact for every whole number in
/// [-170_141_183_460_469_231_731, 170_141_183_460_469_231_731], and saturates
/// to the least or greatest value outside it.
pub proof fn law_natural_range(n: int)
    ensures
        -170_141_183_460_469_231_731 <= n <= 170_141_183_460_469_231_731 ==> natural_value(n)
            == n * DIV,
        n >= 170_141_183_460_469_231_732 ==> natural_value(n) == i128::MAX,
        n <= -170_141_183_460_469_231_732 ==> natural_value(n) == i128::MIN,
{
}

/// `from_rational(n, 1)` is `from_natural(n)`.
pub proof fn law_rational_over_one(n: int)
    ensures
        rational_value(n, 1) == natural_value(n),
{
    let x = saturate(n * DIV);
    assert(abs(x) / 1 == abs(x));
}

/// A zero denominator counts as one: `from_rational(n, 0) == from_rational(n, 1)`.
pub proof fn law_rational_zero_denominator(n: int)
    ensures
        rational_value(n, 0) == rational_value(n, 1),
{
}

/// A negative denominator negates the quotient:
/// `from_rational(n, -d)` is minus `from_rational(n, d)`, where `n` units
/// do not saturate at the least value.
pub proof fn law_rational_negative_denominator(n: int, d: int)
    requires
        d >= 1,
        i128::MIN < n * DIV <= i128::MAX,
    ensures
        rational_value(n, -d) == -rational_value(n, d),
{
    lemma_div_toward_zero_bounded(n * DIV, d);
    lemma_div_toward_zero_bounded(n * DIV, -d);
}

/// Scaling numerator and denominator alike does not change `from_rational`,
/// where the scaled numerator does not saturate.
pub proof fn law_rational_scaled(n: int, d: int, k: int)
    requires
        k >= 1,
        d >= 1,
        in_i128(k * n * DIV),
    ensures
        rational_value(k * n, k * d) == rational_value(n, d),
{
    let x = n * DIV;
    assert(k * n * DIV == k * x) by (nonlinear_arith)
        requires
            x == n * DIV,
    ;
    assert(abs(k * x) == k * abs(x) && abs(x) <= abs(k * x) && (k * x < 0) == (x < 0))
        by (nonlinear_arith)
        requires
            k >= 1,
    ;
    assert(k * d >= 1) by (nonlinear_arith)
        requires
            k >= 1,
            d >= 1,
    ;
    lemma_div_multiples_vanish_quotient(k, abs(x), d);
}

/// Subtracting what was added gives back the number: where
/// `a.checked_add(&b) == Some(c)`, `c.checked_sub(&b) == Some(a)`.
pub proof fn law_sub_undoes_add(a: int, b: int)
    requires
        in_i128(a),
        in_i128(b),
    ensures
        checked_sum(a, b) matches Some(c) ==> checked_difference(c, b) == Some(a),
{
}

/// `checked_add` does not depend on the order of its operands.
pub proof fn law_add_commutes(a: int, b: int)
    ensures
        checked_sum(a, b) == checked_sum(b, a),
{
}

/// `checked_mul` does not depend on the order of its operands.
pub proof fn law_mul_commutes(a: int, b: int)
    ensures
        checked_product(a, b) == checked_product(b, a),
{
    assert(a * b == b * a) by (nonlinear_arith);
}

/// Dividing a multiple of a positive `d` by `d`, rounding toward zero, is exact.
proof fn lemma_div_toward_zero_exact(m: int, d: int)
    requires
        d > 0,
    ensures
        div_toward_zero(m * d, d) == m,
{
    assert(abs(m * d) == abs(m) * d) by (nonlinear_arith)
        requires
            d > 0,
    ;
    lemma_div_by_multiple(abs(m), d);
    if m != 0 {
        assert((m * d < 0) == (m < 0)) by (nonlinear_arith)
            requires
                d > 0,
                m != 0,
        ;
    } else {
        assert(m * d == 0);
    }
}

/// One (`from_natural(1)`) is neutral for `checked_mul` and `checked_div`.
pub proof fn law_one_is_neutral(a: int)
    requires
        in_i128(a),
    ensures
        natural_value(1) == DIV,
        checked_product(a, DIV as int) == Some(a),
        checked_product(DIV as int, a) == Some(a),
        checked_quotient(a, DIV as int) == Some(a),
{
    lemma_div_toward_zero_exact(a, DIV as int);
    assert(DIV * a == a * DIV) by (nonlinear_arith);
}

/// `saturating_pow` to the power zero is one, to the power one the number
/// itself, and to the power two the number's saturating square.
pub proof fn law_small_powers(a: int)
    requires
        in_i128(a),
    ensures
        saturating_power(DIV as int, a, 0) == DIV,
        saturating_power(DIV as int, a, 1) == a,
        saturating_power(DIV as int, a, 2) == saturating_product(a, a),
{
    law_one_is_neutral(a);
    let sq = saturating_product(a, a);
    assert(in_i128(sq));
    law_one_is_neutral(sq);
    assert(saturating_power(DIV as int, a, 1) == saturating_power(a, sq, 0));
    assert(saturating_power(sq, saturating_product(sq, sq), 0) == sq);
    assert(saturating_power(DIV as int, sq, 1) == saturating_power(sq, saturating_product(sq, sq), 0));
    assert(saturating_power(DIV as int, a, 2) == saturating_power(DIV as int, sq, 1));
}

/// `x` clamped to `[lo, hi]`.
pub open spec fn clamp(x: int, lo: int, hi: int) -> int {
    if x < lo {
        lo
    } else if x > hi {
        hi
    } else {
        x
    }
}

/// `saturating_mul_int` is the rounded product clamped to the range of the
/// operand type, for an operand type whose range lies within that of `i128`.
pub proof fn law_saturating_mul_int_clamps<N: FixedPointOperand>(a: int, b: int)
    requires
        in_i128(a),
        in_i128(b),
        i128::MIN <= N::min_int(),
        N::max_int() <= i128::MAX,
    ensures
        saturating_int_product::<N>(a, b) == clamp(product_value(a, b), N::min_int(), N::max_int()),
{
    N::lemma_bounds();
    lemma_div_toward_zero_of_product(a, b, DIV as int);
    let q = (abs(a) * abs(b)) / (DIV as int);
    assert(q >= 0) by (nonlinear_arith)
        requires
            abs(a) >= 0,
            abs(b) >= 0,
            q == (abs(a) * abs(b)) / (DIV as int),
    ;
    if a != 0 && b != 0 {
        assert((sign(a) * sign(b) < 0) == ((a < 0) != (b < 0)));
    } else {
        assert(sign(a) * sign(b) == 0);
        assert(abs(a) * abs(b) == 0) by (nonlinear_arith)
            requires
                a == 0 || b == 0,
        ;
    }
}

/// A multiple of `DIV` is never `i128::MIN`.
proof fn lemma_whole_not_min(k: int)
    requires
        in_i128(k * DIV),
    ensures
        k * DIV != i128::MIN,
{
    if k * DIV == i128::MIN {
        assert(k == -(170_141_183_460_469_231_731_687_303_715_884_105_728int) / (DIV as int));
        assert(false);
    }
}

/// A whole number times an integer (`from_natural(k).checked_mul_int(&b)`)
/// is their product, where it fits an `i128`.
pub proof fn law_whole_times_int(k: int, b: int)
    ensures
        checked_product(k * DIV, b) == (if in_i128(k * b) {
            Some(k * b)
        } else {
            None::<int>
        }),
{
    assert(k * DIV * b == (k * b) * DIV) by (nonlinear_arith);
    lemma_div_toward_zero_exact(k * b, DIV as int);
}

/// Multiplication by a whole number (`from_natural(k)`) multiplies the parts
/// by `k`, where the product fits an `i128`.
pub proof fn law_times_whole(a: int, k: int)
    ensures
        checked_product(a, k * DIV) == (if in_i128(a * k) {
            Some(a * k)
        } else {
            None::<int>
        }),
{
    assert(a * (k * DIV) == (a * k) * DIV) by (nonlinear_arith);
    lemma_div_toward_zero_exact(a * k, DIV as int);
}

/// A whole number divided by an integer (`from_natural(k).checked_div_int(&b)`)
/// is their quotient rounded toward zero.
pub proof fn law_whole_over_int(k: int, b: int)
    requires
        in_i128(k * DIV),
        in_i128(b),
        b != 0,
    ensures
        checked_int_quotient(k * DIV, b) == Some(div_toward_zero(k, b)),
{
    lemma_whole_not_min(k);
    let d = DIV as int;
    let q1 = (abs(k) * d) / abs(b);
    assert(abs(k * d) == abs(k) * d) by (nonlinear_arith)
        requires
            d > 0,
    ;
    assert((k * d < 0) == (k < 0)) by (nonlinear_arith)
        requires
            d > 0,
    ;
    assert(q1 >= 0) by (nonlinear_arith)
        requires
            abs(k) >= 0,
            d > 0,
            abs(b) > 0,
            q1 == (abs(k) * d) / abs(b),
    ;
    lemma_div_denominator(abs(k) * d, abs(b), d);
    assert(abs(b) * d > 0) by (nonlinear_arith)
        requires
            abs(b) > 0,
            d > 0,
    ;
    lemma_div_multiples_vanish_quotient(d, abs(k), abs(b));
    assert(d * abs(k) == abs(k) * d && d * abs(b) == abs(b) * d) by (nonlinear_arith);
    assert(q1 / d == abs(k) / abs(b));
}

/// `saturating_add` gives the checked sum where there is one, and otherwise
/// the bound on the side of the overflow.
pub proof fn law_saturating_add(a: int, b: int)
    requires
        in_i128(a),
        in_i128(b),
    ensures
        checked_sum(a, b) matches Some(c) ==> saturate(a + b) == c,
        checked_sum(a, b) is None ==> saturate(a + b) == (if b < 0 {
            i128::MIN as int
        } else {
            i128::MAX as int
        }),
{
}

} // verus!
