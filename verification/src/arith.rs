//! Mathematical model of `i128` arithmetic as Rust performs it, with the
//! executable helpers that compute it.

use vstd::prelude::*;

verus! {

/// Whether `x` is representable as an `i128`.
pub open spec fn in_i128(x: int) -> bool {
    i128::MIN <= x <= i128::MAX
}

/// `x` clamped to the range of `i128`.
pub open spec fn saturate(x: int) -> int {
    if x > i128::MAX {
        i128::MAX as int
    } else if x < i128::MIN {
        i128::MIN as int
    } else {
        x
    }
}

/// The sign of `x`: `1`, `0` or `-1`.
pub open spec fn sign(x: int) -> int {
    if x > 0 {
        1
    } else if x < 0 {
        -1
    } else {
        0
    }
}

/// The absolute value of `x`.
pub open spec fn abs(x: int) -> int {
    if x < 0 {
        -x
    } else {
        x
    }
}

/// Division rounding toward zero, as Rust's `/` on signed integers.
pub open spec fn div_toward_zero(x: int, d: int) -> int {
    let q = abs(x) / abs(d);
    if (x < 0) != (d < 0) {
        -q
    } else {
        q
    }
}

/// Remainder of the division rounding toward zero, as Rust's `%` on signed integers.
pub open spec fn rem_toward_zero(x: int, d: int) -> int {
    x - d * div_toward_zero(x, d)
}

/// The sign of an `i128`, as `i128::signum`.
pub(crate) fn signum(x: i128) -> (r: i128)
    ensures
        r == sign(x as int),
{
    if x > 0 {
        1
    } else if x < 0 {
        -1
    } else {
        0
    }
}

/// Saturating multiplication of two `i128`s, as `i128::saturating_mul`.
pub(crate) fn saturating_mul(a: i128, b: i128) -> (r: i128)
    ensures
        r == saturate(a * b),
{
    match a.checked_mul(b) {
        Some(v) => v,
        None => {
            if (a < 0) != (b < 0) {
                proof {
                    assert(a * b < 0) by (nonlinear_arith)
                        requires
                            (a < 0) != (b < 0),
                            a != 0,
                            b != 0,
                    ;
                }
                i128::MIN
            } else {
                proof {
                    assert(a * b > 0) by (nonlinear_arith)
                        requires
                            (a < 0) == (b < 0),
                            a != 0,
                            b != 0,
                    ;
                }
                i128::MAX
            }
        },
    }
}

/// Saturating addition of two `i128`s, as `i128::saturating_add`.
pub(crate) fn saturating_add(a: i128, b: i128) -> (r: i128)
    ensures
        r == saturate(a + b),
{
    match a.checked_add(b) {
        Some(v) => v,
        None => if b < 0 {
            i128::MIN
        } else {
            i128::MAX
        },
    }
}

/// Saturating subtraction of two `i128`s, as `i128::saturating_sub`.
pub(crate) fn saturating_sub(a: i128, b: i128) -> (r: i128)
    ensures
        r == saturate(a - b),
{
    match a.checked_sub(b) {
        Some(v) => v,
        None => if b > 0 {
            i128::MIN
        } else {
            i128::MAX
        },
    }
}

/// The magnitude of an `i128`, which for `i128::MIN` is 2^127.
pub(crate) fn magnitude(x: i128) -> (r: u128)
    ensures
        r == abs(x as int),
{
    if x < 0 {
        (-(x + 1)) as u128 + 1
    } else {
        x as u128
    }
}

/// The `i128` of the given sign and magnitude, where there is one.
pub(crate) fn signed_from_magnitude(negative: bool, m: u128) -> (r: Option<i128>)
    ensures
        r is Some <==> in_i128(if negative { -m } else { m as int }),
        r matches Some(v) ==> v == (if negative { -m } else { m as int }),
{
    if negative {
        if m <= i128::MAX as u128 {
            Some(-(m as i128))
        } else if m == i128::MAX as u128 + 1 {
            Some(i128::MIN)
        } else {
            None
        }
    } else if m <= i128::MAX as u128 {
        Some(m as i128)
    } else {
        None
    }
}

/// Division rounding toward zero of a product by a positive `d`: the
/// magnitudes are multiplied and divided rounding down, and the result takes
/// the sign of the product.
pub proof fn lemma_div_toward_zero_of_product(a: int, b: int, d: int)
    requires
        d > 0,
    ensures
        div_toward_zero(a * b, d) == (if (a < 0) != (b < 0) {
            -((abs(a) * abs(b)) / d)
        } else {
            (abs(a) * abs(b)) / d
        }),
{
    assert(abs(a * b) == abs(a) * abs(b)) by (nonlinear_arith);
    if a == 0 || b == 0 {
        assert(a * b == 0) by (nonlinear_arith)
            requires
                a == 0 || b == 0,
        ;
        assert(abs(a) * abs(b) == 0) by (nonlinear_arith)
            requires
                a == 0 || b == 0,
        ;
    } else {
        assert((a * b < 0) == ((a < 0) != (b < 0))) by (nonlinear_arith)
            requires
                a != 0,
                b != 0,
        ;
    }
}

/// Division rounding toward zero of `a * c` by `b`, for a positive `c`: the
/// magnitudes are divided rounding down, and the result takes the sign of
/// the quotient.
pub proof fn lemma_div_toward_zero_scaled(a: int, c: int, b: int)
    requires
        c > 0,
        b != 0,
    ensures
        div_toward_zero(a * c, b) == (if (a < 0) != (b < 0) {
            -((abs(a) * c) / abs(b))
        } else {
            (abs(a) * c) / abs(b)
        }),
{
    assert(abs(a * c) == abs(a) * c) by (nonlinear_arith)
        requires
            c > 0,
    ;
    if a == 0 {
        assert(a * c == 0);
        assert(abs(a) * c == 0);
        assert(0int / abs(b) == 0);
    } else {
        assert((a * c < 0) == (a < 0)) by (nonlinear_arith)
            requires
                c > 0,
                a != 0,
        ;
    }
}

/// Rust's signed division `x / d`, which rounds toward zero.
pub(crate) fn div_trunc(x: i128, d: i128) -> (r: i128)
    requires
        d != 0,
        !(x == i128::MIN && d == -1),
    ensures
        r == div_toward_zero(x as int, d as int),
{
    match x.checked_div(d) {
        Some(q) => q,
        None => {
            proof {
                lemma_div_toward_zero_bounded(x as int, d as int);
            }
            0
        },
    }
}

/// The quotient of a division rounding toward zero is no larger in size
/// than the dividend, so it fits an `i128` but for `i128::MIN / -1`.
pub proof fn lemma_div_toward_zero_bounded(x: int, d: int)
    requires
        d != 0,
        in_i128(x),
    ensures
        abs(div_toward_zero(x, d)) <= abs(x),
        !(x == i128::MIN && d == -1) ==> in_i128(div_toward_zero(x, d)),
{
    let q = abs(x) / abs(d);
    assert(0 <= q <= abs(x)) by (nonlinear_arith)
        requires
            abs(x) >= 0,
            abs(d) >= 1,
            q == abs(x) / abs(d),
    ;
    if x == i128::MIN && d != -1 {
        if abs(d) >= 2 {
            assert(q <= abs(x) / 2) by (nonlinear_arith)
                requires
                    abs(x) >= 0,
                    abs(d) >= 2,
                    q == abs(x) / abs(d),
            ;
        }
    }
}

} // verus!
