//! The signed fixed-point number `Fixed128`.

use vstd::prelude::*;

use crate::arith::{
    abs, div_toward_zero, in_i128, rem_toward_zero, saturate, sign, div_trunc,
    lemma_div_toward_zero_bounded, lemma_div_toward_zero_of_product, lemma_div_toward_zero_scaled,
    magnitude, saturating_add, saturating_mul, saturating_sub, signed_from_magnitude, signum,
};
use crate::decimal::{decimal, format_i128, parse_decimal, parse_i128};
use crate::operand::{narrow, operand_opt_view, FixedPointOperand};
use crate::wide::{
    u256_checked_div, u256_checked_mul, u256_from_u128, u256_try_into_u128, word256_bound,
};

verus! {

/// The accuracy of `Fixed128`: the number of parts in one unit.
pub const DIV: i128 = 1_000_000_000_000_000_000i128;

/// A signed fixed-point number. Can hold any value in the range
/// [-170_141_183_460_469_231_731, 170_141_183_460_469_231_731] with fixed-point
/// accuracy of 10 ** 18: the number is its parts divided by `DIV`.
#[derive(Clone, Copy, PartialEq, Eq, Structural, PartialOrd, Ord, Debug)]
pub struct Fixed128(i128);

impl View for Fixed128 {
    /// The parts of the number, `DIV` of which make one.
    type V = int;

    closed spec fn view(&self) -> int {
        self.0 as int
    }
}

/// Two numbers are equal exactly when their parts are.
pub proof fn lemma_view_injective(a: Fixed128, b: Fixed128)
    ensures
        (a@ == b@) == (a == b),
{
}

/// The parts of a number fit an `i128`.
pub proof fn lemma_view_in_range(a: Fixed128)
    ensures
        in_i128(a@),
{
}

/// The parts of `n` units, saturated to the range of `i128`.
pub open spec fn natural_value(n: int) -> int {
    saturate(n * DIV)
}

/// The parts of `n / d`: `n` units, saturated to the range of `i128`, divided
/// (rounding toward zero) by `d`, where a zero `d` counts as one; the quotient
/// saturates too (for `i128::MIN / -1`).
pub open spec fn rational_value(n: int, d: int) -> int {
    saturate(div_toward_zero(saturate(n * DIV), if d == 0 { 1 } else { d }))
}

/// The sum of two values in parts, where it fits an `i128`.
pub open spec fn checked_sum(a: int, b: int) -> Option<int> {
    if in_i128(a + b) {
        Some(a + b)
    } else {
        None
    }
}

/// The difference of two values in parts, where it fits an `i128`.
pub open spec fn checked_difference(a: int, b: int) -> Option<int> {
    if in_i128(a - b) {
        Some(a - b)
    } else {
        None
    }
}

/// The product of two values in parts: `a * b / DIV`, rounding toward zero.
pub open spec fn product_value(a: int, b: int) -> int {
    div_toward_zero(a * b, DIV as int)
}

/// The product of two values in parts, where it fits an `i128`.
pub open spec fn checked_product(a: int, b: int) -> Option<int> {
    if in_i128(product_value(a, b)) {
        Some(product_value(a, b))
    } else {
        None
    }
}

/// The quotient of two values in parts, `a * DIV / b` rounding toward zero,
/// where `b` is not zero and the quotient fits an `i128`.
pub open spec fn checked_quotient(a: int, b: int) -> Option<int> {
    if b == 0 {
        None
    } else if in_i128(div_toward_zero(a * DIV, b)) {
        Some(div_toward_zero(a * DIV, b))
    } else {
        None
    }
}

/// The parts `a` divided by the integer `b` and then by `DIV`, each rounding
/// toward zero; `None` for a zero divisor or for `i128::MIN / -1`.
pub open spec fn checked_int_quotient(a: int, b: int) -> Option<int> {
    if b == 0 || (a == i128::MIN && b == -1) {
        None
    } else {
        Some(div_toward_zero(div_toward_zero(a, b), DIV as int))
    }
}

/// The product of two values in parts, saturated to the range of `i128`.
pub open spec fn saturating_product(a: int, b: int) -> int {
    saturate(product_value(a, b))
}

/// The power that `saturating_pow` computes, in parts: by repeated squaring,
/// each product saturating. Bit by bit of `e`, from the lowest, the running
/// `result` is multiplied by the running `base` where the bit is set, and the
/// `base` is squared.
pub open spec fn saturating_power(result: int, base: int, e: nat) -> int
    decreases e,
{
    if e == 0 {
        result
    } else {
        let next = if e % 2 == 1 {
            saturating_product(result, base)
        } else {
            result
        };
        saturating_power(next, saturating_product(base, base), e / 2)
    }
}

/// What `checked_mul_int` gives for the parts `a` and the operand value `b`.
pub open spec fn int_product<N: FixedPointOperand>(a: int, b: int) -> Option<int> {
    if in_i128(b) {
        narrow::<N>(checked_product(a, b))
    } else {
        None
    }
}

/// What `saturating_mul_int` gives for the parts `a` and the operand value `b`.
pub open spec fn saturating_int_product<N: FixedPointOperand>(a: int, b: int) -> int {
    match int_product::<N>(a, b) {
        Some(v) => v,
        None => if in_i128(b) && sign(a) * sign(b) < 0 {
            N::min_int()
        } else {
            N::max_int()
        },
    }
}

/// What `checked_div_int` gives for the parts `a` and the operand value `b`.
pub open spec fn int_quotient<N: FixedPointOperand>(a: int, b: int) -> Option<int> {
    if in_i128(b) {
        narrow::<N>(checked_int_quotient(a, b))
    } else {
        None
    }
}

/// The text that `to_debug_string` gives for the parts `a`: the whole units,
/// and the parts of the fraction divided by 1000, each rounded toward zero.
pub open spec fn debug_text(a: int) -> Seq<char> {
    "Fixed128("@ + decimal(div_toward_zero(a, DIV as int)) + ","@ + decimal(
        div_toward_zero(rem_toward_zero(a, DIV as int), 1000),
    ) + ")"@
}

/// What `try_from_i128_str` gives for the text `s`: the parts that it reads
/// as, or the error where it does not read as an `i128`.
pub open spec fn parse_result(s: Seq<char>) -> Result<int, Seq<char>> {
    match parse_decimal(s) {
        Some(v) => Ok(v),
        None => Err("invalid string input"@),
    }
}

/// The parts, or the error text, of a result.
pub open spec fn fixed_result_view(r: Result<Fixed128, &'static str>) -> Result<int, Seq<char>> {
    match r {
        Ok(x) => Ok(x@),
        Err(e) => Err(e@),
    }
}

/// The parts of an optional fixed-point number.
pub open spec fn fixed_opt_view(r: Option<Fixed128>) -> Option<int> {
    match r {
        Some(x) => Some(x@),
        None => None,
    }
}

/// `a * b / c` rounded down, computed in 256 bits, where it fits a `u128`.
fn unsigned_mul_div(a: u128, b: u128, c: u128) -> (r: Option<u128>)
    requires
        c > 0,
    ensures
        r is Some <==> (a * b) / (c as int) <= u128::MAX,
        r matches Some(v) ==> v == (a * b) / (c as int),
{
    assert(a * b < word256_bound()) by (nonlinear_arith)
        requires
            0 <= a <= u128::MAX,
            0 <= b <= u128::MAX,
    ;
    match u256_checked_mul(u256_from_u128(a), u256_from_u128(b)) {
        Some(n) => match u256_checked_div(n, u256_from_u128(c)) {
            Some(q) => match u256_try_into_u128(q) {
                Ok(v) => Some(v),
                Err(_) => None,
            },
            None => None,
        },
        None => None,
    }
}

/// `a * b / DIV` rounding toward zero, where it fits an `i128`.
fn mul_parts(a: i128, b: i128) -> (r: Option<i128>)
    ensures
        r matches Some(v) ==> v == product_value(a as int, b as int),
        r is Some <==> in_i128(product_value(a as int, b as int)),
{
    let negative = (a < 0) != (b < 0);
    proof {
        lemma_div_toward_zero_of_product(a as int, b as int, DIV as int);
    }
    match unsigned_mul_div(magnitude(a), magnitude(b), DIV as u128) {
        Some(q) => signed_from_magnitude(negative, q),
        None => None,
    }
}

impl Fixed128 {
    /// Create self from a natural number.
    ///
    /// Note that this might be lossy: the parts saturate at the range of `i128`.
    pub fn from_natural(n: i128) -> (r: Self)
        ensures
            r@ == natural_value(n as int),
    {
        Fixed128(saturating_mul(n, DIV))
    }

    /// Accuracy of `Fixed128`.
    pub fn accuracy() -> (r: i128)
        ensures
            r == DIV,
    {
        DIV
    }

    /// Raw constructor. Equal to `parts / DIV`.
    pub fn from_parts(parts: i128) -> (r: Self)
        ensures
            r@ == parts,
    {
        Fixed128(parts)
    }

    /// Creates self from a rational number. Equal to `n / d`.
    ///
    /// Note that this might be lossy: `n` units saturate at the range of
    /// `i128`, the quotient rounds toward zero, and a zero `d` counts as one.
    pub fn from_rational(n: i128, d: i128) -> (r: Self)
        ensures
            r@ == rational_value(n as int, d as int),
    {
        let d = if d == 0 { 1 } else { d };
        let scaled = saturating_mul(n, DIV);
        if scaled == i128::MIN && d == -1 {
            proof {
                assert(div_toward_zero(scaled as int, d as int) == abs(scaled as int));
            }
            Fixed128(i128::MAX)
        } else {
            proof {
                lemma_div_toward_zero_bounded(scaled as int, d as int);
            }
            Fixed128(div_trunc(scaled, d))
        }
    }

    /// Consume self and return the inner raw `i128` value.
    ///
    /// Note this is a low level function, as the returned value is represented with accuracy.
    pub fn deconstruct(self) -> (r: i128)
        ensures
            r == self@,
    {
        self.0
    }

    /// Checked add. Same semantic to `num_traits::CheckedAdd`.
    pub fn checked_add(&self, rhs: &Self) -> (r: Option<Self>)
        ensures
            fixed_opt_view(r) == checked_sum(self@, rhs@),
    {
        match self.0.checked_add(rhs.0) {
            Some(v) => Some(Fixed128(v)),
            None => None,
        }
    }

    /// Checked sub. Same semantic to `num_traits::CheckedSub`.
    pub fn checked_sub(&self, rhs: &Self) -> (r: Option<Self>)
        ensures
            fixed_opt_view(r) == checked_difference(self@, rhs@),
    {
        match self.0.checked_sub(rhs.0) {
            Some(v) => Some(Fixed128(v)),
            None => None,
        }
    }

    /// Checked mul. Same semantic to `num_traits::CheckedMul`: `None` on overflow.
    pub fn checked_mul(&self, rhs: &Self) -> (r: Option<Self>)
        ensures
            fixed_opt_view(r) == checked_product(self@, rhs@),
    {
        match mul_parts(self.0, rhs.0) {
            Some(v) => Some(Fixed128(v)),
            None => None,
        }
    }

    /// Checked div. Same semantic to `num_traits::CheckedDiv`: `None` for a
    /// zero divisor or on overflow (and zero divided by anything else is zero).
    pub fn checked_div(&self, rhs: &Self) -> (r: Option<Self>)
        ensures
            fixed_opt_view(r) == checked_quotient(self@, rhs@),
    {
        if rhs.0 == 0 {
            return None;
        }
        let negative = (self.0 < 0) != (rhs.0 < 0);
        proof {
            lemma_div_toward_zero_scaled(self@, DIV as int, rhs@);
        }
        match unsigned_mul_div(magnitude(self.0), DIV as u128, magnitude(rhs.0)) {
            Some(q) => match signed_from_magnitude(negative, q) {
                Some(v) => Some(Fixed128(v)),
                None => None,
            },
            None => None,
        }
    }

    /// Takes the reciprocal (inverse) of Fixed128, 1/x.
    pub fn recip(&self) -> (r: Option<Self>)
        ensures
            fixed_opt_view(r) == checked_quotient(DIV as int, self@),
    {
        Self::from_natural(1i128).checked_div(self)
    }

    /// Checked mul for int type `N`.
    pub fn checked_mul_int<N: FixedPointOperand>(&self, other: &N) -> (r: Option<N>)
        ensures
            operand_opt_view(r) == int_product::<N>(self@, (*other).int_value()),
    {
        match other.into_i128() {
            Some(rhs) => match mul_parts(self.0, rhs) {
                Some(v) => N::try_from_i128(v),
                None => None,
            },
            None => None,
        }
    }

    /// Saturating mul for int type `N`: the product where `N` holds it, else
    /// the least value of `N` for a negative product and the greatest otherwise.
    pub fn saturating_mul_int<N: FixedPointOperand>(&self, other: &N) -> (r: N)
        ensures
            r.int_value() == saturating_int_product::<N>(self@, (*other).int_value()),
    {
        match self.checked_mul_int(other) {
            Some(v) => v,
            None => {
                match other.into_i128() {
                    Some(n) => {
                        let signum = signum(self.0) * signum(n);
                        if signum < 0 {
                            return N::lowest();
                        }
                    },
                    None => {},
                }
                N::highest()
            },
        }
    }

    /// Checked div for int type `N`.
    pub fn checked_div_int<N: FixedPointOperand>(&self, other: &N) -> (r: Option<N>)
        ensures
            operand_opt_view(r) == int_quotient::<N>(self@, (*other).int_value()),
    {
        match other.into_i128() {
            Some(n) => {
                if n == 0 || (self.0 == i128::MIN && n == -1) {
                    None
                } else {
                    N::try_from_i128(div_trunc(div_trunc(self.0, n), DIV))
                }
            },
            None => None,
        }
    }

    /// The number zero.
    pub fn zero() -> (r: Self)
        ensures
            r@ == 0,
    {
        Fixed128(0)
    }

    /// Whether the number is zero.
    pub fn is_zero(&self) -> (r: bool)
        ensures
            r == (self@ == 0),
    {
        self.0 == 0
    }

    /// Saturating addition.
    pub fn saturating_add(self, rhs: Self) -> (r: Self)
        ensures
            r@ == saturate(self@ + rhs@),
    {
        Fixed128(saturating_add(self.0, rhs.0))
    }

    /// Saturating subtraction.
    pub fn saturating_sub(self, rhs: Self) -> (r: Self)
        ensures
            r@ == saturate(self@ - rhs@),
    {
        Fixed128(saturating_sub(self.0, rhs.0))
    }

    /// Saturating multiplication: the product, saturating at the least and
    /// the greatest value instead of overflowing.
    pub fn saturating_mul(self, rhs: Self) -> (r: Self)
        ensures
            r@ == saturating_product(self@, rhs@),
    {
        match mul_parts(self.0, rhs.0) {
            Some(v) => Fixed128(v),
            None => {
                proof {
                    lemma_div_toward_zero_of_product(self@, rhs@, DIV as int);
                }
                if (self.0 < 0) != (rhs.0 < 0) {
                    Fixed128(i128::MIN)
                } else {
                    Fixed128(i128::MAX)
                }
            },
        }
    }

    /// The parts as decimal text (the form in which the number is serialized).
    pub fn i128_str(&self) -> (r: String)
        ensures
            r@ == decimal(self@),
    {
        format_i128(self.0)
    }

    /// Reads the parts from decimal text (the form in which the number is
    /// serialized): an optional sign, then digits of a value that fits an `i128`.
    pub fn try_from_i128_str(s: &str) -> (r: Result<Self, &'static str>)
        ensures
            fixed_result_view(r) == parse_result(s@),
    {
        match parse_i128(s) {
            Some(parts) => Ok(Self::from_parts(parts)),
            None => {
                let e = "invalid string input";
                proof {
                    reveal_strlit("invalid string input");
                }
                Err(e)
            },
        }
    }

    /// The text of the number in the form `Fixed128(units,fraction)`, where
    /// `units` is the whole units and `fraction` the parts of the remaining
    /// fraction divided by 1000, both rounded toward zero and carrying the number's sign.
    pub fn to_debug_string(&self) -> (r: String)
        ensures
            r@ == debug_text(self@),
    {
        let units = div_trunc(self.0, DIV);
        proof {
            lemma_div_rem_bounds(self.0 as int, DIV as int);
        }
        let fraction = self.0 - units * DIV;
        let fraction_scaled = div_trunc(fraction, 1000);
        let head = "Fixed128(";
        let comma = ",";
        let close = ")";
        proof {
            reveal_strlit("Fixed128(");
            reveal_strlit(",");
            reveal_strlit(")");
        }
        let mut out = String::from_str(head);
        let units_text = format_i128(units);
        out.append(units_text.as_str());
        out.append(comma);
        let fraction_text = format_i128(fraction_scaled);
        out.append(fraction_text.as_str());
        out.append(close);
        out
    }

    /// Saturating exponentiation: `self` to the power `exp` by repeated
    /// squaring, each product saturating at the least and the greatest value.
    pub fn saturating_pow(self, exp: usize) -> (r: Self)
        ensures
            r@ == saturating_power(DIV as int, self@, exp as nat),
    {
        let mut result = Fixed128(DIV);
        let mut base = self;
        let mut e = exp;
        while e > 0
            invariant
                saturating_power(result@, base@, e as nat) == saturating_power(
                    DIV as int,
                    self@,
                    exp as nat,
                ),
            decreases e,
        {
            if e % 2 == 1 {
                result = result.saturating_mul(base);
            }
            base = base.saturating_mul(base);
            e = e / 2;
        }
        result
    }

    /// The least value.
    pub fn min_value() -> (r: Self)
        ensures
            r@ == i128::MIN,
    {
        Fixed128(i128::MIN)
    }

    /// The greatest value.
    pub fn max_value() -> (r: Self)
        ensures
            r@ == i128::MAX,
    {
        Fixed128(i128::MAX)
    }
}

/// The quotient of a division by a positive `d`, rounding toward zero, times
/// `d` lies between zero and the dividend, and so does the remainder.
proof fn lemma_div_rem_bounds(a: int, d: int)
    requires
        d > 0,
    ensures
        0 <= abs(div_toward_zero(a, d) * d) <= abs(a),
        div_toward_zero(a, d) * d == 0 || (div_toward_zero(a, d) * d < 0) == (a < 0),
        abs(rem_toward_zero(a, d)) <= abs(a),
{
    let q = abs(a) / d;
    assert(0 <= q * d <= abs(a)) by (nonlinear_arith)
        requires
            abs(a) >= 0,
            d > 0,
            q == abs(a) / d,
    ;
    assert(d * div_toward_zero(a, d) == div_toward_zero(a, d) * d) by (nonlinear_arith);
    if a < 0 {
        assert(div_toward_zero(a, d) * d == -(q * d)) by (nonlinear_arith)
            requires
                div_toward_zero(a, d) == -q,
        ;
    }
}

impl Default for Fixed128 {
    fn default() -> (r: Self)
        ensures
            r@ == 0,
    {
        Fixed128(0)
    }
}

} // verus!
