//! Unsigned 256-bit intermediate values, computed by `primitive_types::U256`.
//!
//! The library keeps a 256-bit value as its four little-endian 64-bit words,
//! which is exactly what a `U256` holds; the wrappers below hand those words
//! to `U256` and take its result back.

use primitive_types::U256;
use vstd::prelude::*;

verus! {

/// A 256-bit unsigned integer, as four little-endian 64-bit words.
pub struct Word256 {
    pub words: [u64; 4],
}

impl View for Word256 {
    type V = nat;

    open spec fn view(&self) -> nat {
        self.words[0] as nat + self.words[1] as nat * 0x1_0000_0000_0000_0000nat + self.words[2] as nat
            * 0x1_0000_0000_0000_0000_0000_0000_0000_0000nat + self.words[3] as nat
            * 0x1_0000_0000_0000_0000_0000_0000_0000_0000_0000_0000_0000_0000nat
    }
}

/// 2^256, the first value a `Word256` cannot hold.
pub open spec fn word256_bound() -> nat {
    0x1_0000_0000_0000_0000_0000_0000_0000_0000_0000_0000_0000_0000_0000_0000_0000_0000nat
}

/// `U256::from(u128)`: the 256-bit number of the same value.
#[verifier::external_body]
pub(crate) fn u256_from_u128(value: u128) -> (r: Word256)
    ensures
        r@ == value,
{
    Word256 { words: U256::from(value).0 }
}

/// `U256::checked_mul`: the product when it is below 2^256, else `None`.
#[verifier::external_body]
pub(crate) fn u256_checked_mul(a: Word256, b: Word256) -> (r: Option<Word256>)
    ensures
        r is Some <==> a@ * b@ < word256_bound(),
        r matches Some(c) ==> c@ == a@ * b@,
{
    match U256(a.words).checked_mul(U256(b.words)) {
        Some(c) => Some(Word256 { words: c.0 }),
        None => None,
    }
}

/// `U256::checked_div`: the quotient rounded down, or `None` for a zero divisor.
#[verifier::external_body]
pub(crate) fn u256_checked_div(a: Word256, b: Word256) -> (r: Option<Word256>)
    ensures
        r is Some <==> b@ != 0,
        r matches Some(c) ==> c@ == a@ / b@,
{
    match U256(a.words).checked_div(U256(b.words)) {
        Some(c) => Some(Word256 { words: c.0 }),
        None => None,
    }
}

/// `TryFrom<U256> for u128`: the value when it is at most `u128::MAX`, else an error.
#[verifier::external_body]
pub(crate) fn u256_try_into_u128(a: Word256) -> (r: Result<u128, &'static str>)
    ensures
        r is Ok <==> a@ <= u128::MAX,
        r matches Ok(v) ==> v == a@,
{
    u128::try_from(U256(a.words))
}

} // verus!
