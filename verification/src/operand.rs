//! Integer types that a fixed-point number can be multiplied or divided by.

use vstd::prelude::*;

verus! {

/// An integer type that a `Fixed128` can be multiplied or divided by: its
/// values convert to and from `i128` where they fit, and it has a least and a
/// greatest value (to saturate to).
pub trait FixedPointOperand: Sized + Copy {
    /// The value that `self` stands for.
    spec fn int_value(self) -> int;

    /// The least value of the type.
    spec fn min_int() -> int;

    /// The greatest value of the type.
    spec fn max_int() -> int;

    /// The least value is at most zero, and the greatest at least zero.
    proof fn lemma_bounds()
        ensures
            Self::min_int() <= 0 <= Self::max_int(),
    ;

    /// The value as an `i128`, where it fits one.
    fn into_i128(&self) -> (r: Option<i128>)
        ensures
            r is Some <==> i128::MIN <= self.int_value() <= i128::MAX,
            r matches Some(v) ==> v == self.int_value(),
    ;

    /// The value of the type equal to `v`, where it has one.
    fn try_from_i128(v: i128) -> (r: Option<Self>)
        ensures
            r is Some <==> Self::min_int() <= v <= Self::max_int(),
            r matches Some(x) ==> x.int_value() == v,
    ;

    /// The least value of the type.
    fn lowest() -> (r: Self)
        ensures
            r.int_value() == Self::min_int(),
    ;

    /// The greatest value of the type.
    fn highest() -> (r: Self)
        ensures
            r.int_value() == Self::max_int(),
    ;
}

/// `v` where the operand type `N` can hold it, else `None`.
pub open spec fn narrow<N: FixedPointOperand>(v: Option<int>) -> Option<int> {
    match v {
        Some(x) => if N::min_int() <= x <= N::max_int() {
            Some(x)
        } else {
            None
        },
        None => None,
    }
}

/// The value held by an optional operand.
pub open spec fn operand_opt_view<N: FixedPointOperand>(r: Option<N>) -> Option<int> {
    match r {
        Some(x) => Some(x.int_value()),
        None => None,
    }
}

impl FixedPointOperand for i8 {
    open spec fn int_value(self) -> int {
        self as int
    }

    open spec fn min_int() -> int {
        i8::MIN as int
    }

    open spec fn max_int() -> int {
        i8::MAX as int
    }

    proof fn lemma_bounds() {
    }

    fn into_i128(&self) -> (r: Option<i128>) {
        Some(*self as i128)
    }

    fn try_from_i128(v: i128) -> (r: Option<Self>) {
        if i8::MIN as i128 <= v && v <= i8::MAX as i128 {
            Some(v as i8)
        } else {
            None
        }
    }

    fn lowest() -> (r: Self) {
        i8::MIN
    }

    fn highest() -> (r: Self) {
        i8::MAX
    }
}

impl FixedPointOperand for i16 {
    open spec fn int_value(self) -> int {
        self as int
    }

    open spec fn min_int() -> int {
        i16::MIN as int
    }

    open spec fn max_int() -> int {
        i16::MAX as int
    }

    proof fn lemma_bounds() {
    }

    fn into_i128(&self) -> (r: Option<i128>) {
        Some(*self as i128)
    }

    fn try_from_i128(v: i128) -> (r: Option<Self>) {
        if i16::MIN as i128 <= v && v <= i16::MAX as i128 {
            Some(v as i16)
        } else {
            None
        }
    }

    fn lowest() -> (r: Self) {
        i16::MIN
    }

    fn highest() -> (r: Self) {
        i16::MAX
    }
}

impl FixedPointOperand for i32 {
    open spec fn int_value(self) -> int {
        self as int
    }

    open spec fn min_int() -> int {
        i32::MIN as int
    }

    open spec fn max_int() -> int {
        i32::MAX as int
    }

    proof fn lemma_bounds() {
    }

    fn into_i128(&self) -> (r: Option<i128>) {
        Some(*self as i128)
    }

    fn try_from_i128(v: i128) -> (r: Option<Self>) {
        if i32::MIN as i128 <= v && v <= i32::MAX as i128 {
            Some(v as i32)
        } else {
            None
        }
    }

    fn lowest() -> (r: Self) {
        i32::MIN
    }

    fn highest() -> (r: Self) {
        i32::MAX
    }
}

impl FixedPointOperand for i64 {
    open spec fn int_value(self) -> int {
        self as int
    }

    open spec fn min_int() -> int {
        i64::MIN as int
    }

    open spec fn max_int() -> int {
        i64::MAX as int
    }

    proof fn lemma_bounds() {
    }

    fn into_i128(&self) -> (r: Option<i128>) {
        Some(*self as i128)
    }

    fn try_from_i128(v: i128) -> (r: Option<Self>) {
        if i64::MIN as i128 <= v && v <= i64::MAX as i128 {
            Some(v as i64)
        } else {
            None
        }
    }

    fn lowest() -> (r: Self) {
        i64::MIN
    }

    fn highest() -> (r: Self) {
        i64::MAX
    }
}

impl FixedPointOperand for isize {
    open spec fn int_value(self) -> int {
        self as int
    }

    open spec fn min_int() -> int {
        isize::MIN as int
    }

    open spec fn max_int() -> int {
        isize::MAX as int
    }

    proof fn lemma_bounds() {
    }

    fn into_i128(&self) -> (r: Option<i128>) {
        Some(*self as i128)
    }

    fn try_from_i128(v: i128) -> (r: Option<Self>) {
        if isize::MIN as i128 <= v && v <= isize::MAX as i128 {
            Some(v as isize)
        } else {
            None
        }
    }

    fn lowest() -> (r: Self) {
        isize::MIN
    }

    fn highest() -> (r: Self) {
        isize::MAX
    }
}

impl FixedPointOperand for u8 {
    open spec fn int_value(self) -> int {
        self as int
    }

    open spec fn min_int() -> int {
        u8::MIN as int
    }

    open spec fn max_int() -> int {
        u8::MAX as int
    }

    proof fn lemma_bounds() {
    }

    fn into_i128(&self) -> (r: Option<i128>) {
        Some(*self as i128)
    }

    fn try_from_i128(v: i128) -> (r: Option<Self>) {
        if 0 <= v && v <= u8::MAX as i128 {
            Some(v as u8)
        } else {
            None
        }
    }

    fn lowest() -> (r: Self) {
        u8::MIN
    }

    fn highest() -> (r: Self) {
        u8::MAX
    }
}

impl FixedPointOperand for u16 {
    open spec fn int_value(self) -> int {
        self as int
    }

    open spec fn min_int() -> int {
        u16::MIN as int
    }

    open spec fn max_int() -> int {
        u16::MAX as int
    }

    proof fn lemma_bounds() {
    }

    fn into_i128(&self) -> (r: Option<i128>) {
        Some(*self as i128)
    }

    fn try_from_i128(v: i128) -> (r: Option<Self>) {
        if 0 <= v && v <= u16::MAX as i128 {
            Some(v as u16)
        } else {
            None
        }
    }

    fn lowest() -> (r: Self) {
        u16::MIN
    }

    fn highest() -> (r: Self) {
        u16::MAX
    }
}

impl FixedPointOperand for u32 {
    open spec fn int_value(self) -> int {
        self as int
    }

    open spec fn min_int() -> int {
        u32::MIN as int
    }

    open spec fn max_int() -> int {
        u32::MAX as int
    }

    proof fn lemma_bounds() {
    }

    fn into_i128(&self) -> (r: Option<i128>) {
        Some(*self as i128)
    }

    fn try_from_i128(v: i128) -> (r: Option<Self>) {
        if 0 <= v && v <= u32::MAX as i128 {
            Some(v as u32)
        } else {
            None
        }
    }

    fn lowest() -> (r: Self) {
        u32::MIN
    }

    fn highest() -> (r: Self) {
        u32::MAX
    }
}

impl FixedPointOperand for u64 {
    open spec fn int_value(self) -> int {
        self as int
    }

    open spec fn min_int() -> int {
        u64::MIN as int
    }

    open spec fn max_int() -> int {
        u64::MAX as int
    }

    proof fn lemma_bounds() {
    }

    fn into_i128(&self) -> (r: Option<i128>) {
        Some(*self as i128)
    }

    fn try_from_i128(v: i128) -> (r: Option<Self>) {
        if 0 <= v && v <= u64::MAX as i128 {
            Some(v as u64)
        } else {
            None
        }
    }

    fn lowest() -> (r: Self) {
        u64::MIN
    }

    fn highest() -> (r: Self) {
        u64::MAX
    }
}

impl FixedPointOperand for usize {
    open spec fn int_value(self) -> int {
        self as int
    }

    open spec fn min_int() -> int {
        usize::MIN as int
    }

    open spec fn max_int() -> int {
        usize::MAX as int
    }

    proof fn lemma_bounds() {
    }

    fn into_i128(&self) -> (r: Option<i128>) {
        Some(*self as i128)
    }

    fn try_from_i128(v: i128) -> (r: Option<Self>) {
        if 0 <= v && v <= usize::MAX as i128 {
            Some(v as usize)
        } else {
            None
        }
    }

    fn lowest() -> (r: Self) {
        usize::MIN
    }

    fn highest() -> (r: Self) {
        usize::MAX
    }
}

impl FixedPointOperand for i128 {
    open spec fn int_value(self) -> int {
        self as int
    }

    open spec fn min_int() -> int {
        i128::MIN as int
    }

    open spec fn max_int() -> int {
        i128::MAX as int
    }

    proof fn lemma_bounds() {
    }

    fn into_i128(&self) -> (r: Option<i128>) {
        Some(*self)
    }

    fn try_from_i128(v: i128) -> (r: Option<Self>) {
        Some(v)
    }

    fn lowest() -> (r: Self) {
        i128::MIN
    }

    fn highest() -> (r: Self) {
        i128::MAX
    }
}

impl FixedPointOperand for u128 {
    open spec fn int_value(self) -> int {
        self as int
    }

    open spec fn min_int() -> int {
        u128::MIN as int
    }

    open spec fn max_int() -> int {
        u128::MAX as int
    }

    proof fn lemma_bounds() {
    }

    fn into_i128(&self) -> (r: Option<i128>) {
        if *self <= i128::MAX as u128 {
            Some(*self as i128)
        } else {
            None
        }
    }

    fn try_from_i128(v: i128) -> (r: Option<Self>) {
        if 0 <= v {
            Some(v as u128)
        } else {
            None
        }
    }

    fn lowest() -> (r: Self) {
        u128::MIN
    }

    fn highest() -> (r: Self) {
        u128::MAX
    }
}

} // verus!
