//! Decimal text of `i128` values: the form that `i128`'s `Display` writes and
//! that `i128::from_str` reads.

use vstd::prelude::*;

use crate::arith::in_i128;

verus! {

/// Whether `c` is one of the ASCII digits `0` to `9`.
pub open spec fn is_digit(c: char) -> bool {
    48 <= (c as u32) <= 57
}

/// The value of the digit `c`.
pub open spec fn digit_value(c: char) -> int {
    (c as u32) - 48
}

/// The ASCII digit of `d`, for `0 <= d < 10`.
pub open spec fn digit_char(d: int) -> char {
    (d + 48) as char
}

/// Whether every character of `s` is a digit.
pub open spec fn all_digits(s: Seq<char>) -> bool {
    forall|i: int| 0 <= i < s.len() ==> is_digit(#[trigger] s[i])
}

/// The digits of `n`, most significant first, without leading zeros.
pub open spec fn digits_of(n: nat) -> Seq<char>
    decreases n,
{
    if n < 10 {
        seq![digit_char(n as int)]
    } else {
        digits_of(n / 10).push(digit_char((n % 10) as int))
    }
}

/// The decimal text of `v`: a `-` before a negative value, then its digits.
pub open spec fn decimal(v: int) -> Seq<char> {
    if v < 0 {
        seq!['-'] + digits_of((-v) as nat)
    } else {
        digits_of(v as nat)
    }
}

/// The value of a sequence of digits, read most significant first.
pub open spec fn digits_value(s: Seq<char>) -> int
    decreases s.len(),
{
    if s.len() == 0 {
        0
    } else {
        digits_value(s.drop_last()) * 10 + digit_value(s.last())
    }
}

/// What reading `s` as an `i128` gives: an optional `+` or `-`, then one or
/// more digits, of a value that fits an `i128`; `None` for any other text.
pub open spec fn parse_decimal(s: Seq<char>) -> Option<int> {
    let negative = s.len() > 0 && s[0] == '-';
    let body = if s.len() > 0 && (s[0] == '-' || s[0] == '+') {
        s.drop_first()
    } else {
        s
    };
    if body.len() > 0 && all_digits(body) {
        let v = if negative {
            -digits_value(body)
        } else {
            digits_value(body)
        };
        if in_i128(v) {
            Some(v)
        } else {
            None
        }
    } else {
        None
    }
}

proof fn lemma_digit_char(d: int)
    requires
        0 <= d < 10,
    ensures
        is_digit(digit_char(d)),
        digit_value(digit_char(d)) == d,
        digit_char(d) != '-',
        digit_char(d) != '+',
{
}

/// The digits of `n` are digits, at least one, and read back as `n`.
proof fn lemma_digits_of(n: nat)
    ensures
        digits_of(n).len() > 0,
        all_digits(digits_of(n)),
        digits_value(digits_of(n)) == n,
    decreases n,
{
    if n < 10 {
        lemma_digit_char(n as int);
        let s = digits_of(n);
        assert(s.drop_last() =~= Seq::<char>::empty());
        assert(digits_value(s) == digits_value(s.drop_last()) * 10 + digit_value(s.last()));
    } else {
        lemma_digits_of(n / 10);
        lemma_digit_char((n % 10) as int);
        let s = digits_of(n);
        assert(s.drop_last() =~= digits_of(n / 10));
        assert(s.last() == digit_char((n % 10) as int));
        assert(digits_value(s) == digits_value(digits_of(n / 10)) * 10 + digit_value(s.last()));
        assert(n == (n / 10) * 10 + n % 10);
        assert forall|i: int| 0 <= i < s.len() implies is_digit(#[trigger] s[i]) by {
            if i < s.len() - 1 {
                assert(s[i] == digits_of(n / 10)[i]);
            }
        }
    }
}

/// A digit sequence is worth no less than any of its prefixes, and nothing negative.
proof fn lemma_digits_value_prefix(t: Seq<char>, j: int)
    requires
        all_digits(t),
        0 <= j <= t.len(),
    ensures
        0 <= digits_value(t.take(j)) <= digits_value(t),
    decreases t.len(),
{
    if j == t.len() {
        assert(t.take(j) =~= t);
        if t.len() > 0 {
            lemma_digits_value_prefix(t.drop_last(), j - 1);
            assert(t.drop_last().take(j - 1) =~= t.drop_last());
            assert(is_digit(t[t.len() - 1]));
        }
    } else {
        let u = t.drop_last();
        assert forall|i: int| 0 <= i < u.len() implies is_digit(#[trigger] u[i]) by {
            assert(u[i] == t[i]);
        }
        lemma_digits_value_prefix(u, j);
        assert(u.take(j) =~= t.take(j));
        lemma_digits_value_prefix(u, u.len() as int);
        assert(u.take(u.len() as int) =~= u);
        assert(is_digit(t[t.len() - 1]));
    }
}

/// Reading the decimal text of an `i128` gives it back.
pub proof fn lemma_parse_decimal(v: int)
    requires
        in_i128(v),
    ensures
        parse_decimal(decimal(v)) == Some(v),
{
    if v < 0 {
        let d = digits_of((-v) as nat);
        lemma_digits_of((-v) as nat);
        let s = decimal(v);
        assert(s.drop_first() =~= d);
    } else {
        let d = digits_of(v as nat);
        lemma_digits_of(v as nat);
        lemma_digit_char(digit_value(d[0]));
        assert(d[0] != '-' && d[0] != '+') by {
            assert(is_digit(d[0]));
        }
    }
}

/// The one-character text of the digit `d`.
fn digit_str(d: u8) -> (r: &'static str)
    requires
        d < 10,
    ensures
        r@ == seq![digit_char(d as int)],
{
    let digits = "0123456789";
    proof {
        reveal_strlit("0123456789");
    }
    let r = digits.substring_ascii(d as usize, d as usize + 1);
    assert(r@ =~= seq![digit_char(d as int)]);
    r
}

/// The digits of `n`, least significant first.
fn digits_reversed(n: u128) -> (ds: Vec<u8>)
    ensures
        ds.len() > 0,
        forall|i: int| 0 <= i < ds.len() ==> #[trigger] ds[i] < 10,
        digits_of(n as nat) =~= Seq::new(ds.len() as nat, |i: int| digit_char(ds[ds.len() - 1 - i] as int)),
{
    let mut rest = n;
    let mut ds: Vec<u8> = Vec::new();
    while rest >= 10
        invariant
            forall|i: int| 0 <= i < ds.len() ==> #[trigger] ds[i] < 10,
            digits_of(n as nat) =~= digits_of(rest as nat) + Seq::new(
                ds.len() as nat,
                |i: int| digit_char(ds[ds.len() - 1 - i] as int),
            ),
        decreases rest,
    {
        let ghost old_ds = ds@;
        let ghost old_rest = rest;
        let d = (rest % 10) as u8;
        ds.push(d);
        rest = rest / 10;
        proof {
            let old_tail = Seq::new(old_ds.len(), |i: int| digit_char(old_ds[old_ds.len() - 1 - i] as int));
            let new_tail = Seq::new(ds.len() as nat, |i: int| digit_char(ds[ds.len() - 1 - i] as int));
            assert(new_tail =~= seq![digit_char(d as int)] + old_tail);
            assert(digits_of(old_rest as nat) =~= digits_of(rest as nat).push(digit_char(d as int)));
            assert(digits_of(n as nat) =~= digits_of(rest as nat) + new_tail);
        }
    }
    let ghost old_ds = ds@;
    ds.push(rest as u8);
    proof {
        let old_tail = Seq::new(old_ds.len(), |i: int| digit_char(old_ds[old_ds.len() - 1 - i] as int));
        let new_tail = Seq::new(ds.len() as nat, |i: int| digit_char(ds[ds.len() - 1 - i] as int));
        assert(new_tail =~= seq![digit_char(rest as int)] + old_tail);
    }
    ds
}

/// The decimal text of `v`, as `i128`'s `Display` writes it.
pub fn format_i128(v: i128) -> (s: String)
    ensures
        s@ == decimal(v as int),
{
    let negative = v < 0;
    let magnitude: u128 = if negative {
        (-(v + 1)) as u128 + 1
    } else {
        v as u128
    };
    let ds = digits_reversed(magnitude);
    let mut out = String::new();
    if negative {
        let minus = "-";
        proof {
            reveal_strlit("-");
        }
        out.append(minus);
    }
    let ghost prefix = out@;
    let n = ds.len();
    let mut j: usize = 0;
    while j < n
        invariant
            n == ds.len(),
            j <= n,
            forall|i: int| 0 <= i < ds.len() ==> #[trigger] ds[i] < 10,
            out@ =~= prefix + Seq::new(j as nat, |i: int| digit_char(ds[n - 1 - i] as int)),
        decreases n - j,
    {
        let piece = digit_str(ds[n - 1 - j]);
        out.append(piece);
        j += 1;
    }
    proof {
        assert(Seq::new(n as nat, |i: int| digit_char(ds[n - 1 - i] as int)) =~= digits_of(magnitude as nat));
        if negative {
            assert(prefix =~= seq!['-']);
        } else {
            assert(prefix =~= Seq::<char>::empty());
        }
    }
    out
}

/// Reads `s` as an `i128`, as `i128::from_str` does: an optional sign, then
/// one or more digits of a value that fits.
pub fn parse_i128(s: &str) -> (r: Option<i128>)
    ensures
        match r {
            Some(v) => parse_decimal(s@) == Some(v as int),
            None => parse_decimal(s@) is None,
        },
{
    let n = s.unicode_len();
    if n == 0 {
        return None;
    }
    let first = s.get_char(0);
    let negative = first == '-';
    let start: usize = if first == '-' || first == '+' {
        1
    } else {
        0
    };
    let ghost body = if start == 1 {
        s@.drop_first()
    } else {
        s@
    };
    assert(body =~= s@.subrange(start as int, n as int));
    if start == n {
        return None;
    }
    let mut acc: i128 = 0;
    let mut i: usize = start;
    while i < n
        invariant
            start <= i <= n,
            n == s@.len(),
            n > 0,
            negative <==> s@[0] == '-',
            start == 1 <==> (s@[0] == '-' || s@[0] == '+'),
            start <= 1,
            body == (if s@[0] == '-' || s@[0] == '+' {
                s@.drop_first()
            } else {
                s@
            }),
            body =~= s@.subrange(start as int, n as int),
            all_digits(s@.subrange(start as int, i as int)),
            acc == (if negative {
                -digits_value(s@.subrange(start as int, i as int))
            } else {
                digits_value(s@.subrange(start as int, i as int))
            }),
        decreases n - i,
    {
        let ghost prefix = s@.subrange(start as int, i as int);
        let ghost next = s@.subrange(start as int, i + 1);
        assert(next.drop_last() =~= prefix);
        assert(body.take(i - start + 1) =~= next);
        assert(body.take(i - start) =~= prefix);
        let c = s.get_char(i);
        let code = c as u32;
        if code < 48 || code > 57 {
            assert(!is_digit(body[i - start]));
            assert(!all_digits(body));
            return None;
        }
        let d = (code - 48) as i128;
        assert(digits_value(next) == digits_value(prefix) * 10 + d);
        let scaled = match acc.checked_mul(10) {
            Some(x) => x,
            None => {
                proof {
                    assert(next.last() == c);
                    assert(is_digit(body[i - start]));
                    lemma_digits_value_prefix(prefix, 0);
                    assert(prefix.take(0) =~= Seq::<char>::empty());
                    assert(!in_i128(acc * 10));
                    lemma_overflow_is_final(body, (i - start) as int + 1, negative);
                }
                return None;
            },
        };
        let stepped = if negative {
            scaled.checked_sub(d)
        } else {
            scaled.checked_add(d)
        };
        match stepped {
            Some(x) => {
                acc = x;
            },
            None => {
                proof {
                    assert(is_digit(body[i - start]));
                    lemma_overflow_is_final(body, (i - start) as int + 1, negative);
                }
                return None;
            },
        }
        i += 1;
    }
    Some(acc)
}

/// Once a prefix of the digits overflows, the whole text does not read as an `i128`.
proof fn lemma_overflow_is_final(body: Seq<char>, j: int, negative: bool)
    requires
        0 < j <= body.len(),
        all_digits(body.take(j - 1)),
        is_digit(body[j - 1]),
        !in_i128(
            if negative {
                -digits_value(body.take(j))
            } else {
                digits_value(body.take(j))
            },
        ),
    ensures
        all_digits(body) ==> !in_i128(
            if negative {
                -digits_value(body)
            } else {
                digits_value(body)
            },
        ),
{
    if all_digits(body) {
        lemma_digits_value_prefix(body, j);
    }
}

} // verus!
