//! Integers as decimal text, both ways: what `to_string` writes for an
//! integer and what `str::parse::<i64>` accepts.

use vstd::prelude::*;
use crate::chars::to_chars;

verus! {

/// The ASCII digit for `d < 10`.
pub open spec fn digit_char(d: nat) -> char {
    (48 + d) as char
}

pub open spec fn is_digit(c: char) -> bool {
    '0' <= c && c <= '9'
}

/// Decimal digits of `n`, most significant first, with no leading zero.
pub open spec fn dec_digits(n: nat) -> Seq<char>
    decreases n,
{
    if n < 10 {
        seq![digit_char(n)]
    } else {
        dec_digits(n / 10).push(digit_char(n % 10))
    }
}

/// What `to_string` writes for an integer.
pub open spec fn int_text(n: int) -> Seq<char> {
    if n < 0 {
        seq!['-'] + dec_digits((-n) as nat)
    } else {
        dec_digits(n as nat)
    }
}

/// Value of a run of decimal digits.
pub open spec fn digits_value(s: Seq<char>) -> int
    decreases s.len(),
{
    if s.len() == 0 {
        0
    } else {
        digits_value(s.drop_last()) * 10 + (s.last() as int - 48)
    }
}

pub open spec fn all_digits(s: Seq<char>) -> bool {
    forall|i: int| 0 <= i < s.len() ==> #[trigger] is_digit(s[i])
}

/// What `str::parse::<i64>` accepts: an optional sign, then at least one
/// ASCII digit and nothing else, with a value that fits.
pub open spec fn parse_i64_text(s: Seq<char>) -> Option<i64> {
    let neg = s.len() > 0 && s[0] == '-';
    let signed = s.len() > 0 && (s[0] == '-' || s[0] == '+');
    let body = if signed {
        s.drop_first()
    } else {
        s
    };
    let v = if neg {
        -digits_value(body)
    } else {
        digits_value(body)
    };
    if body.len() == 0 || !all_digits(body) {
        None
    } else if i64::MIN <= v <= i64::MAX {
        Some(v as i64)
    } else {
        None
    }
}

fn digit(d: u64) -> (c: char)
    requires
        d < 10,
    ensures
        c == digit_char(d as nat),
{
    ((48u8 + d as u8) as char)
}

fn push_digits(n: u64, out: &mut Vec<char>)
    ensures
        final(out)@ == old(out)@ + dec_digits(n as nat),
    decreases n,
{
    if n >= 10 {
        push_digits(n / 10, out);
    }
    out.push(digit(n % 10));
}

/// `u64::to_string`, as characters.
pub fn u64_chars(n: u64) -> (r: Vec<char>)
    ensures
        r@ == int_text(n as int),
{
    let mut out: Vec<char> = Vec::new();
    push_digits(n, &mut out);
    assert(out@ == dec_digits(n as nat));
    out
}

/// `i64::to_string`, as characters.
pub fn i64_chars(n: i64) -> (r: Vec<char>)
    ensures
        r@ == int_text(n as int),
{
    let mut out: Vec<char> = Vec::new();
    if n < 0 {
        out.push('-');
        let m: u64 = (0i128 - n as i128) as u64;
        push_digits(m, &mut out);
        assert(out@ == seq!['-'] + dec_digits(m as nat));
    } else {
        push_digits(n as u64, &mut out);
        assert(out@ == dec_digits(n as nat));
    }
    out
}

pub proof fn lemma_digits_value_step(s: Seq<char>, k: int)
    requires
        0 <= k < s.len(),
    ensures
        digits_value(s.take(k + 1)) == digits_value(s.take(k)) * 10 + (s[k] as int - 48),
{
    assert(s.take(k + 1).drop_last() == s.take(k));
}

/// A longer run of digits is worth at least as much as its prefix.
pub proof fn lemma_digits_value_grows(s: Seq<char>, k: int)
    requires
        0 <= k <= s.len(),
        all_digits(s),
    ensures
        digits_value(s) >= digits_value(s.take(k)),
        digits_value(s.take(k)) >= 0,
    decreases s.len() - k,
{
    if k < s.len() {
        lemma_digits_value_step(s, k);
        assert(is_digit(s[k]));
        lemma_digits_value_grows(s, k + 1);
        lemma_digits_value_nonneg(s.take(k));
    } else {
        assert(s.take(k) == s);
        lemma_digits_value_nonneg(s);
    }
}

pub proof fn lemma_digits_value_nonneg(s: Seq<char>)
    requires
        all_digits(s),
    ensures
        digits_value(s) >= 0,
    decreases s.len(),
{
    if s.len() > 0 {
        assert(is_digit(s.last()));
        assert(all_digits(s.drop_last())) by {
            assert forall|i: int| 0 <= i < s.drop_last().len() implies #[trigger] is_digit(
                s.drop_last()[i],
            ) by {
                assert(s.drop_last()[i] == s[i]);
            }
        }
        lemma_digits_value_nonneg(s.drop_last());
    }
}

/// Digits written for `n` read back as `n`.
pub proof fn lemma_dec_digits_roundtrip(n: nat)
    ensures
        digits_value(dec_digits(n)) == n as int,
        all_digits(dec_digits(n)),
        dec_digits(n).len() > 0,
        is_digit(dec_digits(n)[0]),
    decreases n,
{
    assert(digit_char(n % 10) as int == 48 + n % 10);
    if n < 10 {
        let e = seq![digit_char(n)];
        assert(e.drop_last() == Seq::<char>::empty());
        assert(n % 10 == n);
        assert(e.last() == digit_char(n));
        assert(digits_value(e.drop_last()) == 0);
        assert(digits_value(e) == digits_value(e.drop_last()) * 10 + (e.last() as int - 48));
        assert(digits_value(e) == n);
        assert(is_digit(e[0]));
    }
    if n >= 10 {
        lemma_dec_digits_roundtrip(n / 10);
        let d = dec_digits(n / 10);
        let e = d.push(digit_char(n % 10));
        assert(e.drop_last() == d);
        assert(digits_value(e) == digits_value(d) * 10 + (n % 10));
        assert((n / 10) * 10 + n % 10 == n) by (nonlinear_arith);
        assert forall|i: int| 0 <= i < e.len() implies #[trigger] is_digit(e[i]) by {
            if i < d.len() {
                assert(e[i] == d[i]);
            }
        }
        assert(e[0] == d[0]);
    }
}

/// Parses a signed decimal integer the way `str::parse::<i64>` does.
pub fn parse_i64(s: &str) -> (r: Option<i64>)
    ensures
        r == parse_i64_text(s@),
{
    let v = to_chars(s);
    let mut start: usize = 0;
    let mut neg = false;
    if v.len() > 0 && (v[0] == '-' || v[0] == '+') {
        neg = v[0] == '-';
        start = 1;
    }
    let ghost body = if start == 1 {
        v@.drop_first()
    } else {
        v@
    };
    assert(body == v@.skip(start as int));
    if start == v.len() {
        return None;
    }
    let mut acc: u128 = 0;
    let mut i = start;
    assert(body.take(0) == Seq::<char>::empty());
    while i < v.len()
        invariant
            start <= i <= v.len(),
            v@ == s@,
            neg == (s@.len() > 0 && s@[0] == '-'),
            body == (if s@.len() > 0 && (s@[0] == '-' || s@[0] == '+') {
                s@.drop_first()
            } else {
                s@
            }),
            body == v@.skip(start as int),
            acc as int == digits_value(body.take(i - start)),
            acc <= 0x8000_0000_0000_0000,
            all_digits(body.take(i - start)),
        decreases v.len() - i,
    {
        let c = v[i];
        assert(body[i - start] == c);
        if !('0' <= c && c <= '9') {
            assert(!is_digit(body[i - start]));
            assert(!all_digits(body));
            return None;
        }
        proof {
            lemma_digits_value_step(body, i - start);
            assert forall|k: int| 0 <= k < body.take(i - start + 1).len() implies #[trigger] is_digit(
                body.take(i - start + 1)[k],
            ) by {
                if k < i - start {
                    assert(body.take(i - start + 1)[k] == body.take(i - start)[k]);
                }
            }
        }
        acc = acc * 10 + (c as u32 - 48) as u128;
        i += 1;
        if acc > 0x8000_0000_0000_0000 {
            // Too large for any i64, whatever follows.
            proof {
                if all_digits(body) {
                    lemma_digits_value_grows(body, i - start);
                }
            }
            return None;
        }
    }
    assert(body.take(i - start) == body);
    if neg {
        Some((0i128 - acc as i128) as i64)
    } else if acc <= 0x7fff_ffff_ffff_ffff {
        Some(acc as i64)
    } else {
        None
    }
}

/// What is written for a number parses back to that number.
pub proof fn lemma_int_text_roundtrip(n: i64)
    ensures
        parse_i64_text(int_text(n as int)) == Some(n),
{
    if n < 0 {
        let m = (-n) as nat;
        lemma_dec_digits_roundtrip(m);
        let s = int_text(n as int);
        assert(s[0] == '-');
        assert(s.drop_first() == dec_digits(m));
    } else {
        lemma_dec_digits_roundtrip(n as nat);
        let s = int_text(n as int);
        assert(s[0] == dec_digits(n as nat)[0]);
    }
}

} // verus!
