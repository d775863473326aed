//! Unsigned numbers in decimal: writing them out and reading them in.

use vstd::prelude::*;
use vstd::slice::slice_subrange;

verus! {

/// The plus sign that may stand in front of a number.
pub const PLUS: u8 = 43;

/// The ASCII digit for `d`, which is below ten.
pub open spec fn digit_byte(d: nat) -> u8
    recommends
        d < 10,
{
    (48 + d) as u8
}

/// `n` written in decimal, without leading zeros: one digit for a number
/// below ten, else the decimal form of `n / 10` followed by the last digit.
pub open spec fn decimal(n: nat) -> Seq<u8>
    decreases n,
{
    if n < 10 {
        seq![digit_byte(n)]
    } else {
        decimal(n / 10).push(digit_byte(n % 10))
    }
}

/// Whether `b` is one of the ASCII digits.
pub open spec fn is_digit(b: u8) -> bool {
    48 <= b && b <= 57
}

/// Whether `s` holds ASCII digits only.
pub open spec fn all_digits(s: Seq<u8>) -> bool {
    forall|i: int| 0 <= i < s.len() ==> is_digit(#[trigger] s[i])
}

/// The number that the digits `s` denote in decimal; zero for no digits.
pub open spec fn digits_value(s: Seq<u8>) -> nat
    decreases s.len(),
{
    if s.len() == 0 {
        0
    } else {
        digits_value(s.drop_last()) * 10 + (s.last() - 48) as nat
    }
}

/// The digits of `s`: all of it but a plus sign at its start.
pub open spec fn unsigned_digits(s: Seq<u8>) -> Seq<u8> {
    if s.len() > 0 && s[0] == PLUS {
        s.subrange(1, s.len() as int)
    } else {
        s
    }
}

/// The number that `s` denotes as an unsigned decimal of at most 64 bits:
/// an optional plus sign, then one digit or more and nothing else, with a
/// value that fits. `None` for every other `s`.
pub open spec fn unsigned_of(s: Seq<u8>) -> Option<u64> {
    let d = unsigned_digits(s);
    if d.len() > 0 && all_digits(d) && digits_value(d) <= u64::MAX {
        Some(digits_value(d) as u64)
    } else {
        None
    }
}

/// A number is no smaller than the number that a prefix of its digits
/// denotes.
pub proof fn lemma_digits_value_prefix(s: Seq<u8>, i: int)
    requires
        all_digits(s),
        0 <= i <= s.len(),
    ensures
        digits_value(s.take(i)) <= digits_value(s),
    decreases s.len(),
{
    if i == s.len() {
        assert(s.take(i) =~= s);
    } else {
        assert(s.drop_last().take(i) =~= s.take(i));
        assert(is_digit(s.last()));
        lemma_digits_value_prefix(s.drop_last(), i);
    }
}

/// Puts `n`, written in decimal, at the end of `dst`.
pub fn append_decimal(dst: &mut Vec<u8>, n: u64)
    ensures
        final(dst)@ == old(dst)@ + decimal(n as nat),
    decreases n,
{
    if n >= 10 {
        append_decimal(dst, n / 10);
    }
    dst.push(48 + (n % 10) as u8);
    assert(dst@ =~= old(dst)@ + decimal(n as nat));
}

/// Reads `s` as an unsigned decimal number.
pub fn parse_unsigned(s: &[u8]) -> (r: Option<u64>)
    ensures
        r == unsigned_of(s@),
{
    let start: usize = if s.len() > 0 && s[0] == PLUS { 1 } else { 0 };
    let d = slice_subrange(s, start, s.len());
    if d.len() == 0 {
        return None;
    }
    let mut value: u64 = 0;
    let mut i: usize = 0;
    assert(d@.take(0) =~= Seq::<u8>::empty());
    while i < d.len()
        invariant
            i <= d.len(),
            d@ == unsigned_digits(s@),
            d@.len() > 0,
            all_digits(d@.take(i as int)),
            value == digits_value(d@.take(i as int)),
        decreases d.len() - i,
    {
        let b = d[i];
        proof {
            assert(d@.take(i + 1).drop_last() =~= d@.take(i as int));
            assert(d@.take(i + 1).last() == b);
        }
        if b < 48 || b > 57 {
            assert(!is_digit(d@[i as int]));
            return None;
        }
        let ghost next = digits_value(d@.take(i + 1));
        assert(next == value * 10 + (b - 48));
        if value > (u64::MAX - (b - 48) as u64) / 10 {
            proof {
                assert(next > u64::MAX);
                if all_digits(d@) {
                    lemma_digits_value_prefix(d@, i + 1);
                }
            }
            return None;
        }
        assert forall|j: int| 0 <= j < i + 1 implies is_digit(#[trigger] d@.take(i + 1)[j]) by {
            if j < i {
                assert(d@.take(i as int)[j] == d@[j]);
            }
        }
        value = value * 10 + (b - 48) as u64;
        i += 1;
    }
    assert(d@.take(d.len() as int) =~= d@);
    Some(value)
}

} // verus!
