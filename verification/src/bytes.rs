//! Searching, comparing, trimming and copying byte strings.
//!
//! Everything on the wire is a sequence of bytes; the functions here are the
//! small vocabulary in which the parser, the router and the writer are stated.

use vstd::prelude::*;
use vstd::slice::slice_subrange;

verus! {

/// Line feed, the byte that ends a line.
pub const LF: u8 = 10;

/// Carriage return.
pub const CR: u8 = 13;

/// Space, the separator of the request line.
pub const SP: u8 = 32;

/// Colon, which together with a space separates a header's name from its value.
pub const COLON: u8 = 58;

/// The two bytes that end a line on the wire.
pub open spec fn crlf() -> Seq<u8> {
    seq![CR, LF]
}

/// The least index `i >= from` with `s[i] == b`, or `s.len()` where `b` does
/// not occur at or after `from`.
pub open spec fn byte_position_from(s: Seq<u8>, b: u8, from: int) -> int
    decreases s.len() - from,
{
    if from < 0 || from >= s.len() {
        s.len() as int
    } else if s[from] == b {
        from
    } else {
        byte_position_from(s, b, from + 1)
    }
}

/// The index of the first `b` in `s`, or `s.len()` where `s` holds no `b`.
pub open spec fn byte_position(s: Seq<u8>, b: u8) -> int {
    byte_position_from(s, b, 0)
}

/// What `byte_position_from` finds: nothing equal to `b` lies between `from`
/// and the result, and the result is either an index of `b` or the length.
pub proof fn lemma_byte_position_from(s: Seq<u8>, b: u8, from: int)
    requires
        0 <= from <= s.len(),
    ensures
        from <= byte_position_from(s, b, from) <= s.len(),
        forall|j: int| from <= j < byte_position_from(s, b, from) ==> s[j] != b,
        byte_position_from(s, b, from) < s.len() ==> s[byte_position_from(s, b, from)] == b,
    decreases s.len() - from,
{
    if from < s.len() && s[from] != b {
        lemma_byte_position_from(s, b, from + 1);
    }
}

/// `byte_position` is the only index with nothing equal to `b` before it
/// that is an index of `b` or the length.
pub proof fn lemma_byte_position_is(s: Seq<u8>, b: u8, i: int)
    requires
        0 <= i <= s.len(),
        forall|j: int| 0 <= j < i ==> s[j] != b,
        i < s.len() ==> s[i] == b,
    ensures
        byte_position(s, b) == i,
{
    lemma_byte_position_from(s, b, 0);
}

/// Whether the two bytes `first`, `second` stand at the indices `i` and
/// `i + 1` of `s`.
pub open spec fn pair_at(s: Seq<u8>, first: u8, second: u8, i: int) -> bool {
    0 <= i && i + 1 < s.len() && s[i] == first && s[i + 1] == second
}

/// The least index `i >= from` at which the pair `first`, `second` stands in
/// `s`, or `s.len()` where it does not occur at or after `from`.
pub open spec fn pair_position_from(s: Seq<u8>, first: u8, second: u8, from: int) -> int
    decreases s.len() - from,
{
    if from < 0 || from + 1 >= s.len() {
        s.len() as int
    } else if pair_at(s, first, second, from) {
        from
    } else {
        pair_position_from(s, first, second, from + 1)
    }
}

/// The index at which the two bytes `first`, `second` first occur next to
/// each other in `s`, or `s.len()` where they never do.
pub open spec fn pair_position(s: Seq<u8>, first: u8, second: u8) -> int {
    pair_position_from(s, first, second, 0)
}

/// What `pair_position_from` finds.
pub proof fn lemma_pair_position_from(s: Seq<u8>, first: u8, second: u8, from: int)
    requires
        0 <= from <= s.len(),
    ensures
        from <= pair_position_from(s, first, second, from) <= s.len(),
        forall|j: int|
            from <= j < pair_position_from(s, first, second, from) ==> !pair_at(
                s,
                first,
                second,
                j,
            ),
        pair_position_from(s, first, second, from) < s.len() ==> pair_at(
            s,
            first,
            second,
            pair_position_from(s, first, second, from),
        ),
    decreases s.len() - from,
{
    if from + 1 < s.len() && !pair_at(s, first, second, from) {
        lemma_pair_position_from(s, first, second, from + 1);
    }
}

/// `pair_position` is the only index with no occurrence of the pair before
/// it that is an occurrence or the length.
pub proof fn lemma_pair_position_is(s: Seq<u8>, first: u8, second: u8, i: int)
    requires
        0 <= i <= s.len(),
        forall|j: int| 0 <= j < i ==> !pair_at(s, first, second, j),
        i < s.len() ==> pair_at(s, first, second, i),
    ensures
        pair_position(s, first, second) == i,
{
    lemma_pair_position_from(s, first, second, 0);
}

/// The bytes that count as white space at the ends of a header line: space,
/// and the control characters from horizontal tab to carriage return.
pub open spec fn is_space(b: u8) -> bool {
    b == 32 || (9 <= b && b <= 13)
}

/// `s` without the white space at its start.
pub open spec fn trimmed_start(s: Seq<u8>) -> Seq<u8>
    decreases s.len(),
{
    if s.len() > 0 && is_space(s[0]) {
        trimmed_start(s.subrange(1, s.len() as int))
    } else {
        s
    }
}

/// `s` without the white space at its end.
pub open spec fn trimmed_end(s: Seq<u8>) -> Seq<u8>
    decreases s.len(),
{
    if s.len() > 0 && is_space(s[s.len() - 1]) {
        trimmed_end(s.subrange(0, s.len() - 1))
    } else {
        s
    }
}

/// `s` without the white space at either end.
pub open spec fn trimmed(s: Seq<u8>) -> Seq<u8> {
    trimmed_end(trimmed_start(s))
}

/// Whether `a` and `b` hold the same bytes.
pub fn bytes_eq(a: &[u8], b: &[u8]) -> (r: bool)
    ensures
        r == (a@ == b@),
{
    if a.len() != b.len() {
        return false;
    }
    let mut i: usize = 0;
    while i < a.len()
        invariant
            i <= a.len(),
            a.len() == b.len(),
            forall|j: int| 0 <= j < i ==> a@[j] == b@[j],
        decreases a.len() - i,
    {
        if a[i] != b[i] {
            return false;
        }
        i += 1;
    }
    assert(a@ =~= b@);
    true
}

/// Whether `s` begins with `prefix`.
pub fn starts_with(s: &[u8], prefix: &[u8]) -> (r: bool)
    ensures
        r == prefix@.is_prefix_of(s@),
{
    if prefix.len() > s.len() {
        return false;
    }
    bytes_eq(slice_subrange(s, 0, prefix.len()), prefix)
}

/// The index of the first `b` in `s`, or `s.len()` where there is none.
pub fn find_byte(s: &[u8], b: u8) -> (r: usize)
    ensures
        r == byte_position(s@, b),
        r <= s.len(),
{
    let mut i: usize = 0;
    while i < s.len() && s[i] != b
        invariant
            i <= s.len(),
            forall|j: int| 0 <= j < i ==> s@[j] != b,
        decreases s.len() - i,
    {
        i += 1;
    }
    proof {
        lemma_byte_position_is(s@, b, i as int);
    }
    i
}

/// The index at which `first`, `second` first occur next to each other in
/// `s`, or `s.len()` where they never do.
pub fn find_pair(s: &[u8], first: u8, second: u8) -> (r: usize)
    ensures
        r == pair_position(s@, first, second),
        r <= s.len(),
        r < s.len() ==> r + 1 < s.len(),
{
    let mut i: usize = 0;
    while s.len() - i > 1
        invariant
            i <= s.len(),
            forall|j: int| 0 <= j < i ==> !pair_at(s@, first, second, j),
        decreases s.len() - i,
    {
        if s[i] == first && s[i + 1] == second {
            proof {
                lemma_pair_position_is(s@, first, second, i as int);
            }
            return i;
        }
        i += 1;
    }
    proof {
        lemma_pair_position_is(s@, first, second, s.len() as int);
    }
    s.len()
}

/// Whether `b` is white space in the sense of `is_space`.
pub fn byte_is_space(b: u8) -> (r: bool)
    ensures
        r == is_space(b),
{
    b == 32 || (9 <= b && b <= 13)
}

/// The part of `s` that is left when the white space at both ends is taken
/// off.
pub fn trim(s: &[u8]) -> (r: &[u8])
    ensures
        r@ == trimmed(s@),
{
    let mut start: usize = 0;
    assert(s@.subrange(0, s.len() as int) =~= s@);
    while start < s.len() && byte_is_space(s[start])
        invariant
            start <= s.len(),
            trimmed_start(s@) == trimmed_start(s@.subrange(start as int, s.len() as int)),
        decreases s.len() - start,
    {
        proof {
            let rest = s@.subrange(start as int, s.len() as int);
            assert(rest.subrange(1, rest.len() as int) =~= s@.subrange(
                start + 1,
                s.len() as int,
            ));
        }
        start += 1;
    }
    let mut end: usize = s.len();
    while end > start && byte_is_space(s[end - 1])
        invariant
            start <= end <= s.len(),
            trimmed_start(s@) == s@.subrange(start as int, s.len() as int),
            trimmed(s@) == trimmed_end(s@.subrange(start as int, end as int)),
        decreases end - start,
    {
        proof {
            let part = s@.subrange(start as int, end as int);
            assert(part.subrange(0, part.len() - 1) =~= s@.subrange(start as int, end - 1));
        }
        end -= 1;
    }
    slice_subrange(s, start, end)
}

/// Puts the bytes of `src` at the end of `dst`.
pub fn append_bytes(dst: &mut Vec<u8>, src: &[u8])
    ensures
        final(dst)@ == old(dst)@ + src@,
{
    dst.extend_from_slice(src);
    assert(dst@ =~= old(dst)@ + src@);
}

} // verus!
