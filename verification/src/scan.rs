//! Byte-level text scanning primitives.
//!
//! The shader reflection grammar is recognised over the raw bytes of the
//! source text.  This module gives the character classes and the small
//! scanners the grammar is built from, each an executable function proved
//! equal to its specification twin.

use vstd::prelude::*;

verus! {

/// Whitespace: space, tab, line feed, carriage return.
pub open spec fn is_ws(b: u8) -> bool {
    b == 32 || b == 9 || b == 10 || b == 13
}

/// A decimal digit.
pub open spec fn is_digit(b: u8) -> bool {
    48 <= b && b <= 57
}

/// A word byte: letter, digit or underscore (identifiers are made of
/// these).
pub open spec fn is_word_byte(b: u8) -> bool {
    is_digit(b) || (65 <= b && b <= 90) || (97 <= b && b <= 122) || b == 95
}

/// First position at or after `i` holding no whitespace.
pub open spec fn skip_ws(s: Seq<u8>, i: int) -> int
    decreases s.len() - i,
    when 0 <= i <= s.len()
{
    if i < s.len() && is_ws(s[i]) {
        skip_ws(s, i + 1)
    } else {
        i
    }
}

/// First position at or after `i` holding no word byte.
pub open spec fn word_end(s: Seq<u8>, i: int) -> int
    decreases s.len() - i,
    when 0 <= i <= s.len()
{
    if i < s.len() && is_word_byte(s[i]) {
        word_end(s, i + 1)
    } else {
        i
    }
}

/// First position at or after `i` holding no digit.
pub open spec fn digits_end(s: Seq<u8>, i: int) -> int
    decreases s.len() - i,
    when 0 <= i <= s.len()
{
    if i < s.len() && is_digit(s[i]) {
        digits_end(s, i + 1)
    } else {
        i
    }
}

/// First position at or after `i` holding `<` or `;`: the end of an opaque
/// type annotation.
pub open spec fn type_end(s: Seq<u8>, i: int) -> int
    decreases s.len() - i,
    when 0 <= i <= s.len()
{
    if i < s.len() && s[i] != 60 && s[i] != 59 {
        type_end(s, i + 1)
    } else {
        i
    }
}

/// The decimal value of the digits `s[i..j)`.
pub open spec fn digits_value(s: Seq<u8>, i: int, j: int) -> int
    decreases j - i,
    when i <= j
{
    if i >= j {
        0
    } else {
        digits_value(s, i, j - 1) * 10 + (s[j - 1] - 48)
    }
}

/// The literal `lit` occurs in `s` starting at `i`.
pub open spec fn lit_at(s: Seq<u8>, i: int, lit: Seq<u8>) -> bool {
    0 <= i && i + lit.len() <= s.len() && s.subrange(i, i + lit.len() as int) == lit
}

/// `pat` occurs somewhere within `s[from..to)`.
pub open spec fn contains_seq(s: Seq<u8>, from: int, to: int, pat: Seq<u8>) -> bool {
    exists|k: int|
        from <= k && k + pat.len() <= to && #[trigger] s.subrange(k, k + pat.len() as int) == pat
}

/// The digit value of `s[i..j)` never shrinks as the range grows.
pub proof fn lemma_digits_value_bounds(s: Seq<u8>, i: int, j: int)
    requires
        i <= j,
        forall|k: int| i <= k < j ==> is_digit(#[trigger] s[k]),
    ensures
        digits_value(s, i, j) >= 0,
        forall|k: int| i <= k <= j ==> digits_value(s, i, j) >= #[trigger] digits_value(s, i, k),
    decreases j - i,
{
    if i < j {
        lemma_digits_value_bounds(s, i, j - 1);
    }
}

pub(crate) fn byte_is_ws(b: u8) -> (r: bool)
    ensures
        r == is_ws(b),
{
    b == 32 || b == 9 || b == 10 || b == 13
}

pub(crate) fn byte_is_digit(b: u8) -> (r: bool)
    ensures
        r == is_digit(b),
{
    48 <= b && b <= 57
}

pub(crate) fn byte_is_word(b: u8) -> (r: bool)
    ensures
        r == is_word_byte(b),
{
    (48 <= b && b <= 57) || (65 <= b && b <= 90) || (97 <= b && b <= 122) || b == 95
}

pub(crate) fn skip_ws_exec(s: &[u8], i: usize) -> (r: usize)
    requires
        i <= s@.len(),
    ensures
        r == skip_ws(s@, i as int),
        i <= r <= s@.len(),
{
    let mut j = i;
    while j < s.len() && byte_is_ws(s[j])
        invariant
            i <= j <= s@.len(),
            skip_ws(s@, i as int) == skip_ws(s@, j as int),
        decreases s@.len() - j,
    {
        j = j + 1;
    }
    j
}

pub(crate) fn word_end_exec(s: &[u8], i: usize) -> (r: usize)
    requires
        i <= s@.len(),
    ensures
        r == word_end(s@, i as int),
        i <= r <= s@.len(),
{
    let mut j = i;
    while j < s.len() && byte_is_word(s[j])
        invariant
            i <= j <= s@.len(),
            word_end(s@, i as int) == word_end(s@, j as int),
        decreases s@.len() - j,
    {
        j = j + 1;
    }
    j
}

pub(crate) fn digits_end_exec(s: &[u8], i: usize) -> (r: usize)
    requires
        i <= s@.len(),
    ensures
        r == digits_end(s@, i as int),
        i <= r <= s@.len(),
        forall|k: int| i <= k < r ==> is_digit(#[trigger] s@[k]),
{
    let mut j = i;
    while j < s.len() && byte_is_digit(s[j])
        invariant
            i <= j <= s@.len(),
            digits_end(s@, i as int) == digits_end(s@, j as int),
            forall|k: int| i <= k < j ==> is_digit(#[trigger] s@[k]),
        decreases s@.len() - j,
    {
        j = j + 1;
    }
    j
}

pub(crate) fn type_end_exec(s: &[u8], i: usize) -> (r: usize)
    requires
        i <= s@.len(),
    ensures
        r == type_end(s@, i as int),
        i <= r <= s@.len(),
{
    let mut j = i;
    while j < s.len() && s[j] != 60 && s[j] != 59
        invariant
            i <= j <= s@.len(),
            type_end(s@, i as int) == type_end(s@, j as int),
        decreases s@.len() - j,
    {
        j = j + 1;
    }
    j
}

/// Whether the literal occurs at `i`.
pub(crate) fn lit_match(s: &[u8], i: usize, lit: &[u8]) -> (b: bool)
    requires
        i <= s@.len(),
    ensures
        b == lit_at(s@, i as int, lit@),
{
    let n = lit.len();
    let slen = s.len();
    if slen - i < n {
        return false;
    }
    let mut k: usize = 0;
    while k < n
        invariant
            k <= n,
            n == lit@.len(),
            i + n <= slen,
            slen == s@.len(),
            forall|j: int| 0 <= j < k ==> s@[i + j] == lit@[j],
        decreases n - k,
    {
        if s[i + k] != lit[k] {
            proof {
                assert(s@.subrange(i as int, i + n) != lit@) by {
                    assert(s@.subrange(i as int, i + n)[k as int] == s@[i + k]);
                }
            }
            return false;
        }
        k = k + 1;
    }
    proof {
        assert(s@.subrange(i as int, i + n) =~= lit@);
    }
    true
}

/// Whether the literal occurs at `i`, also demanding that the occurrence
/// ends by `to`.
pub(crate) fn lit_match_within(s: &[u8], i: usize, to: usize, lit: &[u8]) -> (b: bool)
    requires
        i <= s@.len(),
        to <= s@.len(),
    ensures
        b == (i + lit@.len() <= to && s@.subrange(i as int, i + lit@.len() as int) == lit@),
{
    if to < i || to - i < lit.len() {
        return false;
    }
    lit_match(s, i, lit)
}

/// Whether `pat` occurs anywhere within `s[from..to)`.
pub(crate) fn contains_seq_exec(s: &[u8], from: usize, to: usize, pat: &[u8]) -> (b: bool)
    requires
        from <= to <= s@.len(),
        pat@.len() >= 1,
    ensures
        b == contains_seq(s@, from as int, to as int, pat@),
{
    let mut k = from;
    while k < to
        invariant
            from <= k <= to <= s@.len(),
            forall|j: int|
                from <= j < k ==> !(j + pat@.len() <= to && #[trigger] s@.subrange(
                    j,
                    j + pat@.len() as int,
                ) == pat@),
        decreases to - k,
    {
        if lit_match_within(s, k, to, pat) {
            proof {
                assert(contains_seq(s@, from as int, to as int, pat@)) by {
                    assert(k + pat@.len() <= to && s@.subrange(k as int, k + pat@.len() as int)
                        == pat@);
                }
            }
            return true;
        }
        k = k + 1;
    }
    proof {
        assert(!contains_seq(s@, from as int, to as int, pat@)) by {
            assert forall|j: int|
                from <= j && j + pat@.len() <= to implies #[trigger] s@.subrange(
                j,
                j + pat@.len() as int,
            ) != pat@ by {
                assert(j < to);
            }
        }
    }
    false
}

/// Parses the digits `s[from..to)` as a 32-bit value; reports when the
/// value is out of range.
pub(crate) fn parse_u32(s: &[u8], from: usize, to: usize) -> (r: Option<u32>)
    requires
        from <= to <= s@.len(),
        forall|k: int| from <= k < to ==> is_digit(#[trigger] s@[k]),
    ensures
        match r {
            Some(v) => v as int == digits_value(s@, from as int, to as int),
            None => digits_value(s@, from as int, to as int) > u32::MAX,
        },
{
    let mut acc: u64 = 0;
    let mut k = from;
    while k < to
        invariant
            from <= k <= to <= s@.len(),
            forall|j: int| from <= j < to ==> is_digit(#[trigger] s@[j]),
            acc as int == digits_value(s@, from as int, k as int),
            acc <= u32::MAX,
        decreases to - k,
    {
        let d = s[k] - 48;
        let next: u64 = acc * 10 + (d as u64);
        if next > u32::MAX as u64 {
            proof {
                lemma_digits_value_bounds(s@, from as int, to as int);
                assert(digits_value(s@, from as int, k + 1) == next);
                assert(digits_value(s@, from as int, to as int) >= digits_value(
                    s@,
                    from as int,
                    k + 1,
                ));
            }
            return None;
        }
        acc = next;
        k = k + 1;
    }
    Some(acc as u32)
}

/// Copies `s[from..to)` out as an owned byte vector.
pub(crate) fn copy_range(s: &[u8], from: usize, to: usize) -> (r: Vec<u8>)
    requires
        from <= to <= s@.len(),
    ensures
        r@ == s@.subrange(from as int, to as int),
{
    vstd::slice::slice_to_vec(vstd::slice::slice_subrange(s, from, to))
}

/// Whether two byte vectors hold the same bytes.
pub(crate) fn bytes_eq(a: &[u8], b: &[u8]) -> (r: bool)
    ensures
        r == (a@ == b@),
{
    if a.len() != b.len() {
        proof {
            assert(a@.len() != b@.len());
        }
        return false;
    }
    let n = a.len();
    let mut k: usize = 0;
    while k < n
        invariant
            k <= n,
            n == a@.len(),
            n == b@.len(),
            forall|j: int| 0 <= j < k ==> a@[j] == b@[j],
        decreases n - k,
    {
        if a[k] != b[k] {
            return false;
        }
        k = k + 1;
    }
    proof {
        assert(a@ =~= b@);
    }
    true
}

} // verus!
