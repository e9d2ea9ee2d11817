//! The words a BVH document is made of: keywords, channel names, joint
//! names, counts and decimal numbers.

use vstd::prelude::*;
use crate::ascii::{COLON, DIGIT_0, DIGIT_9, LOWER_A, LOWER_E, LOWER_Z, MINUS, PLUS, POINT, UNDERSCORE, UPPER_A, UPPER_E, UPPER_Z};

verus! {

/// The ten digits.
pub open spec fn is_digit(b: u8) -> bool {
    DIGIT_0 <= b <= DIGIT_9
}

/// Plus and minus.
pub open spec fn is_sign(b: u8) -> bool {
    b == PLUS || b == MINUS
}

/// The bytes a joint name may hold: letters, digits and `_ - . :`.
pub open spec fn is_name_byte(b: u8) -> bool {
    (LOWER_A <= b <= LOWER_Z) || (UPPER_A <= b <= UPPER_Z) || is_digit(b) || b == UNDERSCORE || b == MINUS || b
        == POINT || b == COLON
}

/// A joint name: one or more name bytes.
pub open spec fn is_name(w: Seq<u8>) -> bool {
    w.len() > 0 && forall|k: int| 0 <= k < w.len() ==> is_name_byte(#[trigger] w[k])
}

/// The first position at or after `i` that holds no digit.
pub open spec fn digits_end(s: Seq<u8>, i: int) -> int
    decreases s.len() - i,
{
    if 0 <= i < s.len() && is_digit(s[i]) {
        digits_end(s, i + 1)
    } else {
        i
    }
}

/// A count: one or more digits.
pub open spec fn is_count(w: Seq<u8>) -> bool {
    w.len() > 0 && digits_end(w, 0) == w.len()
}

/// The number that a run of digits denotes, read in base ten.
pub open spec fn digits_value(w: Seq<u8>) -> nat
    decreases w.len(),
{
    if w.len() == 0 {
        0
    } else {
        (digits_value(w.drop_last()) * 10 + (w.last() - DIGIT_0)) as nat
    }
}

/// The shortest base-ten rendering of `n`.
pub open spec fn decimal(n: nat) -> Seq<u8>
    decreases n,
{
    if n < 10 {
        seq![(DIGIT_0 + n) as u8]
    } else {
        decimal(n / 10).push((DIGIT_0 + n % 10) as u8)
    }
}

/// A decimal number: an optional sign, digits with at most one point among
/// them and at least one digit, and an optional exponent (`e` or `E`, an
/// optional sign, one or more digits).
pub open spec fn is_number(s: Seq<u8>) -> bool {
    let a: int = if s.len() > 0 && is_sign(s[0]) { 1 } else { 0 };
    let b = digits_end(s, a);
    let c = if b < s.len() && s[b] == POINT { digits_end(s, b + 1) } else { b };
    let mantissa_digits = (b - a) + (if c > b { c - b - 1 } else { 0 });
    let f = if c + 1 < s.len() && is_sign(s[c + 1]) { c + 2 } else { c + 1 };
    let g = digits_end(s, f);
    let end = if c < s.len() && (s[c] == LOWER_E || s[c] == UPPER_E) { if g > f { g } else { -1 } } else { c };
    mantissa_digits > 0 && end == s.len()
}

/// Whether a byte is a digit.
pub fn is_digit_byte(b: u8) -> (r: bool)
    ensures
        r == is_digit(b),
{
    DIGIT_0 <= b && b <= DIGIT_9
}

/// Whether a byte is a plus or a minus.
pub fn is_sign_byte(b: u8) -> (r: bool)
    ensures
        r == is_sign(b),
{
    b == PLUS || b == MINUS
}

/// Whether two byte strings are the same.
pub fn same_bytes(a: &[u8], b: &[u8]) -> (r: bool)
    ensures
        r == (a@ == b@),
{
    if a.len() != b.len() {
        return false;
    }
    let mut i: usize = 0;
    while i < a.len()
        invariant
            a@.len() == b@.len(),
            i <= a@.len(),
            forall|k: int| 0 <= k < i ==> a@[k] == b@[k],
        decreases a@.len() - i,
    {
        if a[i] != b[i] {
            return false;
        }
        i = i + 1;
    }
    assert(a@ =~= b@);
    true
}

/// Whether a word is a joint name.
pub fn check_name(w: &[u8]) -> (r: bool)
    ensures
        r == is_name(w@),
{
    if w.len() == 0 {
        return false;
    }
    let mut i: usize = 0;
    while i < w.len()
        invariant
            i <= w@.len(),
            forall|k: int| 0 <= k < i ==> is_name_byte(#[trigger] w@[k]),
        decreases w@.len() - i,
    {
        let b: u8 = w[i];
        let ok = (LOWER_A <= b && b <= LOWER_Z) || (UPPER_A <= b && b <= UPPER_Z) || is_digit_byte(b) || b
            == UNDERSCORE || b == MINUS || b == POINT || b == COLON;
        if !ok {
            return false;
        }
        i = i + 1;
    }
    true
}

/// Walks over the digits that start at `i`.
pub fn scan_digits(w: &[u8], i: usize) -> (r: usize)
    requires
        i <= w@.len(),
    ensures
        r == digits_end(w@, i as int),
        i <= r <= w@.len(),
{
    let mut j: usize = i;
    while j < w.len() && is_digit_byte(w[j])
        invariant
            i <= j <= w@.len(),
            digits_end(w@, i as int) == digits_end(w@, j as int),
        decreases w@.len() - j,
    {
        j = j + 1;
    }
    j
}

/// Whether a word is a count.
pub fn check_count(w: &[u8]) -> (r: bool)
    ensures
        r == is_count(w@),
{
    w.len() > 0 && scan_digits(w, 0) == w.len()
}

/// Whether a word is a decimal number.
pub fn check_number(w: &[u8]) -> (r: bool)
    ensures
        r == is_number(w@),
{
    let n: usize = w.len();
    let a: usize = if n > 0 && is_sign_byte(w[0]) { 1 } else { 0 };
    let b: usize = scan_digits(w, a);
    let c: usize = if b < n && w[b] == POINT { scan_digits(w, b + 1) } else { b };
    let mantissa_digits: usize = (b - a) + (if c > b { c - b - 1 } else { 0 });
    if mantissa_digits == 0 {
        return false;
    }
    if c < n && (w[c] == LOWER_E || w[c] == UPPER_E) {
        let f: usize = if c + 1 < n && is_sign_byte(w[c + 1]) { c + 2 } else { c + 1 };
        let g: usize = scan_digits(w, f);
        g > f && g == n
    } else {
        c == n
    }
}

/// A longer run of digits denotes no smaller number than its beginning.
pub proof fn lemma_digits_value_grows(w: Seq<u8>, i: int, j: int)
    requires
        0 <= i <= j <= w.len(),
        forall|k: int| 0 <= k < w.len() ==> is_digit(#[trigger] w[k]),
    ensures
        digits_value(w.subrange(0, i)) <= digits_value(w.subrange(0, j)),
    decreases j - i,
{
    if i < j {
        lemma_digits_value_grows(w, i, j - 1);
        assert(w.subrange(0, j).drop_last() =~= w.subrange(0, j - 1));
    }
}

/// A count is made of digits only.
pub proof fn lemma_count_digits(w: Seq<u8>, i: int)
    requires
        0 <= i <= w.len(),
        digits_end(w, i) == w.len(),
    ensures
        forall|k: int| i <= k < w.len() ==> is_digit(#[trigger] w[k]),
    decreases w.len() - i,
{
    if i < w.len() {
        lemma_count_digits(w, i + 1);
    }
}

/// Reads a count as a 32-bit number; `None` where it does not fit.
pub fn read_u32(w: &[u8]) -> (r: Option<u32>)
    requires
        is_count(w@),
    ensures
        r == (if digits_value(w@) <= u32::MAX {
            Some(digits_value(w@) as u32)
        } else {
            None
        }),
{
    proof {
        lemma_count_digits(w@, 0);
    }
    let mut acc: u64 = 0;
    let mut i: usize = 0;
    while i < w.len()
        invariant
            i <= w@.len(),
            forall|k: int| 0 <= k < w@.len() ==> is_digit(#[trigger] w@[k]),
            acc == digits_value(w@.subrange(0, i as int)),
            acc <= u32::MAX,
        decreases w@.len() - i,
    {
        let d: u64 = (w[i] - DIGIT_0) as u64;
        let next: u64 = acc * 10 + d;
        proof {
            assert(w@.subrange(0, i + 1).drop_last() =~= w@.subrange(0, i as int));
            assert(next == digits_value(w@.subrange(0, i + 1)));
        }
        if next > 0xffff_ffff {
            proof {
                lemma_digits_value_grows(w@, i + 1, w@.len() as int);
                assert(w@.subrange(0, w@.len() as int) =~= w@);
            }
            return None;
        }
        acc = next;
        i = i + 1;
    }
    assert(w@.subrange(0, i as int) =~= w@);
    Some(acc as u32)
}

/// Appends the bytes of `src` to `out`.
pub fn push_all(out: &mut Vec<u8>, src: &[u8])
    ensures
        final(out)@ == old(out)@ + src@,
{
    let mut i: usize = 0;
    while i < src.len()
        invariant
            i <= src@.len(),
            out@ == old(out)@ + src@.subrange(0, i as int),
        decreases src@.len() - i,
    {
        out.push(src[i]);
        assert(out@ =~= old(out)@ + src@.subrange(0, i + 1));
        i = i + 1;
    }
    assert(src@.subrange(0, i as int) =~= src@);
}

/// Appends the base-ten rendering of `n` to `out`.
pub fn push_decimal(out: &mut Vec<u8>, n: u64)
    ensures
        final(out)@ == old(out)@ + decimal(n as nat),
    decreases n,
{
    if n >= 10 {
        push_decimal(out, n / 10);
    }
    let d: u8 = (n % 10) as u8;
    out.push(DIGIT_0 + d);
    assert(out@ =~= old(out)@ + decimal(n as nat));
}

} // verus!
