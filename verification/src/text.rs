//! Bytes, words and literals: the lexical layer of a BVH document.

use vstd::prelude::*;
use crate::ascii::{CARRIAGE_RETURN, LINE_FEED, SPACE, TAB};
use vstd::slice::slice_subrange;

verus! {

/// A half-open range of byte positions in a document: one word.
#[derive(Clone, Copy, Debug, PartialEq, Eq)]
pub struct Span {
    pub start: usize,
    pub end: usize,
}

/// The bytes that separate words: space, tab, line feed, carriage return.
pub open spec fn is_space(b: u8) -> bool {
    b == SPACE || b == TAB || b == LINE_FEED || b == CARRIAGE_RETURN
}

/// The first position at or after `i` that holds no separator.
pub open spec fn skip_spaces(s: Seq<u8>, i: int) -> int
    decreases s.len() - i,
{
    if 0 <= i < s.len() && is_space(s[i]) {
        skip_spaces(s, i + 1)
    } else {
        i
    }
}

/// The first position at or after `i` that holds a separator or ends the text.
pub open spec fn word_end(s: Seq<u8>, i: int) -> int
    decreases s.len() - i,
{
    if 0 <= i < s.len() && !is_space(s[i]) {
        word_end(s, i + 1)
    } else {
        i
    }
}

/// The words of `s` that start at or after position `i`, in order.
pub open spec fn words_from(s: Seq<u8>, i: int) -> Seq<Seq<u8>>
    decreases s.len() - i,
{
    let a = skip_spaces(s, i);
    let b = word_end(s, a);
    if 0 <= i <= a && a < b && b <= s.len() {
        seq![s.subrange(a, b)] + words_from(s, b)
    } else {
        Seq::empty()
    }
}

/// The places where the words of `s` begin that start at or after `i`.
pub open spec fn starts_from(s: Seq<u8>, i: int) -> Seq<int>
    decreases s.len() - i,
{
    let a = skip_spaces(s, i);
    let b = word_end(s, a);
    if 0 <= i <= a && a < b && b <= s.len() {
        seq![a] + starts_from(s, b)
    } else {
        Seq::empty()
    }
}

/// Where the word at place `k` of a document begins, counted in bytes; the
/// length of the document where it has no such word.
pub open spec fn word_offset(s: Seq<u8>, k: int) -> int {
    if 0 <= k < starts_from(s, 0).len() {
        starts_from(s, 0)[k]
    } else {
        s.len() as int
    }
}

/// Where the spans begin.
pub open spec fn span_starts(spans: Seq<Span>) -> Seq<int> {
    Seq::new(spans.len(), |k: int| spans[k].start as int)
}

/// The words of a document: its maximal runs of bytes that are no separators.
pub open spec fn words(s: Seq<u8>) -> Seq<Seq<u8>> {
    words_from(s, 0)
}

/// Every span lies inside a text of length `len`.
pub open spec fn spans_within(spans: Seq<Span>, len: int) -> bool {
    forall|k: int| 0 <= k < spans.len() ==> (#[trigger] spans[k]).start <= spans[k].end <= len
}

/// The pieces of `s` that the spans cut out.
pub open spec fn span_words(s: Seq<u8>, spans: Seq<Span>) -> Seq<Seq<u8>> {
    Seq::new(spans.len(), |k: int| s.subrange(spans[k].start as int, spans[k].end as int))
}

/// Whether a byte separates words.
pub fn is_space_byte(b: u8) -> (r: bool)
    ensures
        r == is_space(b),
{
    b == SPACE || b == TAB || b == LINE_FEED || b == CARRIAGE_RETURN
}

/// Splits a document into its words, each given by its place in the text.
pub fn split_words(bytes: &[u8]) -> (spans: Vec<Span>)
    ensures
        spans_within(spans@, bytes@.len() as int),
        span_words(bytes@, spans@) == words(bytes@),
        span_starts(spans@) == starts_from(bytes@, 0),
{
    let mut spans: Vec<Span> = Vec::new();
    let n: usize = bytes.len();
    let mut i: usize = 0;
    loop
        invariant
            n == bytes@.len(),
            i <= n,
            spans_within(spans@, n as int),
            words(bytes@) =~= span_words(bytes@, spans@) + words_from(bytes@, i as int),
            starts_from(bytes@, 0) =~= span_starts(spans@) + starts_from(bytes@, i as int),
        ensures
            span_words(bytes@, spans@) == words(bytes@),
            span_starts(spans@) == starts_from(bytes@, 0),
            spans_within(spans@, n as int),
        decreases n - i,
    {
        let ghost i0: int = i as int;
        let mut a: usize = i;
        while a < n && is_space_byte(bytes[a])
            invariant
                n == bytes@.len(),
                i <= a <= n,
                skip_spaces(bytes@, i as int) == skip_spaces(bytes@, a as int),
            decreases n - a,
        {
            a = a + 1;
        }
        let mut b: usize = a;
        while b < n && !is_space_byte(bytes[b])
            invariant
                n == bytes@.len(),
                a <= b <= n,
                word_end(bytes@, a as int) == word_end(bytes@, b as int),
            decreases n - b,
        {
            b = b + 1;
        }
        if a == b {
            proof {
                assert(words_from(bytes@, i0) =~= Seq::<Seq<u8>>::empty());
                assert(words(bytes@) =~= span_words(bytes@, spans@));
                assert(starts_from(bytes@, i0) =~= Seq::<int>::empty());
                assert(starts_from(bytes@, 0) =~= span_starts(spans@));
            }
            break;
        }
        let ghost before = spans@;
        spans.push(Span { start: a, end: b });
        proof {
            assert(words_from(bytes@, i0) =~= seq![bytes@.subrange(a as int, b as int)]
                + words_from(bytes@, b as int));
            assert(span_words(bytes@, spans@) =~= span_words(bytes@, before)
                + seq![bytes@.subrange(a as int, b as int)]);
            assert(starts_from(bytes@, i0) =~= seq![a as int] + starts_from(bytes@, b as int));
            assert(span_starts(spans@) =~= span_starts(before) + seq![a as int]);
        }
        i = b;
    }
    spans
}

/// The word that a span cuts out of the document.
pub fn word_at<'a>(bytes: &'a [u8], spans: &Vec<Span>, k: usize) -> (w: &'a [u8])
    requires
        spans_within(spans@, bytes@.len() as int),
        k < spans@.len(),
    ensures
        w@ == span_words(bytes@, spans@)[k as int],
{
    slice_subrange(bytes, spans[k].start, spans[k].end)
}

/// Finds where the word at place `position` begins, counted in bytes from
/// the beginning of the document: the place in the text of what a
/// `ParseError` speaks of.
pub fn locate(bytes: &[u8], position: usize) -> (offset: usize)
    ensures
        offset == word_offset(bytes@, position as int),
{
    let spans = split_words(bytes);
    if position < spans.len() {
        assert(span_starts(spans@)[position as int] == spans@[position as int].start);
        spans[position].start
    } else {
        bytes.len()
    }
}

} // verus!
