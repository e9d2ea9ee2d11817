//! How the words of a text follow from the words of its parts.

use vstd::prelude::*;
use crate::text::{is_space, skip_spaces, word_end, words, words_from};

verus! {

/// A word: one or more bytes, none of them a separator.
pub open spec fn is_word(w: Seq<u8>) -> bool {
    w.len() > 0 && forall|k: int| 0 <= k < w.len() ==> !is_space(#[trigger] w[k])
}

/// A text that is empty or ends with a separator.
pub open spec fn closed(t: Seq<u8>) -> bool {
    t.len() == 0 || is_space(t.last())
}

/// The text `t` ends no word half way and its words are `ws`.
pub open spec fn spells(t: Seq<u8>, ws: Seq<Seq<u8>>) -> bool {
    closed(t) && words(t) == ws
}

/// Skipping separators stays inside the text and stops at none.
pub proof fn lemma_skip_spaces_bounds(s: Seq<u8>, i: int)
    requires
        0 <= i <= s.len(),
    ensures
        i <= skip_spaces(s, i) <= s.len(),
        skip_spaces(s, i) < s.len() ==> !is_space(s[skip_spaces(s, i)]),
    decreases s.len() - i,
{
    if i < s.len() && is_space(s[i]) {
        lemma_skip_spaces_bounds(s, i + 1);
    }
}

/// A word ends inside the text, and behind its first byte.
pub proof fn lemma_word_end_bounds(s: Seq<u8>, i: int)
    requires
        0 <= i <= s.len(),
    ensures
        i <= word_end(s, i) <= s.len(),
        i < s.len() && !is_space(s[i]) ==> i < word_end(s, i),
    decreases s.len() - i,
{
    if i < s.len() && !is_space(s[i]) {
        lemma_word_end_bounds(s, i + 1);
    }
}

/// Before the end of `a`, skipping separators in `a + b` goes as in `a`.
pub proof fn lemma_skip_spaces_prefix(a: Seq<u8>, b: Seq<u8>, i: int)
    requires
        0 <= i <= a.len(),
    ensures
        skip_spaces(a, i) < a.len() ==> skip_spaces(a + b, i) == skip_spaces(a, i),
        skip_spaces(a, i) >= a.len() ==> skip_spaces(a + b, i) == skip_spaces(
            a + b,
            a.len() as int,
        ),
    decreases a.len() - i,
{
    if i < a.len() {
        assert((a + b)[i] == a[i]);
        if is_space(a[i]) {
            lemma_skip_spaces_prefix(a, b, i + 1);
        }
    }
}

/// A word that ends inside `a` ends at the same place in `a + b`.
pub proof fn lemma_word_end_prefix(a: Seq<u8>, b: Seq<u8>, i: int)
    requires
        0 <= i <= a.len(),
    ensures
        word_end(a, i) < a.len() ==> word_end(a + b, i) == word_end(a, i),
    decreases a.len() - i,
{
    if i < a.len() {
        assert((a + b)[i] == a[i]);
        if !is_space(a[i]) {
            lemma_word_end_prefix(a, b, i + 1);
        }
    }
}

/// Behind `a`, skipping separators in `a + b` goes as in `b`.
pub proof fn lemma_skip_spaces_shift(a: Seq<u8>, b: Seq<u8>, k: int)
    requires
        0 <= k <= b.len(),
    ensures
        skip_spaces(a + b, a.len() + k) == a.len() + skip_spaces(b, k),
    decreases b.len() - k,
{
    if k < b.len() {
        assert((a + b)[a.len() + k] == b[k]);
        if is_space(b[k]) {
            lemma_skip_spaces_shift(a, b, k + 1);
        }
    }
}

/// Behind `a`, a word of `a + b` ends as in `b`.
pub proof fn lemma_word_end_shift(a: Seq<u8>, b: Seq<u8>, k: int)
    requires
        0 <= k <= b.len(),
    ensures
        word_end(a + b, a.len() + k) == a.len() + word_end(b, k),
    decreases b.len() - k,
{
    if k < b.len() {
        assert((a + b)[a.len() + k] == b[k]);
        if !is_space(b[k]) {
            lemma_word_end_shift(a, b, k + 1);
        }
    }
}

/// Behind `a`, the words of `a + b` are those of `b`.
pub proof fn lemma_words_shift(a: Seq<u8>, b: Seq<u8>, k: int)
    requires
        0 <= k <= b.len(),
    ensures
        words_from(a + b, a.len() + k) == words_from(b, k),
    decreases b.len() - k,
{
    let p = skip_spaces(b, k);
    lemma_skip_spaces_bounds(b, k);
    lemma_skip_spaces_shift(a, b, k);
    let e = word_end(b, p);
    lemma_word_end_bounds(b, p);
    lemma_word_end_shift(a, b, p);
    if p < e {
        lemma_words_shift(a, b, e);
        assert((a + b).subrange(a.len() + p, a.len() + e) =~= b.subrange(p, e));
    }
}

/// In a closed text every word ends before the text does.
pub proof fn lemma_word_end_closed(a: Seq<u8>, i: int)
    requires
        closed(a),
        0 <= i < a.len(),
    ensures
        word_end(a, i) < a.len(),
    decreases a.len() - i,
{
    if !is_space(a[i]) {
        lemma_word_end_closed(a, i + 1);
    }
}

/// The words of a closed text from `i` on, followed by those of `b`, are the
/// words of `a + b` from `i` on.
pub proof fn lemma_words_from_concat(a: Seq<u8>, b: Seq<u8>, i: int)
    requires
        closed(a),
        0 <= i <= a.len(),
    ensures
        words_from(a + b, i) == words_from(a, i) + words_from(b, 0),
    decreases a.len() - i,
{
    let n = a.len() as int;
    let p = skip_spaces(a, i);
    lemma_skip_spaces_bounds(a, i);
    lemma_skip_spaces_prefix(a, b, i);
    if p < n {
        lemma_word_end_closed(a, p);
        lemma_word_end_bounds(a, p);
        lemma_word_end_prefix(a, b, p);
        let e = word_end(a, p);
        lemma_words_from_concat(a, b, e);
        assert((a + b).subrange(p, e) =~= a.subrange(p, e));
        assert(words_from(a, i) == seq![a.subrange(p, e)] + words_from(a, e));
        assert(words_from(a + b, i) == seq![a.subrange(p, e)] + words_from(a + b, e));
        assert(words_from(a + b, i) =~= words_from(a, i) + words_from(b, 0));
    } else {
        lemma_word_end_bounds(a, p);
        assert(words_from(a, i) =~= Seq::<Seq<u8>>::empty());
        lemma_skip_spaces_shift(a, b, 0);
        lemma_skip_spaces_bounds(b, 0);
        assert(skip_spaces(a + b, i) == skip_spaces(a + b, n));
        assert(words_from(a + b, i) == words_from(a + b, n));
        lemma_words_shift(a, b, 0);
        assert(words_from(a + b, i) =~= words_from(a, i) + words_from(b, 0));
    }
}

/// Two closed texts, one after the other, spell the words of both.
pub proof fn lemma_spells_concat(a: Seq<u8>, x: Seq<Seq<u8>>, b: Seq<u8>, y: Seq<Seq<u8>>)
    requires
        spells(a, x),
        spells(b, y),
    ensures
        spells(a + b, x + y),
{
    lemma_words_from_concat(a, b, 0);
    if b.len() == 0 {
        assert(a + b =~= a);
    } else {
        assert((a + b).last() == b.last());
    }
}

/// The empty text spells no word.
pub proof fn lemma_spells_nothing()
    ensures
        spells(Seq::<u8>::empty(), Seq::<Seq<u8>>::empty()),
{
    assert(words_from(Seq::<u8>::empty(), 0) =~= Seq::<Seq<u8>>::empty());
}

/// A run of `n` bytes that are no separators, with a separator or the end
/// of the text behind it, is one word.
pub proof fn lemma_word_end_of_word(t: Seq<u8>, n: int, i: int)
    requires
        0 <= i <= n <= t.len(),
        forall|k: int| 0 <= k < n ==> !is_space(#[trigger] t[k]),
        n == t.len() || is_space(t[n]),
    ensures
        word_end(t, i) == n,
    decreases n - i,
{
    if i < n {
        lemma_word_end_of_word(t, n, i + 1);
    }
}

/// A word and one separator behind it spell that word.
pub proof fn lemma_spells_word(w: Seq<u8>, sep: u8)
    requires
        is_word(w),
        is_space(sep),
    ensures
        spells(w + seq![sep], seq![w]),
{
    let t = w + seq![sep];
    let n = w.len() as int;
    assert(t.last() == sep);
    assert forall|k: int| 0 <= k < n implies !is_space(#[trigger] t[k]) by {
        assert(t[k] == w[k]);
    }
    assert(t[n] == sep);
    lemma_word_end_of_word(t, n, 0);
    assert(!is_space(t[0]));
    assert(skip_spaces(t, 0) == 0);
    assert(t.subrange(0, n) =~= w);
    assert(skip_spaces(t, n + 1) == n + 1);
    assert(skip_spaces(t, n) == n + 1);
    assert(word_end(t, n + 1) == n + 1);
    assert(words_from(t, n) =~= Seq::<Seq<u8>>::empty());
    assert(words_from(t, 0) =~= seq![w]);
}

} // verus!
