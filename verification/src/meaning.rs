//! Cutting a raw meaning at its first cross-reference marker.
//!
//! A marker is an opening parenthesis followed by `=`, by a rightwards arrow or by a
//! left-right arrow. What a meaning says from its first marker on is an annotation and is
//! dropped; what is left is trimmed.

use vstd::prelude::*;
use vstd::string::StrSliceExecFns;
use crate::text::{
    chars_of, is_trimmed, lemma_trimmed_bounds, lemma_trimmed_fixed, trim_bounds, trimmed,
};

verus! {

/// What follows `(` in the marker that names an equivalent.
pub const EQUIVALENT: char = '=';

/// What follows `(` in the marker that points to another entry: U+2192.
pub const SEE: char = '\u{2192}';

/// What follows `(` in the marker that names an opposite: U+2194.
pub const OPPOSITE: char = '\u{2194}';

/// At index `i` of `s` stands `(`, and right after it `tail`.
pub open spec fn pair_at(s: Seq<char>, tail: char, i: int) -> bool {
    0 <= i && i + 1 < s.len() && s[i] == '(' && s[i + 1] == tail
}

/// A marker starts at index `i` of `s`.
pub open spec fn marker_at(s: Seq<char>, i: int) -> bool {
    pair_at(s, EQUIVALENT, i) || pair_at(s, SEE, i) || pair_at(s, OPPOSITE, i)
}

/// The least index from `i` on at which a marker starts, or the length of `s`.
pub open spec fn marker_from(s: Seq<char>, i: int) -> int
    decreases s.len() - i,
{
    if i < 0 || i >= s.len() {
        s.len() as int
    } else if marker_at(s, i) {
        i
    } else {
        marker_from(s, i + 1)
    }
}

/// Where `s` is cut: the start of its first marker, or its length where it holds none.
pub open spec fn cut_point(s: Seq<char>) -> int {
    marker_from(s, 0)
}

/// `s` holds no marker.
pub open spec fn marker_free(s: Seq<char>) -> bool {
    forall|i: int| !marker_at(s, i)
}

/// The meaning that `s` states: what stands before its first marker, trimmed.
pub open spec fn truncated(s: Seq<char>) -> Seq<char> {
    trimmed(s.take(cut_point(s)))
}

/// The least index from `i` on at which `(` is followed by `tail`, or the length of `s`.
pub open spec fn pair_from(s: Seq<char>, tail: char, i: int) -> int
    decreases s.len() - i,
{
    if i < 0 || i >= s.len() {
        s.len() as int
    } else if pair_at(s, tail, i) {
        i
    } else {
        pair_from(s, tail, i + 1)
    }
}

/// `s` up to the first `(` that `tail` follows; all of `s` where there is none.
pub open spec fn cut_before(s: Seq<char>, tail: char) -> Seq<char> {
    s.take(pair_from(s, tail, 0))
}

/// `marker_from` finds the first marker: none starts between `i` and what it returns.
pub proof fn lemma_marker_from(s: Seq<char>, i: int)
    requires
        0 <= i <= s.len(),
    ensures
        i <= marker_from(s, i) <= s.len(),
        marker_from(s, i) < s.len() ==> marker_at(s, marker_from(s, i)),
        forall|j: int| i <= j < marker_from(s, i) ==> !marker_at(s, j),
    decreases s.len() - i,
{
    if i < s.len() && !marker_at(s, i) {
        lemma_marker_from(s, i + 1);
    }
}

/// An index with no marker between `i` and it, which starts a marker or ends the text, is
/// what `marker_from` returns.
pub proof fn lemma_marker_found(s: Seq<char>, i: int, n: int)
    requires
        0 <= i <= n <= s.len(),
        n < s.len() ==> marker_at(s, n),
        forall|j: int| i <= j < n ==> !marker_at(s, j),
    ensures
        marker_from(s, i) == n,
    decreases n - i,
{
    if i < n {
        lemma_marker_found(s, i + 1, n);
    }
}

/// `pair_from` finds the first `(` that `tail` follows.
pub proof fn lemma_pair_from(s: Seq<char>, tail: char, i: int)
    requires
        0 <= i <= s.len(),
    ensures
        i <= pair_from(s, tail, i) <= s.len(),
        pair_from(s, tail, i) < s.len() ==> pair_at(s, tail, pair_from(s, tail, i)),
        forall|j: int| i <= j < pair_from(s, tail, i) ==> !pair_at(s, tail, j),
    decreases s.len() - i,
{
    if i < s.len() && !pair_at(s, tail, i) {
        lemma_pair_from(s, tail, i + 1);
    }
}

/// The cut falls at the earliest marker, whichever of the three it is: cutting before the
/// first equivalent, then before the first pointer in what is left, then before the first
/// opposite in what is left of that, keeps the same text.
pub proof fn lemma_cut_in_priority_order(s: Seq<char>)
    ensures
        s.take(cut_point(s)) == cut_before(
            cut_before(cut_before(s, EQUIVALENT), SEE),
            OPPOSITE,
        ),
{
    lemma_pair_from(s, EQUIVALENT, 0);
    let n1 = pair_from(s, EQUIVALENT, 0);
    let s1 = s.take(n1);
    lemma_pair_from(s1, SEE, 0);
    let n2 = pair_from(s1, SEE, 0);
    let s2 = s1.take(n2);
    lemma_pair_from(s2, OPPOSITE, 0);
    let n3 = pair_from(s2, OPPOSITE, 0);
    assert forall|j: int| 0 <= j < n3 implies !marker_at(s, j) by {
        if pair_at(s, SEE, j) {
            assert(pair_at(s1, SEE, j));
        }
        if pair_at(s, OPPOSITE, j) {
            assert(pair_at(s2, OPPOSITE, j));
        }
    }
    if n3 < n2 {
        assert(pair_at(s2, OPPOSITE, n3));
    } else if n2 < n1 {
        assert(pair_at(s1, SEE, n2));
    } else if n1 < s.len() {
        assert(pair_at(s, EQUIVALENT, n1));
    }
    lemma_marker_found(s, 0, n3);
    assert(s2.take(n3) =~= s.take(n3));
}

/// What is left of a meaning holds no marker.
pub proof fn lemma_truncated_is_marker_free(s: Seq<char>)
    ensures
        marker_free(truncated(s)),
{
    lemma_marker_from(s, 0);
    let head = s.take(cut_point(s));
    let (a, b) = lemma_trimmed_bounds(head);
    assert forall|i: int| !marker_at(truncated(s), i) by {
        if marker_at(truncated(s), i) {
            assert(marker_at(s, a + i));
        }
    }
}

/// Cutting a meaning a second time changes nothing.
pub proof fn lemma_truncate_idempotent(s: Seq<char>)
    ensures
        truncated(truncated(s)) == truncated(s),
{
    let t = truncated(s);
    lemma_truncated_is_marker_free(s);
    lemma_marker_found(t, 0, t.len() as int);
    lemma_trimmed_bounds(s.take(cut_point(s)));
    lemma_trimmed_fixed(t);
}

/// Whether `c` follows `(` in one of the markers.
fn follows_in_marker(c: char) -> (b: bool)
    ensures
        b == (c == EQUIVALENT || c == SEE || c == OPPOSITE),
{
    c == EQUIVALENT || c == SEE || c == OPPOSITE
}

/// The index at which `chars` is cut: where its first marker starts, or its length.
pub fn cut_index(chars: &Vec<char>) -> (n: usize)
    ensures
        n == cut_point(chars@),
        n <= chars.len(),
        n < chars.len() ==> marker_at(chars@, n as int),
        forall|i: int| 0 <= i < n ==> !marker_at(chars@, i),
{
    let len = chars.len();
    let mut i: usize = 0;
    while i < len
        invariant
            i <= len,
            len == chars.len(),
            forall|j: int| 0 <= j < i ==> !marker_at(chars@, j),
        decreases len - i,
    {
        if chars[i] == '(' && i + 1 < len && follows_in_marker(chars[i + 1]) {
            proof {
                lemma_marker_found(chars@, 0, i as int);
            }
            return i;
        }
        i = i + 1;
    }
    proof {
        lemma_marker_found(chars@, 0, len as int);
    }
    len
}

/// The meaning that `mean` states: what stands before the first marker, without leading and
/// trailing white space. A marker at the very start leaves the empty text.
pub fn truncate_meaning(mean: &str) -> (out: String)
    ensures
        out@ == truncated(mean@),
        is_trimmed(out@),
        marker_free(out@),
{
    let chars = chars_of(mean);
    let cut = cut_index(&chars);
    let (a, b) = trim_bounds(&chars, 0, cut);
    proof {
        lemma_trimmed_bounds(mean@.take(cut as int));
        lemma_truncated_is_marker_free(mean@);
    }
    mean.substring_char(a, b).to_owned()
}

} // verus!
