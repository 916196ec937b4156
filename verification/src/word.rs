//! The record that one spelling resolves to.

use vstd::prelude::*;
use vstd::std_specs::cmp::PartialEqSpecImpl;
use crate::text::same_texts;

verus! {

/// One dictionary record: part-of-speech tags, where the source gave any, and the meanings,
/// group by group.
#[derive(Debug)]
pub struct Word {
    pub pos: Option<Vec<String>>,
    pub means: Vec<Vec<String>>,
}

/// What a `Word` says, as text alone.
pub struct WordView {
    pub pos: Option<Seq<Seq<char>>>,
    pub means: Seq<Seq<Seq<char>>>,
}

impl WordView {
    /// Tags and meaning groups go together one to one; a record without tags has exactly
    /// one group.
    pub open spec fn well_formed(self) -> bool {
        match self.pos {
            Some(tags) => tags.len() == self.means.len(),
            None => self.means.len() == 1,
        }
    }
}

impl View for Word {
    type V = WordView;

    open spec fn view(&self) -> WordView {
        WordView { pos: self.pos.deep_view(), means: self.means.deep_view() }
    }
}

/// Whether `a` and `b` hold the same groups of texts, in the same order.
pub fn same_groups(a: &Vec<Vec<String>>, b: &Vec<Vec<String>>) -> (same: bool)
    ensures
        same == (a.deep_view() == b.deep_view()),
{
    if a.len() != b.len() {
        assert(a.deep_view().len() != b.deep_view().len());
        return false;
    }
    let n = a.len();
    let mut i: usize = 0;
    while i < n
        invariant
            i <= n,
            n == a.len(),
            n == b.len(),
            forall|j: int| 0 <= j < i ==> a@[j].deep_view() == b@[j].deep_view(),
        decreases n - i,
    {
        if !same_texts(&a[i], &b[i]) {
            assert(a.deep_view()[i as int] != b.deep_view()[i as int]);
            return false;
        }
        i = i + 1;
    }
    assert(a.deep_view() =~= b.deep_view());
    true
}

impl Word {
    /// A tagged record: `pos` becomes its tags, `means` its meaning groups.
    pub fn new(pos: Vec<String>, means: Vec<Vec<String>>) -> (word: Word)
        ensures
            word@ == (WordView { pos: Some(pos.deep_view()), means: means.deep_view() }),
            word@.well_formed() <==> pos.len() == means.len(),
    {
        Word { pos: Some(pos), means }
    }

    /// A record without tags, which holds the one group `means`.
    pub fn untagged(means: Vec<String>) -> (word: Word)
        ensures
            word@ == (WordView { pos: None, means: seq![means.deep_view()] }),
            word@.well_formed(),
    {
        let mut groups: Vec<Vec<String>> = Vec::new();
        groups.push(means);
        let word = Word { pos: None, means: groups };
        assert(word.means.deep_view() =~= seq![means.deep_view()]);
        word
    }
}

impl PartialEq for Word {
    /// Two records are equal when they have the same tags and the same meanings, in the
    /// same order and grouping.
    fn eq(&self, other: &Self) -> (equal: bool) {
        let tags_equal = match (&self.pos, &other.pos) {
            (Some(a), Some(b)) => same_texts(a, b),
            (None, None) => true,
            _ => false,
        };
        tags_equal && same_groups(&self.means, &other.means)
    }
}

impl PartialEqSpecImpl for Word {
    open spec fn obeys_eq_spec() -> bool {
        true
    }

    open spec fn eq_spec(&self, other: &Self) -> bool {
        self@ == other@
    }
}

} // verus!
