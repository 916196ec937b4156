//! The dictionary: spellings and the record of each.

use vstd::prelude::*;
use crate::word::{Word, WordView};

verus! {

/// One spelling with its record.
#[derive(Debug)]
struct Entry {
    spelling: String,
    word: Word,
}

/// A mapping from spellings to records. A spelling is taken as it is written, case
/// included, and has one record: a later one replaces an earlier one.
#[derive(Debug)]
pub struct Dictionary {
    entries: Vec<Entry>,
}

/// The spellings of `entries`, in order.
spec fn spellings(entries: Seq<Entry>) -> Seq<Seq<char>> {
    Seq::new(entries.len(), |i: int| entries[i].spelling@)
}

/// The index of the entry for `spelling`, where `entries` has one.
spec fn index_of(entries: Seq<Entry>, spelling: Seq<char>) -> int {
    choose|i: int| 0 <= i < entries.len() && entries[i].spelling@ == spelling
}

/// `entries` as a mapping.
spec fn mapping(entries: Seq<Entry>) -> Map<Seq<char>, WordView> {
    Map::new(
        |spelling: Seq<char>| spellings(entries).contains(spelling),
        |spelling: Seq<char>| entries[index_of(entries, spelling)].word@,
    )
}

impl View for Dictionary {
    type V = Map<Seq<char>, WordView>;

    closed spec fn view(&self) -> Map<Seq<char>, WordView> {
        mapping(self.entries@)
    }
}

/// Putting a second record under a spelling leaves the dictionary as if the first had
/// never been put there.
pub proof fn lemma_insert_overwrites(
    dict: Map<Seq<char>, WordView>,
    spelling: Seq<char>,
    first: WordView,
    second: WordView,
)
    ensures
        dict.insert(spelling, first).insert(spelling, second) == dict.insert(spelling, second),
        dict.insert(spelling, first).insert(spelling, second)[spelling] == second,
{
}

impl Dictionary {
    /// No two entries have the same spelling.
    #[verifier::type_invariant]
    spec fn distinct(&self) -> bool {
        spellings(self.entries@).no_duplicates()
    }

    /// A dictionary without entries.
    pub fn new() -> (dict: Dictionary)
        ensures
            dict@ == Map::<Seq<char>, WordView>::empty(),
    {
        let dict = Dictionary { entries: Vec::new() };
        dict
    }

    /// The number of spellings.
    pub fn len(&self) -> (n: usize)
        ensures
            self@.dom().finite(),
            n == self@.dom().len(),
    {
        proof {
            use_type_invariant(self);
            let keys = spellings(self.entries@);
            keys.unique_seq_to_set();
        }
        self.entries.len()
    }

    /// The record of `spelling`, if the dictionary has one.
    pub fn get(&self, spelling: &str) -> (found: Option<&Word>)
        ensures
            match found {
                Some(word) => self@.contains_key(spelling@) && self@[spelling@] == word@,
                None => !self@.contains_key(spelling@),
            },
    {
        let wanted = spelling.to_owned();
        match position(&self.entries, &wanted) {
            Some(i) => {
                proof {
                    use_type_invariant(self);
                    lemma_mapping_at(self.entries@, i as int);
                }
                Some(&self.entries[i].word)
            },
            None => None,
        }
    }

    /// Puts `word` under `spelling`, in place of the record that stood there, if any.
    pub fn insert(&mut self, spelling: String, word: Word)
        ensures
            final(self)@ == old(self)@.insert(spelling@, word@),
    {
        proof {
            use_type_invariant(&*self);
        }
        let ghost entry = Entry { spelling, word };
        let mut entries: Vec<Entry> = Vec::new();
        core::mem::swap(&mut self.entries, &mut entries);
        let ghost before = entries@;
        match position(&entries, &spelling) {
            Some(i) => {
                entries.set(i, Entry { spelling, word });
                proof {
                    lemma_mapping_update(before, i as int, entry);
                }
            },
            None => {
                entries.push(Entry { spelling, word });
                proof {
                    lemma_mapping_push(before, entry);
                }
            },
        }
        self.entries = entries;
    }
}

/// Where the entry for `spelling` stands in `entries`, if there is one.
fn position(entries: &Vec<Entry>, spelling: &String) -> (found: Option<usize>)
    ensures
        match found {
            Some(i) => i < entries.len() && entries@[i as int].spelling@ == spelling@,
            None => !spellings(entries@).contains(spelling@),
        },
{
    let n = entries.len();
    let mut i: usize = 0;
    while i < n
        invariant
            i <= n,
            n == entries.len(),
            forall|j: int| 0 <= j < i ==> entries@[j].spelling@ != spelling@,
        decreases n - i,
    {
        if entries[i].spelling.eq(spelling) {
            return Some(i);
        }
        i = i + 1;
    }
    None
}

/// With distinct spellings, the mapping gives each entry's record under its spelling.
proof fn lemma_mapping_at(entries: Seq<Entry>, i: int)
    requires
        spellings(entries).no_duplicates(),
        0 <= i < entries.len(),
    ensures
        mapping(entries).contains_key(entries[i].spelling@),
        mapping(entries)[entries[i].spelling@] == entries[i].word@,
{
    let keys = spellings(entries);
    let j = index_of(entries, entries[i].spelling@);
    assert(keys[j] == keys[i]);
}

/// Replacing an entry by one of the same spelling puts the new record under that spelling.
proof fn lemma_mapping_update(entries: Seq<Entry>, i: int, entry: Entry)
    requires
        spellings(entries).no_duplicates(),
        0 <= i < entries.len(),
        entries[i].spelling@ == entry.spelling@,
    ensures
        spellings(entries.update(i, entry)) == spellings(entries),
        mapping(entries.update(i, entry)) == mapping(entries).insert(entry.spelling@, entry.word@),
{
    let after = entries.update(i, entry);
    assert(spellings(after) =~= spellings(entries));
    let want = mapping(entries).insert(entry.spelling@, entry.word@);
    assert(spellings(entries)[i] == entry.spelling@);
    assert forall|k: Seq<char>| mapping(after).contains_key(k) implies #[trigger] mapping(
        after,
    )[k] == want[k] by {
        let j = spellings(after).index_of(k);
        lemma_mapping_at(after, j);
        if j != i {
            lemma_mapping_at(entries, j);
        }
    }
}

/// Adding an entry with a new spelling puts its record under that spelling.
proof fn lemma_mapping_push(entries: Seq<Entry>, entry: Entry)
    requires
        spellings(entries).no_duplicates(),
        !spellings(entries).contains(entry.spelling@),
    ensures
        spellings(entries.push(entry)).no_duplicates(),
        mapping(entries.push(entry)) == mapping(entries).insert(entry.spelling@, entry.word@),
{
    let after = entries.push(entry);
    let n = entries.len() as int;
    assert forall|a: int, b: int|
        0 <= a < after.len() && 0 <= b < after.len() && a != b implies spellings(after)[a]
        != spellings(after)[b] by {
        if a < n && b < n {
            assert(spellings(entries)[a] != spellings(entries)[b]);
        } else if a < n {
            assert(spellings(entries)[a] == spellings(after)[a]);
        } else {
            assert(spellings(entries)[b] == spellings(after)[b]);
        }
    }
    let want = mapping(entries).insert(entry.spelling@, entry.word@);
    assert forall|k: Seq<char>| mapping(after).contains_key(k) <==> want.contains_key(k) by {
        if spellings(after).contains(k) {
            let j = spellings(after).index_of(k);
            if j < n {
                assert(spellings(entries)[j] == k);
            }
        }
        if spellings(entries).contains(k) {
            let j = spellings(entries).index_of(k);
            assert(spellings(after)[j] == k);
        }
        if k == entry.spelling@ {
            assert(spellings(after)[n] == k);
        }
    }
    assert forall|k: Seq<char>| mapping(after).contains_key(k) implies #[trigger] mapping(
        after,
    )[k] == want[k] by {
        let j = spellings(after).index_of(k);
        lemma_mapping_at(after, j);
        if j < n {
            lemma_mapping_at(entries, j);
        }
    }
}

} // verus!
