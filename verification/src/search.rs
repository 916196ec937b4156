//! Looking a spelling up in the remote dictionary: the address to ask, and the record that
//! the answer holds.

use vstd::prelude::*;
use vstd::string::StringExecFns;
use crate::json::{decode, document, trees, Json, JsonView};
use crate::markup::{strip_markup, stripped};
use crate::meaning::{truncate_meaning, truncated};
use crate::word::{Word, WordView};

verus! {

/// The address of the remote dictionary, up to the spelling that is asked for.
pub const NAVER: &'static str = "https://en.dict.naver.com/api3/enko/search?lang=en&query=";

/// The first step of the path from the root of an answer down to its part-of-speech items.
pub const RESULT_MAP: &'static str = "searchResultMap";

/// The second step of the path: a member of the first.
pub const RESULT_LIST_MAP: &'static str = "searchResultListMap";

/// The third step of the path: a member of the second.
pub const WORD: &'static str = "WORD";

/// The fourth step of the path: a member of the third, of which the first element is taken.
pub const ITEMS: &'static str = "items";

/// The last step of the path: the member of that element which holds the part-of-speech
/// items.
pub const MEANS_COLLECTOR: &'static str = "meansCollector";

/// The member of a part-of-speech item that holds its tag.
pub const PART_OF_SPEECH: &'static str = "partOfSpeech";

/// The member of a part-of-speech item that holds its meaning items.
pub const MEANS: &'static str = "means";

/// The member of a meaning item that holds its raw text.
pub const VALUE: &'static str = "value";

/// Why a lookup gave no record.
#[derive(Debug, Clone, Copy, PartialEq, Eq, Structural)]
pub enum SearchError {
    /// The remote dictionary could not be reached or did not answer.
    FetchFailure,
    /// The answer is no JSON document.
    InvalidJson,
    /// The answer is a JSON document without the array of part-of-speech items in its place.
    InvalidResponseShape,
}

/// The canonical form of a raw meaning: cut at its first marker, trimmed, then freed of tags.
pub open spec fn normalized(mean: Seq<char>) -> Seq<char> {
    stripped(truncated(mean))
}

/// The member `name` of `value`, where there is a value and it is an object that has one.
pub open spec fn member_of(value: Option<JsonView>, name: Seq<char>) -> Option<JsonView> {
    match value {
        Some(v) => v.member(name),
        None => None,
    }
}

/// The part-of-speech items of an answer: the array that stands at the end of the path.
/// There is none where a step of the path is missing or is of another kind.
pub open spec fn means_collector(root: JsonView) -> Option<Seq<JsonView>> {
    let result_map = root.member(RESULT_MAP@);
    let list_map = member_of(result_map, RESULT_LIST_MAP@);
    let word = member_of(list_map, WORD@);
    let first = match member_of(word, ITEMS@) {
        Some(items) => items.element(0),
        None => None,
    };
    match member_of(first, MEANS_COLLECTOR@) {
        Some(collector) => collector.elements(),
        None => None,
    }
}

/// The text of the member `name` of `value`, where it has such a member and it is a text.
pub open spec fn text_member(value: JsonView, name: Seq<char>) -> Option<Seq<char>> {
    match value.member(name) {
        Some(v) => v.text(),
        None => None,
    }
}

/// The tags of `items`, in order: one for each item that carries a text as its tag.
pub open spec fn tags_of(items: Seq<JsonView>) -> Seq<Seq<char>>
    decreases items.len(),
{
    if items.len() == 0 {
        Seq::empty()
    } else {
        let before = tags_of(items.drop_last());
        match text_member(items.last(), PART_OF_SPEECH@) {
            Some(tag) => before.push(tag),
            None => before,
        }
    }
}

/// The meanings of `means`, in order: one for each meaning item that carries a text as
/// its value, normalized.
pub open spec fn meanings_of(means: Seq<JsonView>) -> Seq<Seq<char>>
    decreases means.len(),
{
    if means.len() == 0 {
        Seq::empty()
    } else {
        let before = meanings_of(means.drop_last());
        match text_member(means.last(), VALUE@) {
            Some(raw) => before.push(normalized(raw)),
            None => before,
        }
    }
}

/// The meaning group of one part-of-speech item; empty where the item has no array of
/// meaning items.
pub open spec fn group_of(item: JsonView) -> Seq<Seq<char>> {
    match item.member(MEANS@) {
        Some(means) => match means.elements() {
            Some(list) => meanings_of(list),
            None => Seq::empty(),
        },
        None => Seq::empty(),
    }
}

/// The meaning groups of `items`: one for each item, in order.
pub open spec fn groups_of(items: Seq<JsonView>) -> Seq<Seq<Seq<char>>> {
    Seq::new(items.len(), |i: int| group_of(items[i]))
}

/// The record that the part-of-speech items `items` make.
pub open spec fn word_of(items: Seq<JsonView>) -> WordView {
    WordView { pos: Some(tags_of(items)), means: groups_of(items) }
}

/// Every one of `items` carries a tag.
pub open spec fn all_tagged(items: Seq<JsonView>) -> bool {
    forall|i: int| 0 <= i < items.len() ==> text_member(#[trigger] items[i], PART_OF_SPEECH@) is Some
}

/// What an answer with the tree `root` gives.
pub open spec fn response_result(root: JsonView) -> Result<WordView, SearchError> {
    match means_collector(root) {
        Some(items) => Ok(word_of(items)),
        None => Err(SearchError::InvalidResponseShape),
    }
}

/// What an answer with the text `body` gives.
pub open spec fn body_result(body: Seq<char>) -> Result<WordView, SearchError> {
    match document(body) {
        Some(root) => response_result(root),
        None => Err(SearchError::InvalidJson),
    }
}

/// `outcome`, with the record as what it says.
pub open spec fn outcome_view(outcome: Result<Word, SearchError>) -> Result<WordView, SearchError> {
    match outcome {
        Ok(word) => Ok(word@),
        Err(e) => Err(e),
    }
}

/// There are as many tags as there are items that carry one, and never more tags than items.
pub proof fn lemma_tags_len(items: Seq<JsonView>)
    ensures
        tags_of(items).len() <= items.len(),
        tags_of(items).len() == items.len() <==> all_tagged(items),
    decreases items.len(),
{
    if items.len() > 0 {
        let before = items.drop_last();
        lemma_tags_len(before);
        if all_tagged(items) {
            assert forall|i: int| 0 <= i < before.len() implies text_member(
                #[trigger] before[i],
                PART_OF_SPEECH@,
            ) is Some by {
                assert(before[i] == items[i]);
            }
        }
        if all_tagged(before) && text_member(items.last(), PART_OF_SPEECH@) is Some {
            assert forall|i: int| 0 <= i < items.len() implies text_member(
                #[trigger] items[i],
                PART_OF_SPEECH@,
            ) is Some by {
                if i < before.len() {
                    assert(items[i] == before[i]);
                }
            }
        }
    }
}

/// The record of an answer is well formed exactly when each of its items carries a tag:
/// an item without one still gives its meaning group, so that groups outnumber tags.
pub proof fn lemma_word_of_well_formed(items: Seq<JsonView>)
    ensures
        word_of(items).well_formed() <==> all_tagged(items),
        word_of(items).means.len() == items.len(),
{
    lemma_tags_len(items);
}

/// An answer without the first step of the path gives no record, whatever else it holds.
pub proof fn lemma_missing_result_map_is_refused(root: JsonView)
    requires
        root.member(RESULT_MAP@) is None,
    ensures
        response_result(root) == Err::<WordView, SearchError>(SearchError::InvalidResponseShape),
{
}

/// An answer gives either a record or the refusal of its shape, and a record exactly when
/// its part-of-speech items stand in their place.
pub proof fn lemma_record_or_refusal(root: JsonView)
    ensures
        response_result(root) is Ok <==> means_collector(root) is Some,
        response_result(root) is Err ==> response_result(root) == Err::<WordView, SearchError>(
            SearchError::InvalidResponseShape,
        ),
{
}

/// The address at which the remote dictionary answers for `word`.
pub fn request_url(word: &str) -> (url: String)
    ensures
        url@ == NAVER@ + word@,
{
    let mut url = NAVER.to_owned();
    url.append(word);
    url
}

/// The canonical form of the raw meaning `mean`: what stands before its first
/// cross-reference marker, trimmed, with its inline tags removed.
pub fn escape_span_of_meaning(mean: &str) -> (out: String)
    ensures
        out@ == normalized(mean@),
{
    let cut = truncate_meaning(mean);
    strip_markup(cut.as_str())
}

/// The text of the member `name` of `value`, where it has such a member and it is a text.
fn text_of_member<'a>(value: &'a Json, name: &str) -> (found: Option<&'a str>)
    ensures
        match found {
            Some(s) => text_member(value@, name@) == Some(s@),
            None => text_member(value@, name@) is None,
        },
{
    match value.member(name) {
        Some(v) => v.text(),
        None => None,
    }
}

/// The part-of-speech items of the answer `root`, where it has them in their place.
pub fn find_means_collector(root: &Json) -> (found: Option<&Vec<Json>>)
    ensures
        match found {
            Some(items) => means_collector(root@) == Some(trees(items@)),
            None => means_collector(root@) is None,
        },
{
    let result_map = match root.member(RESULT_MAP) {
        Some(v) => v,
        None => { return None; },
    };
    let list_map = match result_map.member(RESULT_LIST_MAP) {
        Some(v) => v,
        None => { return None; },
    };
    let word = match list_map.member(WORD) {
        Some(v) => v,
        None => { return None; },
    };
    let items = match word.member(ITEMS) {
        Some(v) => v,
        None => { return None; },
    };
    let first = match items.element(0) {
        Some(v) => v,
        None => { return None; },
    };
    match first.member(MEANS_COLLECTOR) {
        Some(collector) => collector.elements(),
        None => None,
    }
}

/// The meaning group of the part-of-speech item `item`.
fn group_of_item(item: &Json) -> (group: Vec<String>)
    ensures
        group.deep_view() == group_of(item@),
{
    let mut group: Vec<String> = Vec::new();
    let means = match item.member(MEANS) {
        Some(v) => v,
        None => { return group; },
    };
    let list = match means.elements() {
        Some(v) => v,
        None => { return group; },
    };
    let n = list.len();
    let mut i: usize = 0;
    while i < n
        invariant
            i <= n,
            n == list.len(),
            group.deep_view() == meanings_of(trees(list@).take(i as int)),
        decreases n - i,
    {
        let ghost before = group.deep_view();
        proof {
            let upto = trees(list@).take(i + 1);
            assert(upto.drop_last() =~= trees(list@).take(i as int));
        }
        match text_of_member(&list[i], VALUE) {
            Some(raw) => {
                let meaning = escape_span_of_meaning(raw);
                group.push(meaning);
            },
            None => {},
        }
        i = i + 1;
    }
    assert(trees(list@).take(n as int) =~= trees(list@));
    group
}

/// The record that the part-of-speech items `items` make.
pub fn word_of_items(items: &Vec<Json>) -> (word: Word)
    ensures
        word@ == word_of(trees(items@)),
        word@.well_formed() <==> all_tagged(trees(items@)),
{
    let mut pos: Vec<String> = Vec::new();
    let mut meanings: Vec<Vec<String>> = Vec::new();
    let n = items.len();
    let mut i: usize = 0;
    let ghost all = trees(items@);
    while i < n
        invariant
            i <= n,
            n == items.len(),
            all == trees(items@),
            pos.deep_view() == tags_of(all.take(i as int)),
            meanings.deep_view() == groups_of(all.take(i as int)),
        decreases n - i,
    {
        let ghost tags_before = pos.deep_view();
        let ghost groups_before = meanings.deep_view();
        proof {
            let upto = all.take(i + 1);
            assert(upto.drop_last() =~= all.take(i as int));
        }
        match text_of_member(&items[i], PART_OF_SPEECH) {
            Some(tag) => {
                let tag = tag.to_owned();
                pos.push(tag);
            },
            None => {},
        }
        let group = group_of_item(&items[i]);
        meanings.push(group);
        assert(groups_of(all.take(i + 1)) =~= groups_of(all.take(i as int)).push(
            group_of(items@[i as int]@),
        ));
        i = i + 1;
    }
    proof {
        assert(all.take(n as int) =~= all);
        lemma_word_of_well_formed(all);
    }
    Word::new(pos, meanings)
}

/// The record that the answer `root` holds.
///
/// The part-of-speech items must stand in their place, else the answer is refused as a
/// whole. Within an item, a tag or a meaning that is missing or is no text is passed over.
pub fn parse_response(root: &Json) -> (outcome: Result<Word, SearchError>)
    ensures
        outcome_view(outcome) == response_result(root@),
{
    match find_means_collector(root) {
        Some(items) => Ok(word_of_items(items)),
        None => Err(SearchError::InvalidResponseShape),
    }
}

/// The record that the remote dictionary's answer `body` holds.
pub fn naver(body: &str) -> (outcome: Result<Word, SearchError>)
    ensures
        outcome_view(outcome) == body_result(body@),
{
    match decode(body) {
        Some(root) => parse_response(&root),
        None => Err(SearchError::InvalidJson),
    }
}

} // verus!
