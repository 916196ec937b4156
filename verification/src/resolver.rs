//! Resolving the rows of a word list, one entry at a time.
//!
//! A row that carries its meanings is resolved from them. A row that carries none is
//! resolved from the answer of the remote dictionary, which the caller fetches: the steps
//! here say what to ask for and what to make of the outcome.

use vstd::prelude::*;
use crate::dictionary::Dictionary;
use crate::search::{body_result, naver, request_url, SearchError, NAVER};
use crate::text::{all_trimmed, fields, trimmed_fields};
use crate::word::{Word, WordView};

verus! {

/// What separates the meanings that a row carries.
pub const SEPARATOR: char = ',';

/// The record that the meanings `raw` of a row make: no tags, and one group, which holds
/// what stands between the separators, piece by piece, trimmed, empty pieces included.
pub open spec fn inline_word(raw: Seq<char>) -> WordView {
    WordView { pos: None, means: seq![all_trimmed(fields(raw, SEPARATOR))] }
}

/// What a row leaves to be done.
#[derive(Debug)]
pub enum Demand {
    /// The row carried its meanings: its record stands in the dictionary.
    Nothing,
    /// The row carried no meanings: the answer found at `url` is wanted for `spelling`.
    Fetch { spelling: String, url: String },
}

/// The record that the meanings `raw` of a row make.
pub fn parse_inline(raw: &str) -> (word: Word)
    ensures
        word@ == inline_word(raw@),
        word@.well_formed(),
{
    Word::untagged(trimmed_fields(raw, SEPARATOR))
}

/// Takes the row `spelling`, `raw`. With meanings in `raw`, their record is put under
/// `spelling`. Without, the dictionary stays as it is and the answer of the remote
/// dictionary is asked for.
pub fn take_row(dict: &mut Dictionary, spelling: String, raw: &str) -> (demand: Demand)
    ensures
        raw@.len() > 0 ==> demand is Nothing && final(dict)@ == old(dict)@.insert(
            spelling@,
            inline_word(raw@),
        ),
        raw@.len() == 0 ==> final(dict)@ == old(dict)@ && (demand matches Demand::Fetch {
            spelling: asked,
            url,
        } && asked@ == spelling@ && url@ == NAVER@ + spelling@),
{
    if raw.is_empty() {
        let url = request_url(spelling.as_str());
        Demand::Fetch { spelling, url }
    } else {
        dict.insert(spelling, parse_inline(raw));
        Demand::Nothing
    }
}

/// Takes what fetching the answer for `spelling` gave: its text, or nothing where the
/// fetch failed. The record that the answer holds is put under `spelling`; a failed fetch
/// and an answer without a record leave the dictionary as it is and come back as errors.
pub fn take_answer(dict: &mut Dictionary, spelling: String, fetched: Option<&str>) -> (outcome:
    Result<(), SearchError>)
    ensures
        match fetched {
            Some(body) => match body_result(body@) {
                Ok(word) => outcome is Ok && final(dict)@ == old(dict)@.insert(spelling@, word),
                Err(e) => outcome == Err::<(), SearchError>(e) && final(dict)@ == old(dict)@,
            },
            None => outcome == Err::<(), SearchError>(SearchError::FetchFailure) && final(dict)@
                == old(dict)@,
        },
{
    match fetched {
        Some(body) => match naver(body) {
            Ok(word) => {
                dict.insert(spelling, word);
                Ok(())
            },
            Err(e) => Err(e),
        },
        None => Err(SearchError::FetchFailure),
    }
}

} // verus!
