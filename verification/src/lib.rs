//! Dictionary entries: spellings resolved into parts of speech and cleaned meanings.
//!
//! A spelling resolves into a [`word::Word`] either from the meanings that its row of a
//! word list carries, or from the answer of a remote dictionary. The modules, from the
//! leaves up:
//!
//! - [`text`]: white space, trimming, splitting into fields;
//! - [`meaning`]: the cut of a raw meaning at its first cross-reference marker;
//! - [`markup`]: the removal of inline tags;
//! - [`json`]: a JSON document as a tree;
//! - [`word`]: the record of one spelling;
//! - [`search`]: the remote dictionary's address and the reading of its answers;
//! - [`dictionary`]: the mapping from spellings to records;
//! - [`resolver`]: the steps that turn the rows of a word list into a dictionary.

pub mod dictionary;
pub mod json;
pub mod markup;
pub mod meaning;
pub mod resolver;
pub mod search;
pub mod text;
pub mod word;
