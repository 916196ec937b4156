//! Removing inline tags from a text, with the `regex` crate finding the tags.

use vstd::prelude::*;
use vstd::string::StringExecFns;

verus! {

/// What splitting `text` on `pattern` yields with the `regex` crate: the parts of `text`
/// that no match of the pattern covers, from left to right; nothing where the crate refuses
/// the pattern.
pub uninterp spec fn split_parts(pattern: Seq<char>, text: Seq<char>) -> Option<Seq<Seq<char>>>;

/// Compiles `pattern` with `regex::Regex::new`, splits `text` with `regex::Regex::split` and
/// copies each yielded slice into a `String`.
///
/// Trusted, not proved: compiling and matching depend on the pattern and the text alone,
/// so the outcome is `split_parts(pattern@, text@)`, a refused pattern giving nothing.
/// Which parts a pattern leaves is the crate's matching and is not stated here.
#[verifier::external_body]
fn split(pattern: &str, text: &str) -> (parts: Option<Vec<String>>)
    ensures
        parts.deep_view() == split_parts(pattern@, text@),
{
    match regex::Regex::new(pattern) {
        Ok(re) => Some(re.split(text).map(String::from).collect()),
        Err(_) => None,
    }
}

/// The pattern of one inline tag: `<`, then quoted stretches and characters other than
/// quotes and `>`, at least one in all, then `>`. A quoted stretch may hold `>`, and stray
/// quotes may follow it.
pub const TAG_PATTERN: &'static str = r#"<(?:"[^"]*"['"]*|'[^']*'['"]*|[^'">])+>"#;

/// `parts` written one after the other with nothing between them.
pub open spec fn joined(parts: Seq<Seq<char>>) -> Seq<char>
    decreases parts.len(),
{
    if parts.len() == 0 {
        Seq::empty()
    } else {
        joined(parts.drop_last()) + parts.last()
    }
}

/// `text` without its tags: what the tag pattern leaves of it, joined. Were the pattern
/// refused, the text would stay as it is.
pub open spec fn stripped(text: Seq<char>) -> Seq<char> {
    match split_parts(TAG_PATTERN@, text) {
        Some(parts) => joined(parts),
        None => text,
    }
}

/// The tag pattern matches nowhere in `text`: splitting leaves the text as its only part.
pub open spec fn tag_free(text: Seq<char>) -> bool {
    match split_parts(TAG_PATTERN@, text) {
        Some(parts) => parts == seq![text],
        None => true,
    }
}

/// Stripping leaves a text without tags as it is.
pub proof fn lemma_tag_free_is_fixed(text: Seq<char>)
    requires
        tag_free(text),
    ensures
        stripped(text) == text,
{
    let parts = seq![text];
    assert(joined(parts.drop_last()) =~= Seq::<char>::empty());
}

/// Stripping twice gives what stripping once gives, for every text whose stripped form is
/// free of tags. Texts in which the removal of one tag brings the two ends of another
/// together are left out: stripping them a second time removes more.
pub proof fn lemma_strip_idempotent(text: Seq<char>)
    requires
        tag_free(stripped(text)),
    ensures
        stripped(stripped(text)) == stripped(text),
{
    lemma_tag_free_is_fixed(stripped(text));
}

/// `parts` written one after the other with nothing between them.
pub fn join(parts: &Vec<String>) -> (out: String)
    ensures
        out@ == joined(parts.deep_view()),
{
    let mut out = String::new();
    let n = parts.len();
    let mut i: usize = 0;
    while i < n
        invariant
            i <= n,
            n == parts.len(),
            out@ == joined(parts.deep_view().take(i as int)),
        decreases n - i,
    {
        proof {
            let next = parts.deep_view().take(i + 1);
            assert(next.drop_last() =~= parts.deep_view().take(i as int));
        }
        out.append(parts[i].as_str());
        i = i + 1;
    }
    assert(parts.deep_view().take(n as int) =~= parts.deep_view());
    out
}

/// Whether the tag pattern matches nowhere in `text`.
pub fn is_tag_free(text: &str) -> (free: bool)
    ensures
        free == tag_free(text@),
{
    match split(TAG_PATTERN, text) {
        Some(parts) => {
            if parts.len() == 1 {
                let only = text.to_owned();
                let same = parts[0].eq(&only);
                proof {
                    if same {
                        assert(parts.deep_view() =~= seq![text@]);
                    } else {
                        assert(parts.deep_view()[0] != seq![text@][0]);
                    }
                }
                same
            } else {
                assert(parts.deep_view().len() != seq![text@].len());
                false
            }
        },
        None => true,
    }
}

/// `text` with every inline tag removed and what stood around the tags kept, in order.
pub fn strip_markup(text: &str) -> (out: String)
    ensures
        out@ == stripped(text@),
{
    match split(TAG_PATTERN, text) {
        Some(parts) => join(&parts),
        None => text.to_owned(),
    }
}

} // verus!
