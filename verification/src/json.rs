//! A JSON document as a tree, and its decoding by the `serde_json` crate.

use vstd::prelude::*;

verus! {

/// One value of a JSON document.
///
/// Numbers are kept as a mark only: nothing that is read from a document here is a number.
#[derive(Debug)]
pub enum Json {
    Null,
    Bool(bool),
    Number,
    Text(String),
    Array(Vec<Json>),
    Object(Vec<Member>),
}

/// One member of a JSON object.
#[derive(Debug)]
pub struct Member {
    pub name: String,
    pub value: Json,
}

/// What a `Json` holds, as a mathematical tree.
pub enum JsonView {
    Null,
    Bool(bool),
    Number,
    Text(Seq<char>),
    Array(Seq<JsonView>),
    Object(Seq<MemberView>),
}

/// What a `Member` holds.
pub struct MemberView {
    pub name: Seq<char>,
    pub value: JsonView,
}

impl View for Json {
    type V = JsonView;

    open spec fn view(&self) -> JsonView
        decreases self,
    {
        match self {
            Json::Null => JsonView::Null,
            Json::Bool(b) => JsonView::Bool(*b),
            Json::Number => JsonView::Number,
            Json::Text(s) => JsonView::Text(s@),
            Json::Array(items) => JsonView::Array(
                Seq::new(
                    items.len() as nat,
                    |i: int|
                        if 0 <= i < items.len() {
                            items[i]@
                        } else {
                            JsonView::Null
                        },
                ),
            ),
            Json::Object(members) => JsonView::Object(
                Seq::new(
                    members.len() as nat,
                    |i: int|
                        if 0 <= i < members.len() {
                            MemberView { name: members[i].name@, value: members[i].value@ }
                        } else {
                            MemberView { name: Seq::empty(), value: JsonView::Null }
                        },
                ),
            ),
        }
    }
}

impl View for Member {
    type V = MemberView;

    open spec fn view(&self) -> MemberView {
        MemberView { name: self.name@, value: self.value@ }
    }
}

/// The trees of `items`, in order.
pub open spec fn trees(items: Seq<Json>) -> Seq<JsonView> {
    Seq::new(items.len(), |i: int| items[i]@)
}

/// The names and trees of `members`, in order.
pub open spec fn member_views(members: Seq<Member>) -> Seq<MemberView> {
    Seq::new(members.len(), |i: int| members[i]@)
}

/// An array holds the trees of its elements.
pub proof fn lemma_array_view(items: Vec<Json>)
    ensures
        Json::Array(items)@ == JsonView::Array(trees(items@)),
{
    assert(Json::Array(items)@->Array_0 =~= trees(items@));
}

/// An object holds the names and trees of its members.
pub proof fn lemma_object_view(members: Vec<Member>)
    ensures
        Json::Object(members)@ == JsonView::Object(member_views(members@)),
{
    assert(Json::Object(members)@->Object_0 =~= member_views(members@));
}

/// A JSON value of the `serde_json` crate. Nothing inside it is visible here.
#[verifier::external_type_specification]
#[verifier::external_body]
pub struct ExValue(serde_json::Value);

/// Why the `serde_json` crate refused a text. Nothing inside it is visible here.
#[verifier::external_type_specification]
#[verifier::external_body]
pub struct ExDecodeError(serde_json::Error);

/// The JSON document that `text` is, as `serde_json::from_str` reads it: its tree, or
/// nothing where `text` is no such document.
pub uninterp spec fn document(text: Seq<char>) -> Option<JsonView>;

/// What `value` holds, as a tree: the same nulls, booleans, texts, array elements and
/// object members, and a mark for each number.
pub uninterp spec fn value_tree(value: serde_json::Value) -> JsonView;

/// Calls `serde_json::from_str` for a `serde_json::Value`.
///
/// Trusted, not proved: what is read depends on the text alone, so what the value holds
/// is `document(text@)`; an error stands for "no document".
#[verifier::external_body]
fn read_value(text: &str) -> (r: Result<serde_json::Value, serde_json::Error>)
    ensures
        match r {
            Ok(value) => document(text@) == Some(value_tree(value)),
            Err(_) => document(text@) is None,
        },
{
    serde_json::from_str(text)
}

/// Moves a `serde_json::Value` into a `Json`, variant by variant; a number leaves its mark.
///
/// Trusted, not proved: the result holds `value_tree(value)`. Members come in the order in
/// which `serde_json::Map` hands them out, each name once.
#[verifier::external_body]
fn tree_of(value: serde_json::Value) -> (tree: Json)
    ensures
        tree@ == value_tree(value),
{
    match value {
        serde_json::Value::Null => Json::Null,
        serde_json::Value::Bool(b) => Json::Bool(b),
        serde_json::Value::Number(_) => Json::Number,
        serde_json::Value::String(s) => Json::Text(s),
        serde_json::Value::Array(items) => Json::Array(items.into_iter().map(tree_of).collect()),
        serde_json::Value::Object(members) => Json::Object(
            members.into_iter().map(|(name, v)| Member { name, value: tree_of(v) }).collect(),
        ),
    }
}

/// The value of the last of `members` that is called `name`.
pub open spec fn member_named(members: Seq<MemberView>, name: Seq<char>) -> Option<JsonView>
    decreases members.len(),
{
    if members.len() == 0 {
        None
    } else if members.last().name == name {
        Some(members.last().value)
    } else {
        member_named(members.drop_last(), name)
    }
}

impl JsonView {
    /// The member `name` of an object. Where a name is repeated, its last member counts.
    pub open spec fn member(self, name: Seq<char>) -> Option<JsonView> {
        match self {
            JsonView::Object(members) => member_named(members, name),
            _ => None,
        }
    }

    /// The elements of an array.
    pub open spec fn elements(self) -> Option<Seq<JsonView>> {
        match self {
            JsonView::Array(items) => Some(items),
            _ => None,
        }
    }

    /// The element `i` of an array.
    pub open spec fn element(self, i: int) -> Option<JsonView> {
        match self {
            JsonView::Array(items) => if 0 <= i < items.len() {
                Some(items[i])
            } else {
                None
            },
            _ => None,
        }
    }

    /// The characters of a text.
    pub open spec fn text(self) -> Option<Seq<char>> {
        match self {
            JsonView::Text(s) => Some(s),
            _ => None,
        }
    }
}

/// `found`, as the tree that it holds.
pub open spec fn found_view(found: Option<&Json>) -> Option<JsonView> {
    match found {
        Some(value) => Some(value@),
        None => None,
    }
}

impl Json {
    /// The member `name`, where this is an object that has one.
    pub fn member(&self, name: &str) -> (found: Option<&Json>)
        ensures
            found_view(found) == self@.member(name@),
    {
        match self {
            Json::Object(members) => {
                let wanted = name.to_owned();
                let ghost all = member_views(members@);
                let mut i: usize = members.len();
                proof {
                    lemma_object_view(*members);
                    assert(all.take(i as int) =~= all);
                }
                while i > 0
                    invariant
                        i <= members.len(),
                        wanted@ == name@,
                        all == member_views(members@),
                        self@.member(name@) == member_named(all.take(i as int), name@),
                    decreases i,
                {
                    let ghost upto = all.take(i as int);
                    i = i - 1;
                    assert(upto.drop_last() =~= all.take(i as int));
                    if members[i].name.eq(&wanted) {
                        return Some(&members[i].value);
                    }
                }
                None
            },
            _ => None,
        }
    }

    /// The element `i`, where this is an array that has one.
    pub fn element(&self, i: usize) -> (found: Option<&Json>)
        ensures
            found_view(found) == self@.element(i as int),
    {
        match self {
            Json::Array(items) => {
                proof {
                    lemma_array_view(*items);
                }
                if i < items.len() {
                    Some(&items[i])
                } else {
                    None
                }
            },
            _ => None,
        }
    }

    /// The elements, where this is an array.
    pub fn elements(&self) -> (found: Option<&Vec<Json>>)
        ensures
            match found {
                Some(items) => self@.elements() == Some(trees(items@)),
                None => self@.elements() is None,
            },
    {
        match self {
            Json::Array(items) => {
                proof {
                    lemma_array_view(*items);
                }
                Some(items)
            },
            _ => None,
        }
    }

    /// The characters, where this is a text.
    pub fn text(&self) -> (found: Option<&str>)
        ensures
            match found {
                Some(s) => self@.text() == Some(s@),
                None => self@.text() is None,
            },
    {
        match self {
            Json::Text(s) => Some(s.as_str()),
            _ => None,
        }
    }
}

/// Reads `text` as a JSON document.
pub fn decode(text: &str) -> (tree: Option<Json>)
    ensures
        match tree {
            Some(root) => document(text@) == Some(root@),
            None => document(text@) is None,
        },
{
    match read_value(text) {
        Ok(value) => Some(tree_of(value)),
        Err(_) => None,
    }
}

} // verus!
