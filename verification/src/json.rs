//! The members of JSON update lines that the alignment reads, as
//! `serde_json` parses them.

use vstd::prelude::*;

verus! {

/// What `serde_json::Value::get` finds under a key: one arm per kind of
/// JSON value, keeping the text of a string and the truth of a boolean.
pub enum JsonMember {
    Null,
    Bool(bool),
    Number,
    String(String),
    Array,
    Object,
}

/// A `JsonMember` with its string taken as a character sequence.
pub ghost enum JsonMemberView {
    Null,
    Bool(bool),
    Number,
    String(Seq<char>),
    Array,
    Object,
}

impl View for JsonMember {
    type V = JsonMemberView;

    open spec fn view(&self) -> JsonMemberView {
        match self {
            JsonMember::Null => JsonMemberView::Null,
            JsonMember::Bool(b) => JsonMemberView::Bool(*b),
            JsonMember::Number => JsonMemberView::Number,
            JsonMember::String(s) => JsonMemberView::String(s@),
            JsonMember::Array => JsonMemberView::Array,
            JsonMember::Object => JsonMemberView::Object,
        }
    }
}

/// The view of what `json_member` returns.
pub open spec fn member_view(m: Option<Option<JsonMember>>) -> Option<Option<JsonMemberView>> {
    match m {
        None => None,
        Some(None) => Some(None),
        Some(Some(v)) => Some(Some(v@)),
    }
}

/// What `serde_json` finds in the JSON text `line` under `key`: `None` when
/// the text is no JSON value, else the member that `Value::get(key)` returns
/// (no member when the top-level value is no object or lacks the key).
pub uninterp spec fn json_member_of(line: Seq<char>, key: Seq<char>) -> Option<
    Option<JsonMemberView>,
>;

/// Parses `line` with `serde_json::from_str::<serde_json::Value>` and looks
/// up `key` with `Value::get`, telling the kinds of JSON value apart. The
/// contract claims only that the result is a function of the text and the
/// key, named `json_member_of`.
#[verifier::external_body]
pub(crate) fn json_member(line: &str, key: &str) -> (r: Option<Option<JsonMember>>)
    ensures
        member_view(r) == json_member_of(line@, key@),
{
    match serde_json::from_str::<serde_json::Value>(line) {
        Err(_) => None,
        Ok(v) => Some(match v.get(key) {
            None => None,
            Some(serde_json::Value::Null) => Some(JsonMember::Null),
            Some(serde_json::Value::Bool(b)) => Some(JsonMember::Bool(*b)),
            Some(serde_json::Value::Number(_)) => Some(JsonMember::Number),
            Some(serde_json::Value::String(s)) => Some(JsonMember::String(s.clone())),
            Some(serde_json::Value::Array(_)) => Some(JsonMember::Array),
            Some(serde_json::Value::Object(_)) => Some(JsonMember::Object),
        }),
    }
}

/// What an update line holds for the alignment: whether its top-level
/// value has a `redirect` member, then, for a redirect, its `entity` member,
/// and otherwise its `id` member, each when it is a string.
pub struct UpdateFields {
    pub redirect: bool,
    pub entity: Option<String>,
    pub id: Option<String>,
}

impl View for UpdateFields {
    type V = (bool, Option<Seq<char>>, Option<Seq<char>>);

    open spec fn view(&self) -> (bool, Option<Seq<char>>, Option<Seq<char>>) {
        (
            self.redirect,
            match self.entity {
                Some(s) => Some(s@),
                None => None,
            },
            match self.id {
                Some(s) => Some(s@),
                None => None,
            },
        )
    }
}

/// The text of a member that is a JSON string.
pub open spec fn string_member(m: Option<JsonMemberView>) -> Option<Seq<char>> {
    match m {
        Some(JsonMemberView::String(s)) => Some(s),
        _ => None,
    }
}

/// The fields of the update line `line`: `None` when it is no JSON text;
/// else whether it has a `redirect` member, and the string `entity` member
/// of a redirect or the string `id` member of any other line.
pub open spec fn spec_update_fields(line: Seq<char>) -> Option<
    (bool, Option<Seq<char>>, Option<Seq<char>>),
> {
    match json_member_of(line, "redirect"@) {
        None => None,
        Some(Some(_)) => match json_member_of(line, "entity"@) {
            None => None,
            Some(e) => Some((true, string_member(e), None)),
        },
        Some(None) => match json_member_of(line, "id"@) {
            None => None,
            Some(i) => Some((false, None, string_member(i))),
        },
    }
}

fn string_of(m: Option<JsonMember>) -> (r: Option<String>)
    ensures
        match r {
            Some(s) => string_member(match m {
                Some(v) => Some(v@),
                None => None,
            }) == Some(s@),
            None => string_member(match m {
                Some(v) => Some(v@),
                None => None,
            }) is None,
        },
{
    match m {
        Some(JsonMember::String(s)) => Some(s),
        _ => None,
    }
}

/// Reads the fields of the update line `line`, as `spec_update_fields` says.
pub fn read_update_fields(line: &str) -> (r: Option<UpdateFields>)
    ensures
        match r {
            Some(f) => spec_update_fields(line@) == Some(f@),
            None => spec_update_fields(line@) is None,
        },
{
    match json_member(line, "redirect") {
        None => None,
        Some(Some(_)) => match json_member(line, "entity") {
            None => None,
            Some(e) => Some(UpdateFields { redirect: true, entity: string_of(e), id: None }),
        },
        Some(None) => match json_member(line, "id") {
            None => None,
            Some(i) => Some(UpdateFields { redirect: false, entity: None, id: string_of(i) }),
        },
    }
}

} // verus!
