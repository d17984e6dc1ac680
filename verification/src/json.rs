//! JSON texts, read one level at a time.

use crate::text::{opt_text, same, texts};
use vstd::prelude::*;

verus! {

/// A JSON value. What a list or an object holds is kept as JSON text.
#[derive(Clone, Debug)]
pub enum Json {
    Null,
    Bool(bool),
    /// A number that is a `u64`.
    Uint(u64),
    /// Any other number.
    Number,
    Text(String),
    List(Vec<String>),
    Object(Vec<(String, String)>),
}

/// What a JSON value is, in texts.
pub enum JsonView {
    Null,
    Bool(bool),
    Uint(u64),
    Number,
    Text(Seq<char>),
    List(Seq<Seq<char>>),
    Object(Seq<(Seq<char>, Seq<char>)>),
}

impl View for Json {
    type V = JsonView;

    open spec fn view(&self) -> JsonView {
        match *self {
            Json::Null => JsonView::Null,
            Json::Bool(b) => JsonView::Bool(b),
            Json::Uint(n) => JsonView::Uint(n),
            Json::Number => JsonView::Number,
            Json::Text(s) => JsonView::Text(s@),
            Json::List(items) => JsonView::List(texts(items@)),
            Json::Object(m) => JsonView::Object(members_view(m@)),
        }
    }
}

/// The names and texts of an object's members.
pub open spec fn members_view(m: Seq<(String, String)>) -> Seq<(Seq<char>, Seq<char>)> {
    m.map_values(|p: (String, String)| (p.0@, p.1@))
}

/// What a value is, where there is one.
pub open spec fn value_view(v: Option<Json>) -> Option<JsonView> {
    match v {
        Some(j) => Some(j@),
        None => None,
    }
}

/// The value that a JSON text holds; nothing where the text is not JSON.
pub uninterp spec fn json_value(text: Seq<char>) -> Option<JsonView>;

/// `serde_json::from_str` into a `serde_json::Value`, of which a list's items and an object's
/// members are kept as the text that `Value` prints for them. The value is a function of the
/// text; what it is on given texts is left unsaid.
#[verifier::external_body]
pub(crate) fn parse_json(text: &str) -> (r: Option<Json>)
    ensures
        value_view(r) == json_value(text@),
{
    Some(match serde_json::from_str::<serde_json::Value>(text).ok()? {
        serde_json::Value::Null => Json::Null,
        serde_json::Value::Bool(b) => Json::Bool(b),
        serde_json::Value::Number(n) => n.as_u64().map_or(Json::Number, Json::Uint),
        serde_json::Value::String(s) => Json::Text(s),
        serde_json::Value::Array(a) => Json::List(a.iter().map(|v| v.to_string()).collect()),
        serde_json::Value::Object(o) => Json::Object(
            o.into_iter().map(|(k, v)| (k, v.to_string())).collect(),
        ),
    })
}

/// The text of the first member with that name.
pub open spec fn member_of(members: Seq<(Seq<char>, Seq<char>)>, key: Seq<char>) -> Option<Seq<char>>
    decreases members.len(),
{
    if members.len() == 0 {
        None
    } else if members[0].0 == key {
        Some(members[0].1)
    } else {
        member_of(members.skip(1), key)
    }
}

impl JsonView {
    /// The text of a member of an object; nothing has members but an object.
    pub open spec fn get(self, key: Seq<char>) -> Option<Seq<char>> {
        match self {
            JsonView::Object(m) => member_of(m, key),
            _ => None,
        }
    }
}

impl Json {
    /// The text of a member of an object; nothing has members but an object.
    #[verifier::loop_isolation(false)]
    pub fn get(&self, key: &str) -> (r: Option<String>)
        ensures
            opt_text(r) == self@.get(key@),
    {
        match self {
            Json::Object(m) => {
                let ghost v = members_view(m@);
                let mut i: usize = 0;
                assert(v.skip(0) =~= v);
                while i < m.len()
                    invariant
                        i <= m.len(),
                        member_of(v, key@) == member_of(v.skip(i as int), key@),
                    decreases m.len() - i,
                {
                    assert(v.skip(i as int)[0] == (m@[i as int].0@, m@[i as int].1@));
                    if same(m[i].0.as_str(), key) {
                        return Some(m[i].1.clone());
                    }
                    assert(v.skip(i as int).skip(1) =~= v.skip(i + 1));
                    i += 1;
                }
                None
            },
            _ => None,
        }
    }
}

/// The value of a member of the object that a JSON text holds.
pub open spec fn json_member(text: Seq<char>, key: Seq<char>) -> Option<JsonView> {
    match json_value(text) {
        Some(v) => match v.get(key) {
            Some(t) => json_value(t),
            None => None,
        },
        None => None,
    }
}

/// Reads a member of the object that a JSON text holds.
pub(crate) fn read_member(text: &str, key: &str) -> (r: Option<Json>)
    ensures
        value_view(r) == json_member(text@, key@),
{
    match parse_json(text) {
        Some(v) => match v.get(key) {
            Some(t) => parse_json(t.as_str()),
            None => None,
        },
        None => None,
    }
}

/// The value of a member of a member.
pub open spec fn json_at(text: Seq<char>, outer: Seq<char>, inner: Seq<char>) -> Option<JsonView> {
    match json_member(text, outer) {
        Some(v) => match v.get(inner) {
            Some(t) => json_value(t),
            None => None,
        },
        None => None,
    }
}

/// Reads a member of a member of the object that a JSON text holds.
pub(crate) fn read_at(text: &str, outer: &str, inner: &str) -> (r: Option<Json>)
    ensures
        value_view(r) == json_at(text@, outer@, inner@),
{
    match read_member(text, outer) {
        Some(v) => match v.get(inner) {
            Some(t) => parse_json(t.as_str()),
            None => None,
        },
        None => None,
    }
}

/// A member is read by its name: the first one in the object.
pub proof fn a_member_is_read_by_its_name(members: Seq<(Seq<char>, Seq<char>)>, key: Seq<char>, k: int)
    ensures
        0 <= k < members.len() && members[k].0 == key && (forall|j: int|
            0 <= j < k ==> !((#[trigger] members[j]).0 == key)) ==> member_of(members, key) == Some(members[k].1),
        (forall|j: int| 0 <= j < members.len() ==> !((#[trigger] members[j]).0 == key)) ==> member_of(members, key) == None::<Seq<char>>,
    decreases members.len(),
{
    if members.len() > 0 {
        let rest = members.skip(1);
        a_member_is_read_by_its_name(rest, key, k - 1);
        assert(forall|j: int| 0 <= j < rest.len() ==> #[trigger] rest[j] == members[j + 1]);
    }
}

} // verus!
