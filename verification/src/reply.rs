//! Refused requests.

use vstd::prelude::*;

verus! {

/// Why a request is refused: the HTTP status and the text sent with it. `as_json` tells
/// whether the text is sent as the `error` of a JSON object or as it is.
#[derive(Clone, Debug)]
pub struct Refusal {
    pub status: u16,
    pub text: String,
    pub as_json: bool,
}

impl Refusal {
    /// The status, the text and the form of the refusal.
    pub open spec fn v(self) -> (u16, Seq<char>, bool) {
        (self.status, self.text@, self.as_json)
    }

    /// Whether this is the refusal with that status, text and form.
    pub open spec fn is(self, status: u16, text: Seq<char>, as_json: bool) -> bool {
        self.status == status && self.text@ == text && self.as_json == as_json
    }
}

/// A refusal whose text is sent as it is.
pub fn plain(status: u16, text: &str) -> (r: Refusal)
    ensures
        r.is(status, text@, false),
{
    Refusal { status, text: text.to_owned(), as_json: false }
}

/// A refusal whose text is the `error` of a JSON object.
pub fn json(status: u16, text: &str) -> (r: Refusal)
    ensures
        r.is(status, text@, true),
{
    Refusal { status, text: text.to_owned(), as_json: true }
}

/// The project does not exist.
pub fn not_found() -> (r: Refusal)
    ensures
        r.is(404, "no such project"@, false),
{
    plain(404, "no such project")
}

/// Something on the hub's own side failed.
pub fn internal_error(text: &str) -> (r: Refusal)
    ensures
        r.is(500, text@, true),
{
    json(500, text)
}

} // verus!
