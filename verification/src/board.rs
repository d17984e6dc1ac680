//! What the hub reads of a project's board.

use crate::text::opt_text;
use vstd::prelude::*;

verus! {

/// Where a ticket stands.
#[derive(Clone, Copy, Debug, PartialEq, Eq, Structural)]
pub enum Status {
    Pending,
    Ready,
    InProgress,
    Done,
    Documented,
    Rejected,
    Open,
    Fixed,
    Verified,
    OnHold,
}

/// How urgent a ticket is.
#[derive(Clone, Copy, Debug, PartialEq, Eq, Structural)]
pub enum Priority {
    Low,
    Medium,
    High,
}

/// What kind of work a ticket is.
#[derive(Clone, Copy, Debug, PartialEq, Eq, Structural)]
pub enum TicketType {
    Feature,
    Bug,
    Chore,
}

impl Status {
    /// The name of the status in lower case.
    pub open spec fn spec_label(self) -> Seq<char> {
        match self {
            Status::Pending => "pending"@,
            Status::Ready => "ready"@,
            Status::InProgress => "inprogress"@,
            Status::Done => "done"@,
            Status::Documented => "documented"@,
            Status::Rejected => "rejected"@,
            Status::Open => "open"@,
            Status::Fixed => "fixed"@,
            Status::Verified => "verified"@,
            Status::OnHold => "onhold"@,
        }
    }

    pub fn label(self) -> (r: &'static str)
        ensures
            r@ == self.spec_label(),
    {
        match self {
            Status::Pending => "pending",
            Status::Ready => "ready",
            Status::InProgress => "inprogress",
            Status::Done => "done",
            Status::Documented => "documented",
            Status::Rejected => "rejected",
            Status::Open => "open",
            Status::Fixed => "fixed",
            Status::Verified => "verified",
            Status::OnHold => "onhold",
        }
    }
}

impl Priority {
    /// The name of the priority in lower case.
    pub open spec fn spec_label(self) -> Seq<char> {
        match self {
            Priority::Low => "low"@,
            Priority::Medium => "medium"@,
            Priority::High => "high"@,
        }
    }

    pub fn label(self) -> (r: &'static str)
        ensures
            r@ == self.spec_label(),
    {
        match self {
            Priority::Low => "low",
            Priority::Medium => "medium",
            Priority::High => "high",
        }
    }
}

/// A line of the activity log or a comment: who, what, on which ticket.
#[derive(Clone, Debug)]
pub struct Note {
    pub by: String,
    pub text: String,
    pub ticket: Option<String>,
}

impl Note {
    pub open spec fn is(self, by: Seq<char>, text: Seq<char>, ticket: Option<Seq<char>>) -> bool {
        self.by@ == by && self.text@ == text && opt_text(self.ticket) == ticket
    }
}

/// A note about a ticket.
pub fn note_on(by: &str, text: &str, ticket: &str) -> (n: Note)
    ensures
        n.is(by@, text@, Some(ticket@)),
{
    Note { by: by.to_owned(), text: text.to_owned(), ticket: Some(ticket.to_owned()) }
}

/// A note about no ticket.
pub fn note(by: &str, text: &str) -> (n: Note)
    ensures
        n.is(by@, text@, None),
{
    Note { by: by.to_owned(), text: text.to_owned(), ticket: None }
}

/// Each status has a name of its own.
pub proof fn each_status_has_its_own_name(a: Status, b: Status)
    requires
        a.spec_label() == b.spec_label(),
    ensures
        a == b,
{
    reveal_strlit("pending");
    reveal_strlit("ready");
    reveal_strlit("inprogress");
    reveal_strlit("done");
    reveal_strlit("documented");
    reveal_strlit("rejected");
    reveal_strlit("open");
    reveal_strlit("fixed");
    reveal_strlit("verified");
    reveal_strlit("onhold");
    assert("pending"@.len() == 7 && "ready"@.len() == 5 && "inprogress"@.len() == 10
        && "done"@.len() == 4 && "documented"@.len() == 10 && "rejected"@.len() == 8
        && "open"@.len() == 4 && "fixed"@.len() == 5 && "verified"@.len() == 8 && "onhold"@.len()
        == 6);
    assert("ready"@[0] == 'r' && "fixed"@[0] == 'f' && "inprogress"@[0] == 'i' && "documented"@[0]
        == 'd' && "done"@[0] == 'd' && "open"@[0] == 'o' && "rejected"@[0] == 'r' && "verified"@[0]
        == 'v');
}

/// Each priority has a name of its own.
pub proof fn each_priority_has_its_own_name(a: Priority, b: Priority)
    requires
        a.spec_label() == b.spec_label(),
    ensures
        a == b,
{
    reveal_strlit("low");
    reveal_strlit("medium");
    reveal_strlit("high");
    assert("low"@.len() == 3 && "medium"@.len() == 6 && "high"@.len() == 4);
}

} // verus!
