//! Asking for a project to be built, and how that can fail.

use crate::reply::{json, Refusal};
use vstd::prelude::*;

verus! {

/// A request to create a project. `existing` adopts a codebase; `git_url` imports one; `goal`
/// seeds the project's brief.
#[derive(Debug, Clone)]
pub struct NewProjectReq {
    pub name: String,
    pub alias: Option<String>,
    pub existing: Option<String>,
    pub git_url: Option<String>,
    pub goal: Option<String>,
}

impl Default for NewProjectReq {
    fn default() -> (r: NewProjectReq)
        ensures
            r.name@ == Seq::<char>::empty(),
            r.alias is None,
            r.existing is None,
            r.git_url is None,
            r.goal is None,
    {
        NewProjectReq {
            name: String::new(),
            alias: None,
            existing: None,
            git_url: None,
            goal: None,
        }
    }
}

/// Which class a failure to build a project belongs to.
#[derive(Debug, Clone, Copy, PartialEq, Eq, Structural)]
pub enum FactoryErrorKind {
    /// A fault on the hub's side.
    Internal,
    /// The request conflicts with what is already there.
    Conflict,
    /// The request can never succeed.
    BadRequest,
}

/// A failure to build a project, classified where it arises.
#[derive(Debug, Clone)]
pub struct FactoryError {
    pub message: String,
    /// The failure class: it alone decides the HTTP status.
    pub kind: FactoryErrorKind,
}

impl FactoryError {
    /// A fault on the hub's side.
    pub fn internal(message: impl Into<String>) -> (r: Self)
        ensures
            r.kind == FactoryErrorKind::Internal,
            call_ensures(Into::<String>::into, (message,), r.message),
    {
        FactoryError { message: message.into(), kind: FactoryErrorKind::Internal }
    }

    /// An expected conflict.
    pub fn conflict(message: impl Into<String>) -> (r: Self)
        ensures
            r.kind == FactoryErrorKind::Conflict,
            call_ensures(Into::<String>::into, (message,), r.message),
    {
        FactoryError { message: message.into(), kind: FactoryErrorKind::Conflict }
    }

    /// Invalid input.
    pub fn bad_request(message: impl Into<String>) -> (r: Self)
        ensures
            r.kind == FactoryErrorKind::BadRequest,
            call_ensures(Into::<String>::into, (message,), r.message),
    {
        FactoryError { message: message.into(), kind: FactoryErrorKind::BadRequest }
    }

    /// The HTTP status of a failure.
    pub open spec fn spec_status(self) -> u16 {
        match self.kind {
            FactoryErrorKind::Internal => 500,
            FactoryErrorKind::Conflict => 409,
            FactoryErrorKind::BadRequest => 400,
        }
    }

    /// The answer that a failure becomes. The message survives it.
    pub fn refusal(&self) -> (r: Refusal)
        ensures
            r.is(self.spec_status(), self.message@, true),
    {
        let status: u16 = match self.kind {
            FactoryErrorKind::Internal => 500,
            FactoryErrorKind::Conflict => 409,
            FactoryErrorKind::BadRequest => 400,
        };
        json(status, self.message.as_str())
    }
}

/// The class of a failure decides its status: only a fault of the hub is answered as one.
pub proof fn only_a_fault_is_answered_as_one(e: FactoryError)
    ensures
        e.spec_status() == 500 <==> e.kind == FactoryErrorKind::Internal,
        e.spec_status() == 409 <==> e.kind == FactoryErrorKind::Conflict,
        e.spec_status() == 400 <==> e.kind == FactoryErrorKind::BadRequest,
{
}

} // verus!
