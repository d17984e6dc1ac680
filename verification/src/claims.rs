//! A person takes a ticket over from the loop, and hands it back.

use crate::guards::AuthUser;
use crate::inbox::{gate_principal, role_refused};
use crate::reply::{internal_error, not_found, plain, Refusal};
use crate::text::{join3, owned, same, spec_trim, trim};
use vstd::prelude::*;

verus! {

/// Who asks, and whether their role is of the manage tier. Without accounts it is the operator,
/// who may manage everything.
pub fn claim_gate(accounts: bool, user: &Option<AuthUser>) -> (r: Option<(String, bool)>)
    ensures
        match r {
            None => accounts && user is None,
            Some((me, can_manage)) => if accounts {
                user is Some && me == user->0.username && can_manage
                    == user->0.role.spec_can_manage()
            } else {
                me@ == "operator"@ && can_manage
            },
        },
{
    let (name, manages) = match user {
        Some(u) => (Some(u.username.clone()), u.role.can_manage()),
        None => (None, false),
    };
    match gate_principal(accounts, &name, true) {
        None => None,
        Some(me) => {
            let can_manage = gate_principal(accounts, &name, manages).is_some();
            Some((me, can_manage))
        },
    }
}

/// What the board answers to a claim that it refuses.
#[derive(Clone, Debug)]
pub enum ClaimError {
    NotFound,
    NotPermitted,
    Conflict(String),
    Store(String),
}

/// The reply to a refused claim.
pub fn claim_error(e: &ClaimError) -> (r: Refusal)
    ensures
        match e {
            ClaimError::NotFound => r.v() == (404u16, "no such ticket"@, false),
            ClaimError::NotPermitted => role_refused(r),
            ClaimError::Conflict(why) => r.v() == (409u16, why@, false),
            ClaimError::Store(why) => r.v() == (500u16, why@, true),
        },
{
    match e {
        ClaimError::NotFound => plain(404, "no such ticket"),
        ClaimError::NotPermitted => plain(403, "your role may not take this decision"),
        ClaimError::Conflict(why) => plain(409, why.as_str()),
        ClaimError::Store(why) => internal_error(why.as_str()),
    }
}

/// What is read of this hub's runner, at one instant.
#[derive(Clone, Debug)]
pub struct RunnerFact {
    pub mode: String,
    pub host: Option<String>,
    pub worker_id: String,
}

/// The worker that is at work: only a running one stands in the way.
pub open spec fn active_worker(snap: RunnerFact) -> Option<String> {
    if snap.mode@ == "running"@ {
        Some(snap.worker_id)
    } else {
        None
    }
}

fn active_runner(snap: &RunnerFact) -> (r: Option<String>)
    ensures
        r == active_worker(*snap),
{
    if same(snap.mode.as_str(), "running") {
        Some(snap.worker_id.clone())
    } else {
        None
    }
}

/// A claim as the board is asked for it.
#[derive(Clone, Debug)]
pub struct TakeoverCall {
    /// The account and the host that it works through.
    pub worker: String,
    pub me: String,
    pub can_manage: bool,
    pub active_runner: Option<String>,
}

pub open spec fn host_or_local(host: Option<String>) -> Seq<char> {
    match host {
        Some(h) => h@,
        None => "local"@,
    }
}

/// Admits a takeover and fixes what the board is asked.
pub fn plan_takeover(
    exists_: bool,
    good_id: bool,
    gate: &Option<(String, bool)>,
    snap: &RunnerFact,
) -> (r: Result<TakeoverCall, Refusal>)
    ensures
        match r {
            Ok(c) => {
                &&& exists_ && good_id && gate is Some
                &&& (c.me, c.can_manage) == gate->0
                &&& c.worker@ == c.me@ + "@"@ + host_or_local(snap.host)
                &&& c.active_runner == active_worker(*snap)
            },
            Err(e) => if !exists_ {
                e.v() == (404u16, "no such project"@, false)
            } else if !good_id {
                e.v() == (400u16, "bad id"@, false)
            } else {
                gate is None && role_refused(e)
            },
        },
{
    if !exists_ {
        return Err(not_found());
    }
    if !good_id {
        return Err(plain(400, "bad id"));
    }
    match gate {
        None => Err(plain(403, "your role may not take this decision")),
        Some((me, can_manage)) => {
            let host = match &snap.host {
                Some(h) => h.clone(),
                None => owned("local"),
            };
            Ok(
                TakeoverCall {
                    worker: join3(me.as_str(), "@", host.as_str()),
                    me: me.clone(),
                    can_manage: *can_manage,
                    active_runner: active_runner(snap),
                },
            )
        },
    }
}

/// A handback as the board is asked for it.
#[derive(Clone, Debug)]
pub struct HandbackCall {
    pub note: String,
    pub branch_ref: String,
    pub me: String,
    pub can_manage: bool,
    pub active_runner: Option<String>,
}

/// Why a handback is refused before the board is asked.
pub open spec fn handback_refusal(
    exists_: bool,
    good_id: bool,
    reason: Seq<char>,
    gate: Option<(String, bool)>,
) -> Option<(u16, Seq<char>, bool)> {
    if !exists_ {
        Some((404, "no such project"@, false))
    } else if !good_id {
        Some((400, "bad id"@, false))
    } else if spec_trim(reason).len() == 0 {
        Some(
            (
                400,
                "an implementation note is required — it is the handback's audit trail"@,
                false,
            ),
        )
    } else if gate is None {
        Some((403, "your role may not take this decision"@, false))
    } else {
        None
    }
}

/// Admits a handback: the note is its audit trail, so there is none without one.
pub fn plan_handback(
    exists_: bool,
    good_id: bool,
    reason: &str,
    branch_ref: &str,
    gate: &Option<(String, bool)>,
    snap: &RunnerFact,
) -> (r: Result<HandbackCall, Refusal>)
    ensures
        match r {
            Err(e) => handback_refusal(exists_, good_id, reason@, *gate) == Some(e.v()),
            Ok(c) => {
                &&& handback_refusal(exists_, good_id, reason@, *gate) is None
                &&& c.note@ == spec_trim(reason@)
                &&& c.branch_ref@ == spec_trim(branch_ref@)
                &&& (c.me, c.can_manage) == gate->0
                &&& c.active_runner == active_worker(*snap)
            },
        },
{
    if !exists_ {
        return Err(not_found());
    }
    if !good_id {
        return Err(plain(400, "bad id"));
    }
    let note = trim(reason);
    if note.as_str().is_empty() {
        return Err(
            plain(400, "an implementation note is required — it is the handback's audit trail"),
        );
    }
    match gate {
        None => Err(plain(403, "your role may not take this decision")),
        Some((me, can_manage)) => Ok(
            HandbackCall {
                note,
                branch_ref: trim(branch_ref),
                me: me.clone(),
                can_manage: *can_manage,
                active_runner: active_runner(snap),
            },
        ),
    }
}

/// Only a worker that runs stands in the way of a claim.
pub proof fn only_a_running_worker_stands_in_the_way(snap: RunnerFact)
    ensures
        active_worker(snap) is Some <==> snap.mode@ == "running"@,
        active_worker(snap) is Some ==> active_worker(snap)->0 == snap.worker_id,
{
}

/// A ticket is handed back exactly on a project that is there, under a good id, with a note that is
/// not blank, and by someone who may.
pub proof fn a_handback_needs_a_note(
    exists_: bool,
    good_id: bool,
    reason: Seq<char>,
    gate: Option<(String, bool)>,
)
    ensures
        handback_refusal(exists_, good_id, reason, gate) is None <==> exists_ && good_id && spec_trim(
            reason,
        ).len() > 0 && gate is Some,
        match handback_refusal(exists_, good_id, reason, gate) {
            Some((status, _, _)) => {
                &&& status == 404 <==> !exists_
                &&& status == 403 <==> exists_ && good_id && spec_trim(reason).len() > 0
                    && gate is None
                &&& status == 404 || status == 403 || status == 400
            },
            None => true,
        },
{
}

/// A claim is made through the host that the runner works on, or the local one.
pub proof fn a_claim_names_its_host(host: Option<String>)
    ensures
        host is Some ==> host_or_local(host) == host->0@,
        host is None ==> host_or_local(host) == "local"@,
{
}

} // verus!
