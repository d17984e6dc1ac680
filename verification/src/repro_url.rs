//! Where a fix can be seen running.

use crate::board::Status;
use crate::forge::{configured_port, honest_port};
use crate::reply::{internal_error, not_found, plain, Refusal};
use vstd::prelude::*;

verus! {

/// What the resolution of the address goes by.
#[derive(Clone, Debug)]
pub struct ReproUrlSnapshot {
    pub host_port: Option<u16>,
    pub preview_live: bool,
    pub ticket_verify_pending: bool,
}

/// Why the address is not resolved.
pub open spec fn repro_refusal(
    accounts: bool,
    signed_in: bool,
    exists_: bool,
    loaded: bool,
    ticket: Option<Status>,
) -> Option<(u16, Seq<char>, bool)> {
    if accounts && !signed_in {
        Some((401, "sign in first"@, false))
    } else if !exists_ {
        Some((404, "no such project"@, false))
    } else if !loaded {
        Some((500, "load failed"@, true))
    } else if ticket is None {
        Some((404, "no such project"@, false))
    } else {
        None
    }
}

/// Takes the snapshot for a ticket: the port of the configuration (a corrupt one has no honest
/// address, like one that is not configured), and whether the ticket waits for its verdict.
pub fn repro_snapshot(
    accounts: bool,
    signed_in: bool,
    exists_: bool,
    loaded: bool,
    ticket: Option<Status>,
    config: Option<&str>,
) -> (r: Result<ReproUrlSnapshot, Refusal>)
    ensures
        match r {
            Err(e) => repro_refusal(accounts, signed_in, exists_, loaded, ticket) == Some(e.v()),
            Ok(s) => {
                &&& repro_refusal(accounts, signed_in, exists_, loaded, ticket) is None
                &&& s.host_port == honest_port(config)
                &&& !s.preview_live
                &&& s.ticket_verify_pending == (ticket == Some(Status::Fixed))
            },
        },
{
    if accounts && !signed_in {
        return Err(plain(401, "sign in first"));
    }
    if !exists_ {
        return Err(not_found());
    }
    if !loaded {
        return Err(internal_error("load failed"));
    }
    let status = match ticket {
        None => {
            return Err(not_found());
        },
        Some(s) => s,
    };
    Ok(
        ReproUrlSnapshot {
            host_port: configured_port(config),
            preview_live: false,
            ticket_verify_pending: status == Status::Fixed,
        },
    )
}

/// An address is resolved exactly for someone who may read, on a project that is there and can be
/// read, and for a ticket that is on its board.
pub proof fn an_address_is_resolved_for_a_ticket(
    accounts: bool,
    signed_in: bool,
    exists_: bool,
    loaded: bool,
    ticket: Option<Status>,
)
    ensures
        repro_refusal(accounts, signed_in, exists_, loaded, ticket) is None <==> (!accounts
            || signed_in) && exists_ && loaded && ticket is Some,
        match repro_refusal(accounts, signed_in, exists_, loaded, ticket) {
            Some((status, _, as_json)) => {
                &&& status == 401 <==> accounts && !signed_in
                &&& status == 500 <==> (!accounts || signed_in) && exists_ && !loaded
                &&& as_json <==> status == 500
            },
            None => true,
        },
{
}

} // verus!
