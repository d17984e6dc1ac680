//! The dependency scan.

use crate::reply::{internal_error, not_found, Refusal};
use vstd::prelude::*;

verus! {

/// Admits a scan: it takes a project and a way to find its lockfiles.
pub fn admit_scan(exists_: bool, has_discovery: bool) -> (r: Result<(), Refusal>)
    ensures
        match r {
            Ok(_) => exists_ && has_discovery,
            Err(e) => if !exists_ {
                e.v() == (404u16, "no such project"@, false)
            } else {
                !has_discovery && e.v() == (
                    500u16,
                    "no dependency discovery adapter configured"@,
                    true,
                )
            },
        },
{
    if !exists_ {
        return Err(not_found());
    }
    if !has_discovery {
        return Err(internal_error("no dependency discovery adapter configured"));
    }
    Ok(())
}

} // verus!
