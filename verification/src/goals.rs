//! Product goals: who declares them, and which work is bound to which.

use crate::reply::{internal_error, not_found, plain, Refusal};
use crate::text::{has_text, join2, same, spec_trim, texts, trim};
use vstd::prelude::*;

verus! {

/// Why a goal is not declared.
pub open spec fn declare_refusal(allowed: bool, exists_: bool, title: Seq<char>) -> Option<
    (u16, Seq<char>, bool),
> {
    if !allowed {
        Some((403, "only the PO's goal gate may declare goals"@, false))
    } else if !exists_ {
        Some((404, "no such project"@, false))
    } else if spec_trim(title).len() == 0 {
        Some((400, "title is required"@, false))
    } else {
        None
    }
}

/// Admits a new goal and gives its title.
pub fn admit_goal(allowed: bool, exists_: bool, title: &str) -> (r: Result<String, Refusal>)
    ensures
        match r {
            Err(e) => declare_refusal(allowed, exists_, title@) == Some(e.v()),
            Ok(t) => declare_refusal(allowed, exists_, title@) is None && t@ == spec_trim(title@),
        },
{
    if !allowed {
        return Err(plain(403, "only the PO's goal gate may declare goals"));
    }
    if !exists_ {
        return Err(not_found());
    }
    let t = trim(title);
    if t.as_str().is_empty() {
        return Err(plain(400, "title is required"));
    }
    Ok(t)
}

/// What the write of a new goal came to: an id, or what went wrong.
pub fn goal_added(stored: Result<Option<String>, String>) -> (r: Result<String, Refusal>)
    ensures
        match (stored, r) {
            (Ok(Some(id)), Ok(got)) => got == id,
            (Ok(None), Err(e)) => e.v() == (
                500u16,
                "goal add reported success without minting an id"@,
                true,
            ),
            (Err(why), Err(e)) => e.v() == (500u16, why@, true),
            _ => false,
        },
{
    match stored {
        Ok(Some(id)) => Ok(id),
        Ok(None) => Err(internal_error("goal add reported success without minting an id")),
        Err(why) => Err(internal_error(why.as_str())),
    }
}

/// Why a goal is not restated.
pub open spec fn restate_refusal(
    allowed: bool,
    exists_: bool,
    good_id: bool,
    title: Seq<char>,
) -> Option<(u16, Seq<char>, bool)> {
    if !allowed {
        Some((403, "only the PO's goal gate may restate goals"@, false))
    } else if !exists_ {
        Some((404, "no such project"@, false))
    } else if !good_id {
        Some((400, "invalid goal id"@, false))
    } else if spec_trim(title).len() == 0 {
        Some((400, "title is required"@, false))
    } else {
        None
    }
}

/// Admits a goal's new wording.
pub fn admit_restatement(allowed: bool, exists_: bool, good_id: bool, title: &str) -> (r: Result<
    String,
    Refusal,
>)
    ensures
        match r {
            Err(e) => restate_refusal(allowed, exists_, good_id, title@) == Some(e.v()),
            Ok(t) => restate_refusal(allowed, exists_, good_id, title@) is None && t@
                == spec_trim(title@),
        },
{
    if !allowed {
        return Err(plain(403, "only the PO's goal gate may restate goals"));
    }
    if !exists_ {
        return Err(not_found());
    }
    if !good_id {
        return Err(plain(400, "invalid goal id"));
    }
    let t = trim(title);
    if t.as_str().is_empty() {
        return Err(plain(400, "title is required"));
    }
    Ok(t)
}

/// What the write of a new wording came to: whether the goal was found.
pub fn goal_restated(stored: Result<bool, String>) -> (r: Result<(), Refusal>)
    ensures
        match (stored, r) {
            (Ok(true), Ok(_)) => true,
            (Ok(false), Err(e)) => e.v() == (404u16, "no such goal"@, false),
            (Err(why), Err(e)) => e.v() == (500u16, why@, true),
            _ => false,
        },
{
    match stored {
        Ok(found) => if found {
            Ok(())
        } else {
            Err(plain(404, "no such goal"))
        },
        Err(why) => Err(internal_error(why.as_str())),
    }
}

/// Admits the request to bind a ticket to a goal.
pub fn admit_binding(allowed: bool, exists_: bool, good_id: bool) -> (r: Result<(), Refusal>)
    ensures
        match r {
            Ok(_) => allowed && exists_ && good_id,
            Err(e) => if !allowed {
                e.v() == (403u16, "only the PO's goal gate may bind work to goals"@, false)
            } else if !exists_ {
                e.v() == (404u16, "no such project"@, false)
            } else {
                !good_id && e.v() == (400u16, "invalid goal id"@, false)
            },
        },
{
    if !allowed {
        return Err(plain(403, "only the PO's goal gate may bind work to goals"));
    }
    if !exists_ {
        return Err(not_found());
    }
    if !good_id {
        return Err(plain(400, "invalid goal id"));
    }
    Ok(())
}

/// The first position of a text.
pub open spec fn first_at(list: Seq<String>, x: Seq<char>, i: int) -> Option<int>
    decreases list.len() - i,
{
    if i < 0 || i >= list.len() {
        None
    } else if list[i]@ == x {
        Some(i)
    } else {
        first_at(list, x, i + 1)
    }
}

/// Finds the ticket that is bound: the goal must be declared and the ticket be there.
pub fn bind_goal(goals: &Vec<String>, tickets: &Vec<String>, goal: &str, ticket: &str) -> (r: Result<
    usize,
    Refusal,
>)
    ensures
        match r {
            Ok(i) => texts(goals@).contains(goal@) && first_at(tickets@, ticket@, 0) == Some(
                i as int,
            ),
            Err(e) => if !texts(goals@).contains(goal@) {
                e.v() == (400u16, "no such goal "@ + goal@, false)
            } else {
                first_at(tickets@, ticket@, 0) is None && e.v() == (
                    404u16,
                    "no such ticket"@,
                    false,
                )
            },
        },
{
    if !has_text(goals, goal) {
        let text = join2("no such goal ", goal);
        return Err(plain(400, text.as_str()));
    }
    let mut i: usize = 0;
    while i < tickets.len()
        invariant
            i <= tickets.len(),
            texts(goals@).contains(goal@),
            first_at(tickets@, ticket@, 0) == first_at(tickets@, ticket@, i as int),
        decreases tickets.len() - i,
    {
        if same(tickets[i].as_str(), ticket) {
            return Ok(i);
        }
        i += 1;
    }
    Err(plain(404, "no such ticket"))
}

/// A goal is declared exactly by someone who may, on a project that is there, with a title that is
/// not blank.
pub proof fn a_goal_has_a_title(allowed: bool, exists_: bool, title: Seq<char>)
    ensures
        declare_refusal(allowed, exists_, title) is None <==> allowed && exists_ && spec_trim(
            title,
        ).len() > 0,
        match declare_refusal(allowed, exists_, title) {
            Some((status, _, _)) => {
                &&& status == 403 <==> !allowed
                &&& status == 404 <==> allowed && !exists_
                &&& status == 400 <==> allowed && exists_
            },
            None => true,
        },
{
}

/// A goal is restated exactly by someone who may, on a project that is there, under a good id and
/// with a title that is not blank.
pub proof fn a_restated_goal_has_a_title(allowed: bool, exists_: bool, good_id: bool, title: Seq<char>)
    ensures
        restate_refusal(allowed, exists_, good_id, title) is None <==> allowed && exists_ && good_id
            && spec_trim(title).len() > 0,
        match restate_refusal(allowed, exists_, good_id, title) {
            Some((status, _, _)) => {
                &&& status == 403 <==> !allowed
                &&& status == 404 <==> allowed && !exists_
                &&& status == 400 <==> allowed && exists_
            },
            None => true,
        },
{
}

/// A ticket is found where it first stands on the list.
pub proof fn a_ticket_is_bound_where_it_first_stands(list: Seq<String>, x: Seq<char>, i: int)
    requires
        0 <= i,
    ensures
        match first_at(list, x, i) {
            Some(v) => i <= v < list.len() && list[v]@ == x && (forall|j: int|
                i <= j < v ==> !((#[trigger] list[j])@ == x)),
            None => forall|j: int| i <= j < list.len() ==> !((#[trigger] list[j])@ == x),
        },
    decreases list.len() - i,
{
    if i < list.len() && !(list[i]@ == x) {
        a_ticket_is_bound_where_it_first_stands(list, x, i + 1);
    }
}

} // verus!
