//! Who may search what.

use crate::guards::AuthUser;
use crate::reply::{json, not_found, Refusal};
use crate::text::{has_text, texts};
use vstd::prelude::*;

verus! {

/// What a search covers.
#[derive(Clone, Debug)]
pub enum SearchScope {
    /// One project.
    One(String),
    /// Every project that the caller may see.
    All,
}

/// Why a search is refused.
pub open spec fn search_refusal(
    accounts: bool,
    user: Option<AuthUser>,
    pid: Option<String>,
    registered: Seq<String>,
) -> Option<(u16, Seq<char>, bool)> {
    if accounts && user is None {
        Some((401, "unauthenticated"@, true))
    } else if pid is None || pid->0@.len() == 0 {
        None
    } else if accounts && !user->0.role.spec_sees_all() && !texts(
        user->0.projects@,
    ).contains(pid->0@) {
        Some((403, "not a member of this project"@, true))
    } else if !texts(registered).contains(pid->0@) {
        Some((404, "no such project"@, false))
    } else {
        None
    }
}

/// Admits a search. Without accounts the caller is the operator, who sees everything.
pub fn admit_search(
    accounts: bool,
    user: &Option<AuthUser>,
    pid: &Option<String>,
    registered: &Vec<String>,
) -> (r: Result<SearchScope, Refusal>)
    ensures
        match r {
            Err(e) => search_refusal(accounts, *user, *pid, registered@) == Some(e.v()),
            Ok(SearchScope::One(p)) => search_refusal(accounts, *user, *pid, registered@) is None
                && pid is Some && pid->0@.len() > 0 && p == pid->0,
            Ok(SearchScope::All) => search_refusal(accounts, *user, *pid, registered@) is None && (
            pid is None || pid->0@.len() == 0),
        },
{
    if accounts && user.is_none() {
        return Err(json(401, "unauthenticated"));
    }
    match pid {
        None => Ok(SearchScope::All),
        Some(p) => {
            if p.as_str().is_empty() {
                return Ok(SearchScope::All);
            }
            if accounts {
                if let Some(u) = user {
                    if !u.role.sees_all() && !has_text(&u.projects, p.as_str()) {
                        return Err(json(403, "not a member of this project"));
                    }
                }
            }
            if !has_text(registered, p.as_str()) {
                return Err(not_found());
            }
            Ok(SearchScope::One(p.clone()))
        },
    }
}

/// A search of one project reads no project that the caller may not see, nor one that is not
/// registered.
pub proof fn a_search_never_leaks(
    accounts: bool,
    user: Option<AuthUser>,
    pid: Option<String>,
    registered: Seq<String>,
)
    requires
        search_refusal(accounts, user, pid, registered) is None,
        pid is Some,
        pid->0@.len() > 0,
    ensures
        texts(registered).contains(pid->0@),
        accounts ==> user is Some && (user->0.role.spec_sees_all() || texts(
            user->0.projects@,
        ).contains(pid->0@)),
{
}

/// A search is admitted exactly where nobody needs to sign in or the caller has, and the project
/// that it names, if it names one, is registered and open to the caller.
pub proof fn a_search_is_open_to_those_who_may_see(
    accounts: bool,
    user: Option<AuthUser>,
    pid: Option<String>,
    registered: Seq<String>,
)
    ensures
        search_refusal(accounts, user, pid, registered) is None <==> {
            &&& accounts ==> user is Some
            &&& pid is Some && pid->0@.len() > 0 ==> texts(registered).contains(pid->0@) && (
            accounts ==> user->0.role.spec_sees_all() || texts(user->0.projects@).contains(pid->0@))
        },
        match search_refusal(accounts, user, pid, registered) {
            Some((status, _, _)) => status == 401 <==> accounts && user is None,
            None => true,
        },
{
}

/// Whether a project exists is not told to someone who may not see it.
pub proof fn a_search_does_not_tell_what_exists(
    user: AuthUser,
    pid: String,
    registered: Seq<String>,
    others: Seq<String>,
)
    requires
        pid@.len() > 0,
        !user.role.spec_sees_all(),
        !texts(user.projects@).contains(pid@),
    ensures
        search_refusal(true, Some(user), Some(pid), registered) == search_refusal(
            true,
            Some(user),
            Some(pid),
            others,
        ),
        search_refusal(true, Some(user), Some(pid), registered) is Some,
{
}

} // verus!
