//! The fleet's spend: which projects are shown, and when people are told.

use crate::reply::{json, Refusal};
use crate::spaces::Space;
use crate::text::{has_text, head, texts};
use vstd::prelude::*;

verus! {

/// Admits a reader or writer of the fleet's spend.
pub fn admit_fleet(is_super: bool) -> (r: Result<(), Refusal>)
    ensures
        match r {
            Ok(_) => is_super,
            Err(e) => !is_super && e.v() == (403u16, "super admin required"@, true),
        },
{
    if !is_super {
        return Err(json(403, "super admin required"));
    }
    Ok(())
}

/// The space of a project: the last that lists it.
pub open spec fn last_space(spaces: Seq<Space>, pid: Seq<char>) -> Option<String>
    decreases spaces.len(),
{
    if spaces.len() == 0 {
        None
    } else if texts(spaces.last().projects@).contains(pid) {
        Some(spaces.last().id)
    } else {
        last_space(spaces.drop_last(), pid)
    }
}

/// The space of a project.
pub fn space_of(spaces: &Vec<Space>, pid: &str) -> (r: Option<String>)
    ensures
        r == last_space(spaces@, pid@),
{
    let mut n: usize = spaces.len();
    assert(spaces@.take(n as int) =~= spaces@);
    while n > 0
        invariant
            n <= spaces.len(),
            last_space(spaces@, pid@) == last_space(spaces@.take(n as int), pid@),
        decreases n,
    {
        assert(spaces@.take(n as int).drop_last() =~= spaces@.take(n - 1));
        if has_text(&spaces[n - 1].projects, pid) {
            return Some(spaces[n - 1].id.clone());
        }
        n -= 1;
    }
    None
}

/// A project of the fleet, as far as it could be read.
#[derive(Clone, Debug)]
pub struct FleetProject {
    pub id: String,
    pub space: Option<String>,
    /// Its state could not be read: it is shown without spend, never left out.
    pub broken: bool,
}

pub open spec fn fleet_row(p: FleetProject, spaces: Seq<Space>, id: Seq<char>, broken: bool) -> bool {
    p.id@ == id && p.space == last_space(spaces, id) && p.broken == broken
}

/// Lists the whole fleet: the registered projects, whose state was read or not, and behind them
/// those that could not be loaded.
pub fn fleet_rows(live: &Vec<(String, bool)>, broken: &Vec<String>, spaces: &Vec<Space>) -> (r: Vec<
    FleetProject,
>)
    ensures
        r@.len() == live@.len() + broken@.len(),
        forall|i: int|
            0 <= i < live@.len() ==> fleet_row(
                #[trigger] r@[i],
                spaces@,
                live@[i].0@,
                !live@[i].1,
            ),
        forall|i: int|
            live@.len() <= i < r@.len() ==> fleet_row(
                #[trigger] r@[i],
                spaces@,
                broken@[i - live@.len()]@,
                true,
            ),
{
    let mut r: Vec<FleetProject> = Vec::new();
    let mut i: usize = 0;
    while i < live.len()
        invariant
            i <= live.len(),
            r@.len() == i,
            forall|k: int|
                0 <= k < i ==> fleet_row(#[trigger] r@[k], spaces@, live@[k].0@, !live@[k].1),
        decreases live.len() - i,
    {
        let id = live[i].0.clone();
        let space = space_of(spaces, id.as_str());
        r.push(FleetProject { id, space, broken: !live[i].1 });
        i += 1;
    }
    let mut j: usize = 0;
    while j < broken.len()
        invariant
            j <= broken.len(),
            r@.len() == live@.len() + j,
            forall|k: int|
                0 <= k < live@.len() ==> fleet_row(
                    #[trigger] r@[k],
                    spaces@,
                    live@[k].0@,
                    !live@[k].1,
                ),
            forall|k: int|
                live@.len() <= k < r@.len() ==> fleet_row(
                    #[trigger] r@[k],
                    spaces@,
                    broken@[k - live@.len()]@,
                    true,
                ),
        decreases broken.len() - j,
    {
        let id = broken[j].clone();
        let space = space_of(spaces, id.as_str());
        r.push(FleetProject { id, space, broken: true });
        j += 1;
    }
    r
}

/// How the day's spend stands to the ceiling.
#[derive(Clone, Copy, Debug, PartialEq, Eq, Structural)]
pub enum HubAlert {
    /// It has come into the warning band.
    Fire,
    /// It has left the band.
    ReArm,
    /// There is no ceiling.
    Clear,
    /// Nothing has changed.
    Hold,
}

/// Whether people are told, and whether they have been told from then on.
pub open spec fn alerted(alert: HubAlert, warned: bool) -> (bool, bool) {
    match alert {
        HubAlert::Fire => (true, true),
        HubAlert::ReArm => (false, false),
        HubAlert::Clear => (false, false),
        HubAlert::Hold => (false, warned),
    }
}

/// Whether people are told, and whether they have been told from then on.
pub fn alert_step(alert: HubAlert, warned: bool) -> (r: (bool, bool))
    ensures
        r == alerted(alert, warned),
{
    match alert {
        HubAlert::Fire => (true, true),
        HubAlert::ReArm => (false, false),
        HubAlert::Clear => (false, false),
        HubAlert::Hold => (false, warned),
    }
}

/// The day of an instant: its first ten characters, where there are as many.
pub fn day(now: &str) -> (r: String)
    ensures
        r@ == if now@.len() >= 10 {
            now@.take(10)
        } else {
            Seq::empty()
        },
{
    if now.unicode_len() >= 10 {
        head(now, 10)
    } else {
        String::new()
    }
}

/// A project belongs to the last space that lists it, and to none where no space does.
pub proof fn a_project_belongs_to_the_last_space_that_lists_it(spaces: Seq<Space>, pid: Seq<char>)
    ensures
        match last_space(spaces, pid) {
            Some(id) => exists|i: int|
                0 <= i < spaces.len() && texts((#[trigger] spaces[i]).projects@).contains(pid)
                    && spaces[i].id == id && (forall|j: int|
                    i < j < spaces.len() ==> !texts((#[trigger] spaces[j]).projects@).contains(pid)),
            None => forall|j: int|
                0 <= j < spaces.len() ==> !texts((#[trigger] spaces[j]).projects@).contains(pid),
        },
    decreases spaces.len(),
{
    if spaces.len() > 0 {
        let init = spaces.drop_last();
        a_project_belongs_to_the_last_space_that_lists_it(init, pid);
        assert(forall|j: int| 0 <= j < init.len() ==> #[trigger] init[j] == spaces[j]);
        assert(spaces[spaces.len() - 1] == spaces.last());
        if last_space(spaces, pid) is None {
            assert forall|j: int| 0 <= j < spaces.len() implies !texts(
                (#[trigger] spaces[j]).projects@,
            ).contains(pid) by {
                if j < init.len() {
                    assert(!texts(init[j].projects@).contains(pid));
                }
            }
        }
        if !texts(spaces.last().projects@).contains(pid) && last_space(init, pid) is Some {
            let id = last_space(init, pid)->0;
            let i = choose|i: int|
                0 <= i < init.len() && texts((#[trigger] init[i]).projects@).contains(pid)
                    && init[i].id == id && (forall|j: int|
                    i < j < init.len() ==> !texts((#[trigger] init[j]).projects@).contains(pid));
            assert(texts(spaces[i].projects@).contains(pid));
            assert forall|j: int| i < j < spaces.len() implies !texts(
                (#[trigger] spaces[j]).projects@,
            ).contains(pid) by {
                if j < init.len() {
                    assert(!texts(init[j].projects@).contains(pid));
                }
            }
        }
    }
}

/// A row of the fleet is its project's: its identifier, the space that it belongs to, and whether
/// it could be read.
pub proof fn a_row_of_the_fleet_is_its_projects(
    p: FleetProject,
    spaces: Seq<Space>,
    id: Seq<char>,
    broken: bool,
)
    requires
        fleet_row(p, spaces, id, broken),
    ensures
        p.id@ == id,
        p.broken == broken,
        p.space is Some <==> exists|i: int|
            0 <= i < spaces.len() && texts((#[trigger] spaces[i]).projects@).contains(id),
{
    a_project_belongs_to_the_last_space_that_lists_it(spaces, id);
}

/// People are told exactly when the spend comes into the band. That they were told is remembered
/// while nothing changes, and forgotten once the spend leaves the band or there is no ceiling.
pub proof fn people_are_told_once_per_approach(alert: HubAlert, warned: bool)
    ensures
        alerted(alert, warned).0 <==> alert == HubAlert::Fire,
        alert == HubAlert::Fire ==> alerted(alert, warned).1,
        alert == HubAlert::Hold ==> alerted(alert, warned).1 == warned,
        alert == HubAlert::ReArm || alert == HubAlert::Clear ==> !alerted(alert, warned).1,
{
}

} // verus!
