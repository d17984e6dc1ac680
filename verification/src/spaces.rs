//! Spaces: groups of projects and members under their own admins.

use crate::lists::{drop_text, dropped_text_is_gone, dropping_keeps_others, without_text};
use crate::text::{has_text, owned, same, texts};
use vstd::prelude::*;

verus! {

/// A space. The monthly spend cap is kept beside it.
#[derive(Clone, Debug)]
pub struct Space {
    pub id: String,
    pub name: String,
    pub tagline: String,
    pub admins: Vec<String>,
    pub projects: Vec<String>,
    pub members: Vec<String>,
    pub created_by: String,
    pub created_at: String,
}

impl Space {
    /// Whether the two differ in their projects alone.
    pub open spec fn same_but_projects(self, other: Space) -> bool {
        self == (Space { projects: self.projects, ..other })
    }
}

/// Whether no project is listed by two spaces.
pub open spec fn exclusive(spaces: Seq<Space>) -> bool {
    forall|i: int, j: int, p: Seq<char>|
        0 <= i < spaces.len() && 0 <= j < spaces.len() && i != j && (#[trigger] texts(
            spaces[i].projects@,
        ).contains(p)) ==> !(#[trigger] texts(spaces[j].projects@).contains(p))
}

/// Whether the registry of spaces is in order: no two share an identifier, and a project belongs
/// to one space at most.
pub open spec fn well_kept(spaces: Seq<Space>) -> bool {
    &&& exclusive(spaces)
    &&& forall|i: int, j: int|
        0 <= i < j < spaces.len() ==> (#[trigger] spaces[i]).id@ != (#[trigger] spaces[j]).id@
}

/// The position of the first space with that identifier, from `i` on.
pub open spec fn space_index(spaces: Seq<Space>, id: Seq<char>, i: int) -> Option<int>
    decreases spaces.len() - i,
{
    if i < 0 || i >= spaces.len() {
        None
    } else if spaces[i].id@ == id {
        Some(i)
    } else {
        space_index(spaces, id, i + 1)
    }
}

/// Finds a space by its identifier.
pub fn find_space(spaces: &Vec<Space>, id: &str) -> (r: Option<usize>)
    ensures
        match r {
            Some(i) => i < spaces.len() && space_index(spaces@, id@, 0) == Some(i as int)
                && spaces@[i as int].id@ == id@,
            None => space_index(spaces@, id@, 0) is None,
        },
{
    let mut i: usize = 0;
    while i < spaces.len()
        invariant
            i <= spaces.len(),
            space_index(spaces@, id@, 0) == space_index(spaces@, id@, i as int),
        decreases spaces.len() - i,
    {
        if same(spaces[i].id.as_str(), id) {
            return Some(i);
        }
        i += 1;
    }
    None
}

/// Where the search from `i` on finds no space of that identifier, none has it.
pub proof fn an_absent_identifier_is_nowhere(spaces: Seq<Space>, id: Seq<char>, i: int, k: int)
    requires
        0 <= i <= k < spaces.len(),
        space_index(spaces, id, i) is None,
    ensures
        spaces[k].id@ != id,
    decreases k - i,
{
    if i < k {
        an_absent_identifier_is_nowhere(spaces, id, i + 1, k);
    }
}

/// Whether some space lists the project.
pub open spec fn listed(spaces: Seq<Space>, project: Seq<char>) -> bool {
    exists|i: int| 0 <= i < spaces.len() && texts((#[trigger] spaces[i]).projects@).contains(project)
}

/// A project that no space lists can be filed under one, and still belongs to one space only.
pub proof fn a_free_project_can_be_added(
    before: Seq<Space>,
    after: Seq<Space>,
    at: int,
    project: Seq<char>,
)
    requires
        well_kept(before),
        !listed(before, project),
        0 <= at < before.len(),
        after.len() == before.len(),
        forall|j: int| 0 <= j < before.len() && j != at ==> after[j] == before[j],
        after[at].same_but_projects(before[at]),
        texts(after[at].projects@) == texts(before[at].projects@).push(project),
    ensures
        well_kept(after),
{
    assert forall|i: int, j: int, p: Seq<char>|
        0 <= i < after.len() && 0 <= j < after.len() && i != j && (#[trigger] texts(
            after[i].projects@,
        ).contains(p)) implies !(#[trigger] texts(after[j].projects@).contains(p)) by {
        let was = texts(before[at].projects@);
        assert(!texts(before[i].projects@).contains(project));
        assert(!texts(before[j].projects@).contains(project));
        if p != project {
            assert(was.push(project).contains(p) == was.contains(p)) by {
                if was.contains(p) {
                    let n = choose|n: int| 0 <= n < was.len() && was[n] == p;
                    assert(was.push(project)[n] == p);
                }
            }
            assert(texts(before[i].projects@).contains(p));
            assert(!texts(before[j].projects@).contains(p));
        }
    }
    assert forall|i: int, j: int| 0 <= i < j < after.len() implies (#[trigger] after[i]).id@ != (
    #[trigger] after[j]).id@ by {
        assert(before[i].id@ != before[j].id@);
    }
}

/// Removing a project from every space leaves the registry in order.
pub proof fn forgetting_keeps_order(before: Seq<Space>, after: Seq<Space>, project: Seq<char>)
    requires
        well_kept(before),
        after.len() == before.len(),
        forall|j: int|
            0 <= j < before.len() ==> {
                &&& (#[trigger] after[j]).same_but_projects(before[j])
                &&& after[j].projects@ == without_text(before[j].projects@, project)
            },
    ensures
        well_kept(after),
{
    assert forall|i: int, j: int, p: Seq<char>|
        0 <= i < after.len() && 0 <= j < after.len() && i != j && (#[trigger] texts(
            after[i].projects@,
        ).contains(p)) implies !(#[trigger] texts(after[j].projects@).contains(p)) by {
        dropped_text_is_gone(before[i].projects@, project);
        if p != project {
            dropping_keeps_others(before[i].projects@, project, p);
            dropping_keeps_others(before[j].projects@, project, p);
            assert(texts(before[i].projects@).contains(p));
        }
    }
    assert forall|i: int, j: int| 0 <= i < j < after.len() implies (#[trigger] after[i]).id@ != (
    #[trigger] after[j]).id@ by {
        assert(before[i].id@ != before[j].id@);
    }
}

/// Adds a project to a space, once.
pub fn add_project(spaces: &mut Vec<Space>, i: usize, project: &str)
    requires
        i < old(spaces)@.len(),
    ensures
        final(spaces)@.len() == old(spaces)@.len(),
        forall|j: int|
            0 <= j < old(spaces)@.len() && j != i ==> final(spaces)@[j] == old(spaces)@[j],
        final(spaces)@[i as int].same_but_projects(old(spaces)@[i as int]),
        texts(final(spaces)@[i as int].projects@) == if texts(
            old(spaces)@[i as int].projects@,
        ).contains(project@) {
            texts(old(spaces)@[i as int].projects@)
        } else {
            texts(old(spaces)@[i as int].projects@).push(project@)
        },
        well_kept(old(spaces)@) && !listed(old(spaces)@, project@) ==> well_kept(final(spaces)@),
{
    broadcast use crate::text::texts_push;

    if !has_text(&spaces[i].projects, project) {
        let s = owned(project);
        spaces[i].projects.push(s);
    }
    proof {
        if well_kept(old(spaces)@) && !listed(old(spaces)@, project@) {
            a_free_project_can_be_added(old(spaces)@, spaces@, i as int, project@);
        }
    }
}

/// Removes a project from every space.
pub fn forget_project(spaces: &mut Vec<Space>, project: &str)
    ensures
        final(spaces)@.len() == old(spaces)@.len(),
        forall|j: int|
            0 <= j < old(spaces)@.len() ==> {
                &&& (#[trigger] final(spaces)@[j]).same_but_projects(old(spaces)@[j])
                &&& final(spaces)@[j].projects@ == without_text(
                    old(spaces)@[j].projects@,
                    project@,
                )
            },
        well_kept(old(spaces)@) ==> well_kept(final(spaces)@),
{
    let mut i: usize = 0;
    while i < spaces.len()
        invariant
            i <= spaces.len(),
            spaces@.len() == old(spaces)@.len(),
            forall|j: int| i <= j < spaces@.len() ==> #[trigger] spaces@[j] == old(spaces)@[j],
            forall|j: int|
                0 <= j < i ==> {
                    &&& (#[trigger] spaces@[j]).same_but_projects(old(spaces)@[j])
                    &&& spaces@[j].projects@ == without_text(old(spaces)@[j].projects@, project@)
                },
        decreases spaces.len() - i,
    {
        drop_text(&mut spaces[i].projects, project);
        i += 1;
    }
    proof {
        if well_kept(old(spaces)@) {
            forgetting_keeps_order(old(spaces)@, spaces@, project@);
        }
    }
}

/// No space lists a project that was removed from every space.
pub proof fn a_forgotten_project_is_listed_nowhere(
    before: Seq<Space>,
    after: Seq<Space>,
    project: Seq<char>,
)
    requires
        after.len() == before.len(),
        forall|j: int|
            0 <= j < before.len() ==> (#[trigger] after[j]).projects@ == without_text(
                before[j].projects@,
                project,
            ),
    ensures
        !listed(after, project),
{
    assert forall|i: int| 0 <= i < after.len() implies !texts(
        (#[trigger] after[i]).projects@,
    ).contains(project) by {
        dropped_text_is_gone(before[i].projects@, project);
    }
}

/// The search for a space finds the first one that has the identifier, and finds none only where
/// none has it.
pub proof fn space_index_is_first(spaces: Seq<Space>, id: Seq<char>, i: int)
    requires
        0 <= i,
    ensures
        match space_index(spaces, id, i) {
            Some(k) => i <= k < spaces.len() && spaces[k].id@ == id && forall|j: int|
                i <= j < k ==> (#[trigger] spaces[j]).id@ != id,
            None => forall|j: int| i <= j < spaces.len() ==> (#[trigger] spaces[j]).id@ != id,
        },
    decreases spaces.len() - i,
{
    if i < spaces.len() && spaces[i].id@ != id {
        space_index_is_first(spaces, id, i + 1);
    }
}

} // verus!
