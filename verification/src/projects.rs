//! Listing, creating, renaming and deleting projects.

use crate::factory::{FactoryError, NewProjectReq};
use crate::fleet::{broken_rule, may_see, river_scope, scope_rule, visible_broken, BrokenProject};
use crate::guards::AuthUser;
use crate::lists::{
    collect, collected_has_source, drop_text, dropped_text_is_gone, kept_is_filtered, other_rule,
    without_text,
};
use crate::project_import::{
    a_free_path_overlaps_no_tree, is_system_path, overlaps, owned_text, owner,
    refused_import_owned_by_registered, refused_import_path,
};
use crate::reply::{internal_error, json, not_found, plain, Refusal};
use crate::spaces::{
    add_project, find_space, forget_project, listed, space_index, space_index_is_first, well_kept,
    Space,
};
use crate::text::{
    any_control, contains, has_char, has_name, has_text, is_control_char, join3, nonblank, opt_text,
    owned, same, same_name, spec_any_control, spec_ascii_lower, spec_at, spec_contains,
    spec_has_name, spec_nonblank, spec_trim,
    spec_trimmed, texts, trim, trim_keeps, trimmed,
};
use vstd::prelude::*;

verus! {

/// What the dashboard asks for when it creates a project.
#[derive(Clone, Debug)]
pub struct CreateProjectReq {
    pub name: String,
    pub alias: Option<String>,
    pub existing: Option<String>,
    pub git_url: Option<String>,
    pub goal: Option<String>,
    pub space: Option<String>,
}

/// Where a creation is asked for: who asks, the spaces, whether projects can be built here, what
/// the path to adopt resolves to, and the trees that registered projects work in.
#[derive(Clone, Debug)]
pub struct CreateContext {
    pub is_super: bool,
    pub username: String,
    pub spaces: Vec<Space>,
    pub can_build: bool,
    pub resolved: Option<String>,
    pub registered: Vec<(String, String)>,
}

/// Whether an alias could leave the directory that its project is kept in.
pub open spec fn climbs(alias: Seq<char>) -> bool {
    alias.contains('/') || alias.contains('\\') || spec_contains(alias, ".."@) || (alias.len() > 0
        && alias[0] == '.')
}

/// Why an alias is refused. The control characters are looked for before the alias is trimmed.
pub open spec fn alias_refusal(alias: Option<String>) -> Option<(u16, Seq<char>, bool)> {
    match alias {
        None => None,
        Some(raw) => if spec_any_control(raw@) {
            Some((400, "alias must not contain control characters"@, true))
        } else if climbs(spec_trim(raw@)) {
            Some(
                (
                    400,
                    "alias \""@ + spec_trim(raw@)
                        + "\" must not contain '/', '\\', '..' or leading dots"@,
                    true,
                ),
            )
        } else {
            None
        },
    }
}

fn check_alias(alias: &Option<String>) -> (r: Option<Refusal>)
    ensures
        match r {
            Some(e) => alias_refusal(*alias) == Some(e.v()),
            None => alias_refusal(*alias) is None,
        },
{
    match alias {
        None => None,
        Some(raw) => {
            if any_control(raw.as_str()) {
                return Some(json(400, "alias must not contain control characters"));
            }
            let a = trim(raw.as_str());
            let s = a.as_str();
            if has_char(s, '/') || has_char(s, '\\') || contains(s, "..") || (!s.is_empty()
                && s.get_char(0) == '.') {
                let mut text = owned("alias \"");
                text.append(s);
                text.append("\" must not contain '/', '\\', '..' or leading dots");
                return Some(json(400, text.as_str()));
            }
            None
        },
    }
}

/// Why the space of a creation is refused. Once there are spaces, every project belongs to one.
pub open spec fn space_refusal(req: CreateProjectReq, c: CreateContext) -> Option<
    (u16, Seq<char>, bool),
> {
    match spec_trimmed(req.space) {
        Some(id) => match space_index(c.spaces@, id, 0) {
            None => Some((400, "unknown space: "@ + id, false)),
            Some(i) => if !c.is_super && !spec_has_name(c.spaces@[i].admins@, c.username@) {
                Some((403, "not an admin of this space"@, false))
            } else {
                None
            },
        },
        None => if c.spaces@.len() > 0 {
            Some((400, "space is required"@, false))
        } else {
            None
        },
    }
}

/// Why an adoption is refused: a system directory, or the tree of a registered project.
pub open spec fn import_refusal(req: CreateProjectReq, c: CreateContext) -> Option<
    (u16, Seq<char>, bool),
> {
    if spec_nonblank(req.existing) is None || c.resolved is None {
        None
    } else if is_system_path(c.resolved->0@) {
        Some((403, "cannot import from this path"@, false))
    } else {
        match owner(c.resolved->0@, c.registered@) {
            Some(id) => Some((409, owned_text(spec_trim(req.existing->0@), id@), true)),
            None => None,
        }
    }
}

/// Why a creation is refused before anything is built: the space, the hub, the name, the alias,
/// the path, in that order.
pub open spec fn create_refusal(req: CreateProjectReq, c: CreateContext) -> Option<
    (u16, Seq<char>, bool),
> {
    if space_refusal(req, c) is Some {
        space_refusal(req, c)
    } else if !c.can_build {
        Some((501, "onboarding is only available in hub mode"@, false))
    } else if spec_trim(req.name@).len() == 0 {
        Some((400, "name is required"@, false))
    } else if alias_refusal(req.alias) is Some {
        alias_refusal(req.alias)
    } else {
        import_refusal(req, c)
    }
}

fn check_space(req: &CreateProjectReq, c: &CreateContext) -> (r: Option<Refusal>)
    ensures
        match r {
            Some(e) => space_refusal(*req, *c) == Some(e.v()),
            None => space_refusal(*req, *c) is None,
        },
{
    match trimmed(&req.space) {
        Some(id) => match find_space(&c.spaces, id.as_str()) {
            None => {
                let mut text = owned("unknown space: ");
                text.append(id.as_str());
                Some(plain(400, text.as_str()))
            },
            Some(i) => if !c.is_super && !has_name(&c.spaces[i].admins, c.username.as_str()) {
                Some(plain(403, "not an admin of this space"))
            } else {
                None
            },
        },
        None => if c.spaces.len() > 0 {
            Some(plain(400, "space is required"))
        } else {
            None
        },
    }
}

fn check_import(req: &CreateProjectReq, c: &CreateContext) -> (r: Option<Refusal>)
    ensures
        match r {
            Some(e) => import_refusal(*req, *c) == Some(e.v()),
            None => import_refusal(*req, *c) is None,
        },
{
    match nonblank(&req.existing) {
        None => None,
        Some(path) => {
            let raw = trim(path.as_str());
            match refused_import_path(&c.resolved) {
                Some(e) => Some(e),
                None => refused_import_owned_by_registered(
                    raw.as_str(),
                    &c.resolved,
                    &c.registered,
                ),
            }
        },
    }
}

/// Admits the creation of a project. Every refusal comes before the factory runs: it sees a
/// trimmed name, an alias that is trimmed or absent, and what is not blank of the rest.
pub fn admit_create(req: &CreateProjectReq, c: &CreateContext) -> (r: Result<
    NewProjectReq,
    Refusal,
>)
    ensures
        match r {
            Ok(p) => {
                &&& create_refusal(*req, *c) is None
                &&& p.name@ == spec_trim(req.name@)
                &&& opt_text(p.alias) == spec_trimmed(req.alias)
                &&& p.existing == spec_nonblank(req.existing)
                &&& p.git_url == spec_nonblank(req.git_url)
                &&& p.goal == spec_nonblank(req.goal)
            },
            Err(e) => create_refusal(*req, *c) == Some(e.v()),
        },
{
    if let Some(e) = check_space(req, c) {
        return Err(e);
    }
    if !c.can_build {
        return Err(plain(501, "onboarding is only available in hub mode"));
    }
    let name = trim(req.name.as_str());
    if name.as_str().is_empty() {
        return Err(plain(400, "name is required"));
    }
    if let Some(e) = check_alias(&req.alias) {
        return Err(e);
    }
    if let Some(e) = check_import(req, c) {
        return Err(e);
    }
    Ok(
        NewProjectReq {
            name,
            alias: trimmed(&req.alias),
            existing: nonblank(&req.existing),
            git_url: nonblank(&req.git_url),
            goal: nonblank(&req.goal),
        },
    )
}

/// An alias that is let through names one directory and nothing else: it is not empty, holds no
/// separator and no control character, does not climb and is not hidden.
pub proof fn an_admitted_alias_stays_in_place(req: CreateProjectReq, c: CreateContext)
    requires
        create_refusal(req, c) is None,
        spec_trimmed(req.alias) is Some,
    ensures
        spec_trimmed(req.alias)->0.len() > 0,
        !climbs(spec_trimmed(req.alias)->0),
        !spec_any_control(spec_trimmed(req.alias)->0),
{
    let raw = req.alias->0@;
    let t = spec_trim(raw);
    assert forall|i: int| 0 <= i < t.len() implies !is_control_char(#[trigger] t[i]) by {
        trim_keeps(raw, i);
        let j = choose|j: int| 0 <= j < raw.len() && raw[j] == t[i];
        assert(!is_control_char(raw[j]));
    }
}

/// Nothing is adopted that a registered project works in, in whole or in part.
pub proof fn an_admitted_path_is_unowned(req: CreateProjectReq, c: CreateContext, i: int)
    requires
        create_refusal(req, c) is None,
        spec_nonblank(req.existing) is Some,
        c.resolved is Some,
        0 <= i < c.registered@.len(),
    ensures
        !is_system_path(c.resolved->0@),
        !overlaps(c.resolved->0@, c.registered@[i].1@),
{
    a_free_path_overlaps_no_tree(c.resolved->0@, c.registered@, i);
}

/// What the factory's failure is answered with.
pub fn create_failed(e: &FactoryError) -> (r: Refusal)
    ensures
        r.v() == (e.spec_status(), e.message@, true),
{
    e.refusal()
}

/// Registers a built project, last in the order, and in its space.
pub fn register_project(
    order: &mut Vec<String>,
    spaces: &mut Vec<Space>,
    id: &str,
    space: &Option<String>,
) -> (r: Result<(), Refusal>)
    ensures
        match r {
            Ok(_) => {
                &&& !texts(old(order)@).contains(id@)
                &&& texts(final(order)@) == texts(old(order)@).push(id@)
                &&& final(spaces)@.len() == old(spaces)@.len()
                &&& match spec_trimmed(*space) {
                    Some(sid) => match space_index(old(spaces)@, sid, 0) {
                        Some(i) => {
                            &&& forall|j: int|
                                0 <= j < old(spaces)@.len() && j != i ==> final(spaces)@[j] == old(
                                    spaces,
                                )@[j]
                            &&& final(spaces)@[i].same_but_projects(old(spaces)@[i])
                            &&& texts(final(spaces)@[i].projects@) == if texts(
                                old(spaces)@[i].projects@,
                            ).contains(id@) {
                                texts(old(spaces)@[i].projects@)
                            } else {
                                texts(old(spaces)@[i].projects@).push(id@)
                            }
                        },
                        None => final(spaces)@ == old(spaces)@,
                    },
                    None => final(spaces)@ == old(spaces)@,
                }
            },
            Err(e) => {
                &&& texts(old(order)@).contains(id@)
                &&& e.v() == (409u16, "project id already exists"@, false)
                &&& final(order)@ == old(order)@
                &&& final(spaces)@ == old(spaces)@
            },
        },
        well_kept(old(spaces)@) && !listed(old(spaces)@, id@) ==> well_kept(final(spaces)@),
{
    broadcast use crate::text::texts_push;

    if has_text(order, id) {
        return Err(plain(409, "project id already exists"));
    }
    order.push(owned(id));
    if let Some(sid) = trimmed(space) {
        if let Some(i) = find_space(spaces, sid.as_str()) {
            add_project(spaces, i, id);
        }
    }
    Ok(())
}

/// Checks a new display name: one to sixty characters once trimmed.
pub fn admit_rename(name: &str) -> (r: Result<String, Refusal>)
    ensures
        match r {
            Ok(n) => n@ == spec_trim(name@) && 1 <= n@.len() <= 60,
            Err(e) => (spec_trim(name@).len() == 0 || spec_trim(name@).len() > 60) && e.v() == (
                400u16,
                "name must be 1–60 chars"@,
                false,
            ),
        },
{
    let n = trim(name);
    let len: usize = n.as_str().unicode_len();
    if len == 0 || len > 60 {
        Err(plain(400, "name must be 1–60 chars"))
    } else {
        Ok(n)
    }
}

/// Admits the deletion of a project: where there are accounts, it takes one that may manage.
pub fn admit_delete(accounts: bool, may_manage: bool, exists_: bool) -> (r: Result<(), Refusal>)
    ensures
        match r {
            Ok(_) => (accounts ==> may_manage) && exists_,
            Err(e) => if accounts && !may_manage {
                e.v() == (403u16, "only an admin or manager may delete a project"@, false)
            } else {
                !exists_ && e.v() == (404u16, "no such project"@, false)
            },
        },
{
    if accounts && !may_manage {
        return Err(plain(403, "only an admin or manager may delete a project"));
    }
    if !exists_ {
        return Err(not_found());
    }
    Ok(())
}

/// Takes a project off the hub: out of the order and out of every space.
pub fn unregister_project(order: &mut Vec<String>, spaces: &mut Vec<Space>, id: &str)
    ensures
        final(order)@ == without_text(old(order)@, id@),
        final(spaces)@.len() == old(spaces)@.len(),
        forall|j: int|
            0 <= j < old(spaces)@.len() ==> {
                &&& (#[trigger] final(spaces)@[j]).same_but_projects(old(spaces)@[j])
                &&& final(spaces)@[j].projects@ == without_text(old(spaces)@[j].projects@, id@)
            },
        well_kept(old(spaces)@) ==> well_kept(final(spaces)@),
{
    drop_text(order, id);
    forget_project(spaces, id);
}

/// A project that was taken off is not in the order: deleting it again finds nothing.
pub proof fn a_deleted_project_is_gone(order: Seq<String>, id: Seq<char>)
    ensures
        !texts(without_text(order, id)).contains(id),
{
    dropped_text_is_gone(order, id);
}

/// The steps of a deletion that can fail.
#[derive(Clone, Copy, Debug, PartialEq, Eq, Structural)]
pub enum DeleteStage {
    /// The stored state is purged.
    Purge,
    /// The project leaves the hub's registry.
    Deregister,
    /// The workspace is removed from disk.
    CleanUp,
}

/// What follows a step of a deletion.
#[derive(Clone, Debug)]
pub enum DeleteNext {
    Continue(DeleteStage),
    Finished,
    Failed(Refusal),
}

/// The step that a deletion begins with: the stored state goes first, so that a project can
/// never come back from it under the same identifier.
pub fn first_stage() -> (r: DeleteStage)
    ensures
        r == DeleteStage::Purge,
{
    DeleteStage::Purge
}

/// The step that follows one, if any. A failed purge or deregistration ends the deletion; a
/// failed clean-up leaves only litter behind.
pub open spec fn next_stage(stage: DeleteStage, failed: bool, has_remover: bool) -> Option<
    DeleteStage,
> {
    match stage {
        DeleteStage::Purge => if failed {
            None
        } else if has_remover {
            Some(DeleteStage::Deregister)
        } else {
            Some(DeleteStage::CleanUp)
        },
        DeleteStage::Deregister => if failed {
            None
        } else {
            Some(DeleteStage::CleanUp)
        },
        DeleteStage::CleanUp => None,
    }
}

/// What follows a step.
pub fn after_stage(stage: DeleteStage, outcome: &Result<(), String>, has_remover: bool) -> (r:
    DeleteNext)
    ensures
        match next_stage(stage, outcome is Err, has_remover) {
            Some(next) => r == DeleteNext::Continue(next),
            None => if stage == DeleteStage::CleanUp {
                r is Finished
            } else {
                r is Failed && r->Failed_0.v() == (500u16, outcome->Err_0@, true)
            },
        },
{
    match stage {
        DeleteStage::Purge => match outcome {
            Ok(_) => if has_remover {
                DeleteNext::Continue(DeleteStage::Deregister)
            } else {
                DeleteNext::Continue(DeleteStage::CleanUp)
            },
            Err(why) => DeleteNext::Failed(internal_error(why.as_str())),
        },
        DeleteStage::Deregister => match outcome {
            Ok(_) => DeleteNext::Continue(DeleteStage::CleanUp),
            Err(why) => DeleteNext::Failed(internal_error(why.as_str())),
        },
        DeleteStage::CleanUp => DeleteNext::Finished,
    }
}

pub open spec fn stages_left(stage: DeleteStage) -> nat {
    match stage {
        DeleteStage::Purge => 2,
        DeleteStage::Deregister => 1,
        DeleteStage::CleanUp => 0,
    }
}

/// The steps that a deletion takes from `stage` on, given which of them fail.
pub open spec fn steps_taken(
    stage: DeleteStage,
    fails: spec_fn(DeleteStage) -> bool,
    has_remover: bool,
) -> Seq<DeleteStage>
    decreases stages_left(stage),
{
    match next_stage(stage, fails(stage), has_remover) {
        Some(next) => seq![stage] + steps_taken(next, fails, has_remover),
        None => seq![stage],
    }
}

/// A deletion whose purge fails stops there: no deregistration and no clean-up follow, so the
/// project is still registered and the deletion can be tried again. One whose purge succeeds
/// and whose deregistration does not fail runs to the end, the purge first.
pub proof fn a_failed_purge_ends_the_deletion(
    fails: spec_fn(DeleteStage) -> bool,
    has_remover: bool,
)
    ensures
        fails(DeleteStage::Purge) ==> steps_taken(DeleteStage::Purge, fails, has_remover) == seq![
            DeleteStage::Purge,
        ],
        !fails(DeleteStage::Purge) && has_remover && fails(DeleteStage::Deregister) ==> steps_taken(
            DeleteStage::Purge,
            fails,
            has_remover,
        ) == seq![DeleteStage::Purge, DeleteStage::Deregister],
        !fails(DeleteStage::Purge) && has_remover && !fails(DeleteStage::Deregister)
            ==> steps_taken(DeleteStage::Purge, fails, has_remover) == seq![
            DeleteStage::Purge,
            DeleteStage::Deregister,
            DeleteStage::CleanUp,
        ],
        !fails(DeleteStage::Purge) && !has_remover ==> steps_taken(
            DeleteStage::Purge,
            fails,
            has_remover,
        ) == seq![DeleteStage::Purge, DeleteStage::CleanUp],
{
    reveal_with_fuel(steps_taken, 4);
}

/// What is removed of a workspace.
#[derive(Clone, Copy, Debug, PartialEq, Eq, Structural)]
pub enum CleanUp {
    /// The link to the adopted codebase.
    Link,
    /// The state directory.
    State,
    /// The configuration file.
    Config,
    /// The directory itself, where nothing is left in it.
    DirIfEmpty,
    /// The directory with everything in it.
    Everything,
}

/// What a deletion removes from disk. Of an adopted codebase only what the hub put there goes.
pub fn clean_up_plan(codebase_linked: bool) -> (r: Vec<CleanUp>)
    ensures
        r@ == if codebase_linked {
            seq![CleanUp::Link, CleanUp::State, CleanUp::Config, CleanUp::DirIfEmpty]
        } else {
            seq![CleanUp::Everything]
        },
        codebase_linked ==> !r@.contains(CleanUp::Everything),
{
    if codebase_linked {
        vec![CleanUp::Link, CleanUp::State, CleanUp::Config, CleanUp::DirIfEmpty]
    } else {
        vec![CleanUp::Everything]
    }
}

/// The container that a deployed project runs in.
pub fn container_name(pid: &str) -> (r: String)
    ensures
        r@ == "cox-"@ + pid@ + "-codebase-app-1"@,
{
    join3("cox-", pid, "-codebase-app-1")
}

/// Whether a failed stop of the container is worth a warning: that there was none is not.
pub fn stop_is_worth_a_warning(succeeded: bool, stderr: &str) -> (b: bool)
    ensures
        b == (!succeeded && !spec_contains(stderr@, "No such container"@)),
{
    !succeeded && !contains(stderr, "No such container")
}

/// A project that is loaded, and what could be read of its state.
#[derive(Clone, Debug)]
pub struct ListedProject {
    pub id: String,
    pub name: String,
    pub alias: String,
    /// The version and the number of tickets.
    pub state: Option<(String, usize)>,
    pub mode: String,
}

/// A line of the registry.
#[derive(Clone, Debug)]
pub struct ProjectRow {
    pub id: String,
    pub name: String,
    pub alias: String,
    pub version: String,
    pub tickets: usize,
    pub mode: String,
}

/// Whether a line is that of the project.
pub open spec fn row_of(r: ProjectRow, p: ListedProject) -> bool {
    &&& r.id == p.id
    &&& r.name == p.name
    &&& r.alias == p.alias
    &&& r.mode == p.mode
    &&& match p.state {
        Some((version, tickets)) => r.version == version && r.tickets == tickets,
        None => r.version@ == "0.0.0"@ && r.tickets == 0,
    }
}

pub open spec fn loaded_project(all: Seq<ListedProject>, id: Seq<char>) -> Option<ListedProject>
    decreases all.len(),
{
    if all.len() == 0 {
        None
    } else if all[0].id@ == id {
        Some(all[0])
    } else {
        loaded_project(all.skip(1), id)
    }
}

/// The loaded projects among the registered ones, in their order.
pub open spec fn registry(ids: Seq<String>, all: Seq<ListedProject>) -> Seq<ListedProject>
    decreases ids.len(),
{
    if ids.len() == 0 {
        Seq::empty()
    } else {
        let before = registry(ids.drop_last(), all);
        match loaded_project(all, ids.last()@) {
            Some(p) => before.push(p),
            None => before,
        }
    }
}

fn find_loaded(all: &Vec<ListedProject>, id: &str) -> (r: Option<usize>)
    ensures
        match r {
            Some(i) => i < all.len() && loaded_project(all@, id@) == Some(all@[i as int]),
            None => loaded_project(all@, id@) is None,
        },
{
    let mut i: usize = 0;
    assert(all@.skip(0) =~= all@);
    while i < all.len()
        invariant
            i <= all.len(),
            loaded_project(all@, id@) == loaded_project(all@.skip(i as int), id@),
        decreases all.len() - i,
    {
        if same(all[i].id.as_str(), id) {
            return Some(i);
        }
        assert(all@.skip(i as int).skip(1) =~= all@.skip(i + 1));
        i += 1;
    }
    None
}

/// Lists the registry as the caller may see it: the loaded projects in the order of registration,
/// and those that could not be loaded.
pub fn list_projects(
    user: Option<&AuthUser>,
    order: &Vec<String>,
    all: &Vec<ListedProject>,
    broken: &Vec<BrokenProject>,
) -> (r: (Vec<ProjectRow>, Vec<BrokenProject>))
    ensures
        ({
            let shown = registry(collect(order@, scope_rule(user)), all@);
            &&& r.0@.len() == shown.len()
            &&& forall|i: int| 0 <= i < shown.len() ==> row_of(#[trigger] r.0@[i], shown[i])
        }),
        r.1@ == collect(broken@, broken_rule(user, None)),
{
    let ids = river_scope(user, order);
    let mut rows: Vec<ProjectRow> = Vec::new();
    let mut i: usize = 0;
    assert(ids@.take(0) =~= Seq::empty());
    while i < ids.len()
        invariant
            i <= ids.len(),
            rows@.len() == registry(ids@.take(i as int), all@).len(),
            forall|k: int|
                0 <= k < rows@.len() ==> row_of(
                    #[trigger] rows@[k],
                    registry(ids@.take(i as int), all@)[k],
                ),
        decreases ids.len() - i,
    {
        assert(ids@.take(i + 1).drop_last() =~= ids@.take(i as int));
        if let Some(k) = find_loaded(all, ids[i].as_str()) {
            let p = &all[k];
            let (version, tickets) = match &p.state {
                Some((v, n)) => (v.clone(), *n),
                None => (owned("0.0.0"), 0),
            };
            rows.push(
                ProjectRow {
                    id: p.id.clone(),
                    name: p.name.clone(),
                    alias: p.alias.clone(),
                    version,
                    tickets,
                    mode: p.mode.clone(),
                },
            );
        }
        i += 1;
    }
    assert(ids@.take(ids@.len() as int) =~= ids@);
    (rows, visible_broken(user, broken, None))
}

proof fn registered_is_among(ids: Seq<String>, all: Seq<ListedProject>, k: int)
    requires
        0 <= k < registry(ids, all).len(),
    ensures
        exists|i: int| 0 <= i < ids.len() && (#[trigger] ids[i])@ == registry(ids, all)[k].id@,
    decreases ids.len(),
{
    let init = ids.drop_last();
    let before = registry(init, all);
    if k < before.len() {
        registered_is_among(init, all, k);
        let i = choose|i: int| 0 <= i < init.len() && (#[trigger] init[i])@ == before[k].id@;
        assert(ids[i]@ == before[k].id@);
    } else {
        loaded_has_its_id(all, ids.last()@);
        assert(ids[ids.len() - 1]@ == registry(ids, all)[k].id@);
    }
}

proof fn loaded_has_its_id(all: Seq<ListedProject>, id: Seq<char>)
    ensures
        loaded_project(all, id) is Some ==> loaded_project(all, id)->0.id@ == id,
    decreases all.len(),
{
    if all.len() > 0 && all[0].id@ != id {
        loaded_has_its_id(all.skip(1), id);
    }
}

/// The registry shows nobody a project that they may not see.
pub proof fn a_listing_never_leaks(
    user: Option<&AuthUser>,
    order: Seq<String>,
    all: Seq<ListedProject>,
    k: int,
)
    requires
        0 <= k < registry(collect(order, scope_rule(user)), all).len(),
    ensures
        may_see(user, registry(collect(order, scope_rule(user)), all)[k].id@),
{
    let ids = collect(order, scope_rule(user));
    registered_is_among(ids, all, k);
    let i = choose|i: int|
        0 <= i < ids.len() && (#[trigger] ids[i])@ == registry(ids, all)[k].id@;
    collected_has_source(order, scope_rule(user), i);
}

/// Once there are spaces, every project belongs to one: a creation that is let through names a
/// space that exists, and who asks owns the hub or administers that space. A space that is named
/// has to exist in any case.
pub proof fn a_project_belongs_to_a_space(req: CreateProjectReq, c: CreateContext)
    requires
        create_refusal(req, c) is None,
    ensures
        c.spaces@.len() > 0 || (req.space is Some && spec_trim(req.space->0@).len() > 0) ==> {
            &&& req.space is Some
            &&& exists|i: int|
                0 <= i < c.spaces@.len() && (#[trigger] c.spaces@[i]).id@ == spec_trim(
                    req.space->0@,
                ) && (c.is_super || exists|j: int|
                    0 <= j < c.spaces@[i].admins@.len() && spec_ascii_lower(
                        (#[trigger] c.spaces@[i].admins@[j])@,
                    ) == spec_ascii_lower(c.username@))
        },
{
    if req.space is Some && spec_trim(req.space->0@).len() > 0 {
        let id = spec_trim(req.space->0@);
        space_index_is_first(c.spaces@, id, 0);
        let i = space_index(c.spaces@, id, 0)->0;
        assert(c.spaces@[i].id@ == id);
        if !c.is_super {
            let admins = c.spaces@[i].admins@;
            let j = choose|j: int|
                0 <= j < admins.len() && same_name((#[trigger] admins[j])@, c.username@);
            assert(spec_ascii_lower(c.spaces@[i].admins@[j]@) == spec_ascii_lower(c.username@));
        }
    }
}

/// What reaches the factory is sound: a name that is not blank, on a hub that can build, under an
/// alias without control characters that names one directory below the base.
pub proof fn the_factory_gets_a_sound_request(req: CreateProjectReq, c: CreateContext)
    requires
        create_refusal(req, c) is None,
    ensures
        c.can_build,
        spec_trim(req.name@).len() > 0,
        req.alias is Some ==> {
            let alias = spec_trim(req.alias->0@);
            &&& forall|i: int|
                0 <= i < req.alias->0@.len() ==> (#[trigger] req.alias->0@[i]) as int > 0x1F && !(
                0x7F <= req.alias->0@[i] as int <= 0x9F)
            &&& !alias.contains('/')
            &&& !alias.contains('\\')
            &&& forall|i: int|
                0 <= i < alias.len() - 1 ==> !(#[trigger] alias[i] == '.' && alias[i + 1] == '.')
            &&& alias.len() > 0 ==> alias[0] != '.'
        },
{
    if req.alias is Some {
        let raw = req.alias->0@;
        let alias = spec_trim(raw);
        assert(!spec_any_control(raw));
        assert forall|i: int| 0 <= i < raw.len() implies (#[trigger] raw[i]) as int > 0x1F && !(0x7F
            <= raw[i] as int <= 0x9F) by {
            assert(!is_control_char(raw[i]));
        }
        assert(!climbs(alias));
        reveal_strlit("..");
        assert forall|i: int| 0 <= i < alias.len() - 1 implies !(#[trigger] alias[i] == '.' && alias[
        i + 1] == '.') by {
            if alias[i] == '.' && alias[i + 1] == '.' {
                assert(alias.subrange(i, i + 2) =~= ".."@);
                assert(spec_at(alias, ".."@, i));
            }
        }
    }
}

/// Nothing else stops a creation: where the space is right, the hub builds, there is a name, the
/// alias stays in place and the tree is free, it is let through.
pub proof fn a_sound_creation_is_let_through(req: CreateProjectReq, c: CreateContext)
    requires
        c.can_build,
        spec_trim(req.name@).len() > 0,
        req.alias is Some ==> {
            &&& forall|i: int|
                0 <= i < req.alias->0@.len() ==> (#[trigger] req.alias->0@[i]) as int > 0x1F && !(
                0x7F <= req.alias->0@[i] as int <= 0x9F)
            &&& !spec_trim(req.alias->0@).contains('/')
            &&& !spec_trim(req.alias->0@).contains('\\')
            &&& !spec_trim(req.alias->0@).contains('.')
        },
        req.existing is None || spec_trim(req.existing->0@).len() == 0,
        if req.space is Some && spec_trim(req.space->0@).len() > 0 {
            exists|i: int|
                0 <= i < c.spaces@.len() && (#[trigger] c.spaces@[i]).id@ == spec_trim(
                    req.space->0@,
                ) && c.is_super
        } else {
            c.spaces@.len() == 0
        },
    ensures
        create_refusal(req, c) is None,
{
    if req.alias is Some {
        let raw = req.alias->0@;
        let alias = spec_trim(raw);
        if spec_any_control(raw) {
            let i = choose|i: int| 0 <= i < raw.len() && is_control_char(#[trigger] raw[i]);
            assert(raw[i] as int > 0x1F);
        }
        reveal_strlit("..");
        if spec_contains(alias, ".."@) {
            let i = choose|i: int| spec_at(alias, ".."@, i);
            assert(alias.subrange(i, i + 2)[0] == '.');
            assert(alias[i] == '.');
        }
        if alias.len() > 0 && alias[0] == '.' {
            assert(alias.contains(alias[0]));
        }
    }
    if req.space is Some && spec_trim(req.space->0@).len() > 0 {
        space_index_is_first(c.spaces@, spec_trim(req.space->0@), 0);
    }
}

/// What a refusal says of a creation: it is refused for its space before anything else, and an
/// outsider is told so.
pub proof fn a_creation_is_refused_for_its_space_first(req: CreateProjectReq, c: CreateContext)
    ensures
        c.spaces@.len() > 0 && (req.space is None || spec_trim(req.space->0@).len() == 0)
            ==> create_refusal(req, c) == Some((400u16, "space is required"@, false)),
        req.space is Some && spec_trim(req.space->0@).len() > 0 && (forall|i: int|
            0 <= i < c.spaces@.len() ==> (#[trigger] c.spaces@[i]).id@ != spec_trim(req.space->0@))
            ==> create_refusal(req, c) == Some(
            (400u16, "unknown space: "@ + spec_trim(req.space->0@), false),
        ),
        req.space is Some && spec_trim(req.space->0@).len() > 0 && !c.is_super && (exists|i: int|
            0 <= i < c.spaces@.len() && (#[trigger] c.spaces@[i]).id@ == spec_trim(req.space->0@))
            && (forall|i: int, j: int|
            0 <= i < c.spaces@.len() && 0 <= j < c.spaces@[i].admins@.len() ==> spec_ascii_lower(
                (#[trigger] c.spaces@[i].admins@[j])@,
            ) != spec_ascii_lower(c.username@)) ==> create_refusal(req, c) == Some(
            (403u16, "not an admin of this space"@, false),
        ),
{
    if req.space is Some {
        space_index_is_first(c.spaces@, spec_trim(req.space->0@), 0);
        if let Some(i) = space_index(c.spaces@, spec_trim(req.space->0@), 0) {
            if spec_has_name(c.spaces@[i].admins@, c.username@) {
                let j = choose|j: int|
                    0 <= j < c.spaces@[i].admins@.len() && same_name(
                        (#[trigger] c.spaces@[i].admins@[j])@,
                        c.username@,
                    );
                assert(spec_ascii_lower(c.spaces@[i].admins@[j]@) == spec_ascii_lower(c.username@));
            }
        }
    }
}

/// Taking a project off leaves the others where they were, in their order.
pub proof fn the_other_projects_stay(order: Seq<String>, id: Seq<char>)
    ensures
        without_text(order, id) == order.filter(|x: String| x@ != id),
{
    kept_is_filtered(order, other_rule(id), |x: String| x@ != id);
}

/// The registry lists every registered project that is loaded and that the caller may see, in the
/// order of registration.
pub proof fn the_registry_lists_what_is_loaded(ids: Seq<String>, all: Seq<ListedProject>, i: int)
    requires
        0 <= i < ids.len(),
        exists|j: int| 0 <= j < all.len() && (#[trigger] all[j]).id@ == ids[i]@,
    ensures
        exists|k: int| 0 <= k < registry(ids, all).len() && (#[trigger] registry(ids, all)[k]).id@
            == ids[i]@,
        registry(ids, all).len() == ids.filter(
            |id: String| exists|j: int| 0 <= j < all.len() && (#[trigger] all[j]).id@ == id@,
        ).len(),
    decreases ids.len(),
{
    reveal(Seq::filter);
    let keep = |id: String| exists|j: int| 0 <= j < all.len() && (#[trigger] all[j]).id@ == id@;
    registry_counts(ids, all);
    loaded_is_found(all, ids.last()@);
    loaded_has_its_id(all, ids.last()@);
    let r = registry(ids, all);
    if i < ids.len() - 1 {
        let init = ids.drop_last();
        the_registry_lists_what_is_loaded(init, all, i);
        let before = registry(init, all);
        let k = choose|k: int| 0 <= k < before.len() && (#[trigger] before[k]).id@ == ids[i]@;
        assert(r[k].id@ == ids[i]@);
    } else {
        assert(r[r.len() - 1].id@ == ids[i]@);
    }
}

proof fn registry_counts(ids: Seq<String>, all: Seq<ListedProject>)
    ensures
        registry(ids, all).len() == ids.filter(
            |id: String| exists|j: int| 0 <= j < all.len() && (#[trigger] all[j]).id@ == id@,
        ).len(),
    decreases ids.len(),
{
    reveal(Seq::filter);
    if ids.len() > 0 {
        registry_counts(ids.drop_last(), all);
        loaded_is_found(all, ids.last()@);
    }
}

proof fn loaded_is_found(all: Seq<ListedProject>, id: Seq<char>)
    ensures
        match loaded_project(all, id) {
            Some(p) => exists|j: int|
                0 <= j < all.len() && (#[trigger] all[j]).id@ == id && all[j] == p && forall|l: int|
                    0 <= l < j ==> (#[trigger] all[l]).id@ != id,
            None => forall|j: int| 0 <= j < all.len() ==> (#[trigger] all[j]).id@ != id,
        },
    decreases all.len(),
{
    if all.len() > 0 {
        let rest = all.skip(1);
        loaded_is_found(rest, id);
        assert(forall|j: int| 0 <= j < rest.len() ==> #[trigger] rest[j] == all[j + 1]);
        assert(forall|j: int| 1 <= j < all.len() ==> #[trigger] all[j] == rest[j - 1]);
        if all[0].id@ != id && loaded_project(rest, id) is Some {
            let j = choose|j: int|
                0 <= j < rest.len() && (#[trigger] rest[j]).id@ == id && rest[j]
                    == loaded_project(rest, id)->0 && forall|l: int|
                    0 <= l < j ==> (#[trigger] rest[l]).id@ != id;
            assert(all[j + 1].id@ == id);
        }
    }
}

/// The step that follows one: nothing after a failure but of the clean-up, the registry after the
/// stored state where there is one, and the disk last of all.
pub proof fn the_disk_is_cleaned_last(stage: DeleteStage, failed: bool, has_remover: bool)
    ensures
        failed ==> next_stage(stage, failed, has_remover) is None,
        next_stage(stage, failed, has_remover) == Some(DeleteStage::Deregister) <==> stage
            == DeleteStage::Purge && !failed && has_remover,
        next_stage(stage, failed, has_remover) == Some(DeleteStage::CleanUp) <==> !failed && (stage
            == DeleteStage::Deregister || (stage == DeleteStage::Purge && !has_remover)),
        next_stage(stage, failed, has_remover) != Some(DeleteStage::Purge),
{
}

/// A project is listed under its own names; one whose state could not be read is listed without a
/// version and without tickets, never left out.
pub proof fn a_project_is_listed_as_it_is(r: ProjectRow, p: ListedProject)
    requires
        row_of(r, p),
    ensures
        r.id == p.id && r.name == p.name && r.alias == p.alias && r.mode == p.mode,
        p.state is None ==> r.version@ == "0.0.0"@ && r.tickets == 0,
        match p.state {
            Some((version, tickets)) => r.version == version && r.tickets == tickets,
            None => true,
        },
{
}

/// A tree that a registered project owns is answered as a conflict, a system directory as
/// forbidden; where nothing is adopted there is nothing to refuse.
pub proof fn an_owned_tree_is_a_conflict(req: CreateProjectReq, c: CreateContext)
    ensures
        spec_nonblank(req.existing) is None ==> import_refusal(req, c) is None,
        match import_refusal(req, c) {
            Some((status, _, as_json)) => {
                &&& c.resolved is Some
                &&& status == 403 <==> is_system_path(c.resolved->0@)
                &&& status == 409 <==> !is_system_path(c.resolved->0@)
                &&& as_json <==> status == 409
                &&& status == 409 ==> owner(c.resolved->0@, c.registered@) is Some
            },
            None => true,
        },
{
}

} // verus!
