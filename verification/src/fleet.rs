//! The fleet river: every agent's activity, across all the projects that the caller may see.

use crate::guards::{AuthRole, AuthUser};
use crate::lists::{collect, collect_step, collected_has_source, kept_is_filtered};
use crate::spaces::{find_space, space_index, space_index_is_first, Space};
use crate::text::{
    ascii_upper, copy_texts, has_text, opt_text, same, spec_ascii_upper, spec_starts, spec_trim,
    starts_with, texts, trim,
};
use vstd::prelude::*;
use vstd::slice::slice_subrange;

verus! {

/// How far back a client that connects is caught up.
pub const RIVER_BACKLOG: usize = 20;

/// What an empty river says.
pub const EMPTY_RIVER_MESSAGE: &'static str =
    "No agent activity is flowing for this view yet — the river starts as soon as a registered project matches.";

/// One line of a project's activity.
#[derive(Clone, Debug)]
pub struct ActivityEntry {
    pub at: String,
    pub agent: String,
    pub action: String,
    pub ticket: Option<String>,
}

impl ActivityEntry {
    /// What the line says.
    pub open spec fn v(self) -> (Seq<char>, Seq<char>, Seq<char>, Option<Seq<char>>) {
        (self.at@, self.agent@, self.action@, opt_text(self.ticket))
    }

    pub fn copy(&self) -> (r: ActivityEntry)
        ensures
            r == *self,
    {
        ActivityEntry {
            at: self.at.clone(),
            agent: self.agent.clone(),
            action: self.action.clone(),
            ticket: match &self.ticket {
                Some(t) => Some(t.clone()),
                None => None,
            },
        }
    }
}

fn same_opt(a: &Option<String>, b: &Option<String>) -> (r: bool)
    ensures
        r == (opt_text(*a) == opt_text(*b)),
{
    match (a, b) {
        (Some(x), Some(y)) => same(x.as_str(), y.as_str()),
        (None, None) => true,
        (Some(_), None) => false,
        (None, Some(_)) => false,
    }
}

fn same_entry(a: &ActivityEntry, b: &ActivityEntry) -> (r: bool)
    ensures
        r == (a.v() == b.v()),
{
    same(a.at.as_str(), b.at.as_str()) && same(a.agent.as_str(), b.agent.as_str()) && same(
        a.action.as_str(),
        b.action.as_str(),
    ) && same_opt(&a.ticket, &b.ticket)
}

/// A registered project that could not be loaded.
#[derive(Clone, Debug)]
pub struct BrokenProject {
    pub id: String,
    pub config_path: String,
    pub error: String,
}

impl BrokenProject {
    fn copy(&self) -> (r: BrokenProject)
        ensures
            r == *self,
    {
        BrokenProject {
            id: self.id.clone(),
            config_path: self.config_path.clone(),
            error: self.error.clone(),
        }
    }
}

/// Whether the account may see the project: it sees all, or is a member. Without accounts
/// (`None`) everything is seen.
pub open spec fn may_see(user: Option<&AuthUser>, id: Seq<char>) -> bool {
    match user {
        None => true,
        Some(u) => u.role.spec_sees_all() || texts(u.projects@).contains(id),
    }
}

pub open spec fn scope_rule(user: Option<&AuthUser>) -> spec_fn(String) -> Option<String> {
    |id: String|
        if may_see(user, id@) {
            Some(id)
        } else {
            None
        }
}

/// Whether the caller may see a project that could not be loaded: the rule of [`river_scope`].
pub fn may_see_broken(user: Option<&AuthUser>, id: &str) -> (b: bool)
    ensures
        b == may_see(user, id@),
{
    match user {
        None => true,
        Some(u) => u.role.sees_all() || has_text(&u.projects, id),
    }
}

/// The registered projects that the caller may see, in the order of registration.
pub fn river_scope(user: Option<&AuthUser>, registered: &Vec<String>) -> (r: Vec<String>)
    ensures
        r@ == collect(registered@, scope_rule(user)),
{
    let mut r: Vec<String> = Vec::new();
    let ghost f = scope_rule(user);
    let mut i: usize = 0;
    assert(registered@.take(0) =~= Seq::empty());
    while i < registered.len()
        invariant
            i <= registered.len(),
            f == scope_rule(user),
            r@ == collect(registered@.take(i as int), f),
        decreases registered.len() - i,
    {
        proof {
            collect_step(registered@, f, i as int);
        }
        if may_see_broken(user, registered[i].as_str()) {
            let id = registered[i].clone();
            r.push(id);
        }
        i += 1;
    }
    assert(registered@.take(registered@.len() as int) =~= registered@);
    r
}

/// Whether a project passes the filters; one that is not given passes everything.
pub open spec fn passes(
    id: Seq<char>,
    project_id: Option<Seq<char>>,
    space: Option<Seq<Seq<char>>>,
) -> bool {
    (project_id is Some ==> project_id->0 == id) && (space is Some ==> space->0.contains(id))
}

pub open spec fn filter_rule(
    project_id: Option<Seq<char>>,
    space: Option<Seq<Seq<char>>>,
) -> spec_fn(String) -> Option<String> {
    |id: String|
        if passes(id@, project_id, space) {
            Some(id)
        } else {
            None
        }
}

pub open spec fn opt_str(o: Option<&str>) -> Option<Seq<char>> {
    match o {
        Some(s) => Some(s@),
        None => None,
    }
}

pub open spec fn opt_list(o: Option<&Vec<String>>) -> Option<Seq<Seq<char>>> {
    match o {
        Some(v) => Some(texts(v@)),
        None => None,
    }
}

/// Narrows the visible projects by the filters; the order stays.
pub fn filter_projects(
    allowed: &Vec<String>,
    project_id: Option<&str>,
    space: Option<&Vec<String>>,
) -> (r: Vec<String>)
    ensures
        r@ == collect(allowed@, filter_rule(opt_str(project_id), opt_list(space))),
{
    let mut r: Vec<String> = Vec::new();
    let ghost f = filter_rule(opt_str(project_id), opt_list(space));
    let mut i: usize = 0;
    assert(allowed@.take(0) =~= Seq::empty());
    while i < allowed.len()
        invariant
            i <= allowed.len(),
            f == filter_rule(opt_str(project_id), opt_list(space)),
            r@ == collect(allowed@.take(i as int), f),
        decreases allowed.len() - i,
    {
        proof {
            collect_step(allowed@, f, i as int);
        }
        let id = allowed[i].as_str();
        let by_project = match project_id {
            Some(p) => same(p, id),
            None => true,
        };
        let by_space = match space {
            Some(list) => has_text(list, id),
            None => true,
        };
        if by_project && by_space {
            let keep = allowed[i].clone();
            r.push(keep);
        }
        i += 1;
    }
    assert(allowed@.take(allowed@.len() as int) =~= allowed@);
    r
}

/// What a client asks the river for.
#[derive(Clone, Debug)]
pub struct RiverQuery {
    pub project_id: Option<String>,
    pub phase: Option<String>,
    pub scope: Option<String>,
    pub space: Option<String>,
}

/// The projects that the `space` scope narrows to: those of the named space, and none where the
/// space is missing or unknown.
pub open spec fn space_filter(q: RiverQuery, spaces: Seq<Space>) -> Option<Seq<Seq<char>>> {
    if opt_text(q.scope) == Some("space"@) {
        match q.space {
            None => Some(Seq::empty()),
            Some(id) => match space_index(spaces, id@, 0) {
                None => Some(Seq::empty()),
                Some(i) => Some(texts(spaces[i].projects@)),
            },
        }
    } else {
        None
    }
}

fn space_projects(q: &RiverQuery, spaces: &Vec<Space>) -> (r: Option<Vec<String>>)
    ensures
        match r {
            Some(v) => space_filter(*q, spaces@) == Some(texts(v@)),
            None => space_filter(*q, spaces@) is None,
        },
{
    let in_space = match &q.scope {
        Some(s) => same(s.as_str(), "space"),
        None => false,
    };
    if !in_space {
        return None;
    }
    let none: Vec<String> = Vec::new();
    assert(texts(none@) =~= Seq::empty());
    match &q.space {
        None => Some(none),
        Some(id) => match find_space(spaces, id.as_str()) {
            None => Some(none),
            Some(i) => Some(copy_texts(&spaces[i].projects)),
        },
    }
}

/// The projects that a river shows: those that the caller may see and that pass the filters.
pub fn river_projects(
    user: Option<&AuthUser>,
    registered: &Vec<String>,
    spaces: &Vec<Space>,
    q: &RiverQuery,
) -> (r: Vec<String>)
    ensures
        r@ == collect(
            collect(registered@, scope_rule(user)),
            filter_rule(opt_text(q.project_id), space_filter(*q, spaces@)),
        ),
{
    let visible = river_scope(user, registered);
    let space = space_projects(q, spaces);
    let project_id = match &q.project_id {
        Some(p) => Some(p.as_str()),
        None => None,
    };
    match &space {
        Some(list) => filter_projects(&visible, project_id, Some(list)),
        None => filter_projects(&visible, project_id, None),
    }
}

/// A river never shows a project that its caller may not see, whatever they filter by: it is
/// registered, they are a member of it or see all, and it passes the filters.
pub proof fn a_river_never_leaks(
    user: Option<&AuthUser>,
    registered: Seq<String>,
    spaces: Seq<Space>,
    q: RiverQuery,
    k: int,
)
    requires
        0 <= k < collect(
            collect(registered, scope_rule(user)),
            filter_rule(opt_text(q.project_id), space_filter(q, spaces)),
        ).len(),
    ensures
        ({
            let id = collect(
                collect(registered, scope_rule(user)),
                filter_rule(opt_text(q.project_id), space_filter(q, spaces)),
            )[k];
            &&& registered.contains(id)
            &&& may_see(user, id@)
            &&& passes(id@, opt_text(q.project_id), space_filter(q, spaces))
        }),
{
    let visible = collect(registered, scope_rule(user));
    let f = filter_rule(opt_text(q.project_id), space_filter(q, spaces));
    let id = collect(visible, f)[k];
    collected_has_source(visible, f, k);
    let i = choose|i: int| 0 <= i < visible.len() && f(#[trigger] visible[i]) == Some(id);
    assert(visible[i] == id);
    collected_has_source(registered, scope_rule(user), i);
    let j = choose|j: int|
        0 <= j < registered.len() && scope_rule(user)(#[trigger] registered[j]) == Some(visible[i]);
    assert(registered[j] == id);
}

pub open spec fn broken_rule(
    user: Option<&AuthUser>,
    project_id: Option<Seq<char>>,
) -> spec_fn(BrokenProject) -> Option<BrokenProject> {
    |b: BrokenProject|
        if may_see(user, b.id@) && (project_id is Some ==> project_id->0 == b.id@) {
            Some(b)
        } else {
            None
        }
}

/// The projects that could not be loaded and that the caller is told of.
pub fn visible_broken(
    user: Option<&AuthUser>,
    broken: &Vec<BrokenProject>,
    project_id: Option<&str>,
) -> (r: Vec<BrokenProject>)
    ensures
        r@ == collect(broken@, broken_rule(user, opt_str(project_id))),
{
    let mut r: Vec<BrokenProject> = Vec::new();
    let ghost f = broken_rule(user, opt_str(project_id));
    let mut i: usize = 0;
    assert(broken@.take(0) =~= Seq::empty());
    while i < broken.len()
        invariant
            i <= broken.len(),
            f == broken_rule(user, opt_str(project_id)),
            r@ == collect(broken@.take(i as int), f),
        decreases broken.len() - i,
    {
        proof {
            collect_step(broken@, f, i as int);
        }
        let named = match project_id {
            Some(p) => same(p, broken[i].id.as_str()),
            None => true,
        };
        if may_see_broken(user, broken[i].id.as_str()) && named {
            r.push(broken[i].copy());
        }
        i += 1;
    }
    assert(broken@.take(broken@.len() as int) =~= broken@);
    r
}

/// A phase filter in its normal form: trimmed, in upper case; empty where there is none.
pub fn phase_norm(phase: Option<&str>) -> (r: String)
    ensures
        r@ == match phase {
            Some(p) => spec_ascii_upper(spec_trim(p@)),
            None => Seq::empty(),
        },
{
    match phase {
        Some(p) => {
            let t = trim(p);
            ascii_upper(t.as_str())
        },
        None => String::new(),
    }
}

/// Whether a label is of the phase: the phase is a prefix of it, but for case; an empty phase
/// matches everything.
pub open spec fn in_phase(phase: Seq<char>, label: Option<Seq<char>>) -> bool {
    let p = spec_ascii_upper(spec_trim(phase));
    p.len() == 0 || (label is Some && spec_starts(spec_ascii_upper(label->0), p))
}

/// What is read of a project's runner.
#[derive(Clone, Debug)]
pub struct RunnerSnapshot {
    pub mode: String,
    pub active_role: Option<String>,
}

impl RunnerSnapshot {
    fn copy(&self) -> (r: RunnerSnapshot)
        ensures
            r == *self,
    {
        RunnerSnapshot {
            mode: self.mode.clone(),
            active_role: match &self.active_role {
                Some(role) => Some(role.clone()),
                None => None,
            },
        }
    }
}

/// Whether the runner is in the phase.
pub fn runner_in_phase(phase: &str, snap: &RunnerSnapshot) -> (b: bool)
    ensures
        b == in_phase(phase@, opt_text(snap.active_role)),
{
    let p = phase_norm(Some(phase));
    if p.as_str().is_empty() {
        return true;
    }
    match &snap.active_role {
        Some(role) => {
            let up = ascii_upper(role.as_str());
            starts_with(up.as_str(), p.as_str())
        },
        None => false,
    }
}

/// Whether a line of activity is of the phase.
pub fn entry_in_phase(phase: &str, agent: &str) -> (b: bool)
    ensures
        b == in_phase(phase@, Some(agent@)),
{
    let p = phase_norm(Some(phase));
    if p.as_str().is_empty() {
        return true;
    }
    let up = ascii_upper(agent);
    starts_with(up.as_str(), p.as_str())
}

/// What is read of a project at a tick.
#[derive(Clone, Debug)]
pub struct Loaded {
    pub activity: Vec<ActivityEntry>,
    pub human_holds: usize,
    pub completed_cycles: usize,
    pub runner: RunnerSnapshot,
}

/// Whether the project holds work for a person.
pub fn human_action_needed(s: &Loaded) -> (b: bool)
    ensures
        b == (s.human_holds > 0),
{
    s.human_holds > 0
}

/// Whether fewer than two cycles were completed, so that nothing can be said of the rhythm.
pub fn insufficient_data(s: &Loaded) -> (b: bool)
    ensures
        b == (s.completed_cycles < 2),
{
    s.completed_cycles < 2
}

/// The newest `cap` lines.
pub open spec fn newest(activity: Seq<ActivityEntry>, cap: nat) -> Seq<ActivityEntry> {
    if activity.len() <= cap {
        activity
    } else {
        activity.skip(activity.len() - cap)
    }
}

/// The last position before `i` at which the line stands.
pub open spec fn last_position(
    activity: Seq<ActivityEntry>,
    e: ActivityEntry,
    i: int,
) -> Option<int>
    decreases i,
{
    if i <= 0 || i > activity.len() {
        None
    } else if activity[i - 1].v() == e.v() {
        Some(i - 1)
    } else {
        last_position(activity, e, i - 1)
    }
}

/// The lines that are newer than the one last forwarded, at most the newest `cap`. Where that
/// one is gone, the newest tail.
pub open spec fn fresh(
    seen: Option<ActivityEntry>,
    activity: Seq<ActivityEntry>,
    cap: nat,
) -> Seq<ActivityEntry> {
    match seen {
        None => newest(activity, cap),
        Some(last) => match last_position(activity, last, activity.len() as int) {
            Some(i) => newest(activity.skip(i + 1), cap),
            None => newest(activity, cap),
        },
    }
}

pub open spec fn opt_entry(o: Option<&ActivityEntry>) -> Option<ActivityEntry> {
    match o {
        Some(e) => Some(*e),
        None => None,
    }
}

fn newest_from(activity: &[ActivityEntry], from: usize, cap: usize) -> (start: usize)
    requires
        from <= activity@.len(),
    ensures
        from <= start <= activity@.len(),
        activity@.skip(start as int) == newest(activity@.skip(from as int), cap as nat),
{
    let n: usize = activity.len();
    if n - from <= cap {
        from
    } else {
        assert(activity@.skip(from as int).skip(n - from - cap) =~= activity@.skip(n - cap));
        n - cap
    }
}

/// The lines of activity that a client has not seen yet.
pub fn delta<'a>(
    seen: Option<&ActivityEntry>,
    activity: &'a [ActivityEntry],
    cap: usize,
) -> (r: &'a [ActivityEntry])
    ensures
        r@ == fresh(opt_entry(seen), activity@, cap as nat),
{
    let n: usize = activity.len();
    let mut from: usize = 0;
    assert(activity@.skip(0) =~= activity@);
    if let Some(last) = seen {
        let mut i: usize = n;
        while i > 0 && !same_entry(&activity[i - 1], last)
            invariant
                i <= n,
                n == activity@.len(),
                last_position(activity@, *last, n as int) == last_position(
                    activity@,
                    *last,
                    i as int,
                ),
            decreases i,
        {
            i -= 1;
        }
        from = i;
    }
    let start: usize = newest_from(activity, from, cap);
    assert(activity@.skip(start as int) =~= activity@.subrange(start as int, n as int));
    slice_subrange(activity, start, n)
}

/// A catch-up is bounded: whatever happened since, at most `cap` lines are sent.
pub proof fn a_catch_up_is_bounded(seen: Option<ActivityEntry>, activity: Seq<ActivityEntry>, cap: nat)
    ensures
        fresh(seen, activity, cap).len() <= cap,
{
    if seen is Some {
        last_position_in_range(activity, seen->0, activity.len() as int);
    }
}

proof fn last_position_in_range(activity: Seq<ActivityEntry>, e: ActivityEntry, i: int)
    requires
        i <= activity.len(),
    ensures
        match last_position(activity, e, i) {
            Some(k) => 0 <= k < i && activity[k].v() == e.v(),
            None => forall|j: int| 0 <= j < i ==> (#[trigger] activity[j]).v() != e.v(),
        },
    decreases i,
{
    if i > 0 && activity[i - 1].v() != e.v() {
        last_position_in_range(activity, e, i - 1);
    }
}

/// No news is silence: once the newest line was forwarded, nothing of the same feed is sent
/// again.
pub proof fn no_news_is_silence(activity: Seq<ActivityEntry>, cap: nat)
    requires
        activity.len() > 0,
    ensures
        fresh(Some(activity.last()), activity, cap).len() == 0,
{
    assert(last_position(activity, activity.last(), activity.len() as int) == Some(
        activity.len() - 1,
    ));
}

/// Only what was added is forwarded: of a feed that grew by `news`, in which the last line seen
/// does not recur, exactly the newest `cap` of the news.
pub proof fn only_the_news_is_forwarded(
    old_feed: Seq<ActivityEntry>,
    news: Seq<ActivityEntry>,
    cap: nat,
)
    requires
        old_feed.len() > 0,
        forall|j: int| 0 <= j < news.len() ==> (#[trigger] news[j]).v() != old_feed.last().v(),
    ensures
        fresh(Some(old_feed.last()), old_feed + news, cap) == newest(news, cap),
{
    let all = old_feed + news;
    let e = old_feed.last();
    last_position_in_range(all, e, all.len() as int);
    let at = old_feed.len() - 1;
    assert(all[at].v() == e.v());
    let k = last_position(all, e, all.len() as int);
    assert(k is Some);
    if k->0 > at {
        assert(all[k->0] == news[k->0 - old_feed.len()]);
        assert(false);
    }
    if k->0 < at {
        last_position_is_last(all, e, all.len() as int, at);
        assert(false);
    }
    assert(all.skip(k->0 + 1) =~= news);
}

proof fn last_position_is_last(activity: Seq<ActivityEntry>, e: ActivityEntry, i: int, j: int)
    requires
        0 <= j < i <= activity.len(),
        activity[j].v() == e.v(),
    ensures
        last_position(activity, e, i) is Some,
        last_position(activity, e, i)->0 >= j,
    decreases i,
{
    if activity[i - 1].v() != e.v() {
        last_position_is_last(activity, e, i - 1, j);
    }
}

/// What the river sends.
#[derive(Clone, Debug)]
pub enum RiverEvent {
    /// Nothing matches: the view shows [`EMPTY_RIVER_MESSAGE`].
    Empty,
    /// The projects of the connection follow, the broken ones last.
    Hello,
    /// A project that could not be loaded.
    Broken { project: BrokenProject },
    /// A new line of activity.
    Activity {
        project_id: String,
        seq: u64,
        entry: ActivityEntry,
        needs_human: bool,
        insufficient_data: bool,
    },
    /// A heartbeat.
    State {
        project_id: String,
        name: String,
        alias: String,
        runner: RunnerSnapshot,
        needs_human: bool,
        insufficient_data: bool,
    },
}

impl RiverEvent {
    pub open spec fn spec_kind(self) -> Seq<char> {
        match self {
            RiverEvent::Empty => "empty"@,
            RiverEvent::Hello => "hello"@,
            RiverEvent::Broken { .. } => "project_broken"@,
            RiverEvent::Activity { .. } => "agent_activity"@,
            RiverEvent::State { .. } => "project_state"@,
        }
    }

    /// The name under which an event is sent.
    pub fn kind(&self) -> (r: &'static str)
        ensures
            r@ == self.spec_kind(),
    {
        match self {
            RiverEvent::Empty => "empty",
            RiverEvent::Hello => "hello",
            RiverEvent::Broken { .. } => "project_broken",
            RiverEvent::Activity { .. } => "agent_activity",
            RiverEvent::State { .. } => "project_state",
        }
    }
}

/// A project of a connection: what was last forwarded, and how much was.
#[derive(Clone, Debug)]
pub struct RiverProject {
    pub id: String,
    pub name: String,
    pub alias: String,
    pub seen: Option<ActivityEntry>,
    pub seq: u64,
}

/// The lines of `lines` that are of the phase, numbered on from `seq`.
pub open spec fn activity_events(
    id: String,
    seq: u64,
    lines: Seq<ActivityEntry>,
    phase: Seq<char>,
    needs_human: bool,
    insufficient: bool,
) -> Seq<RiverEvent>
    decreases lines.len(),
{
    if lines.len() == 0 {
        Seq::empty()
    } else {
        let init = activity_events(id, seq, lines.drop_last(), phase, needs_human, insufficient);
        if in_phase(phase, Some(lines.last().agent@)) {
            init.push(
                RiverEvent::Activity {
                    project_id: id,
                    seq: (seq + init.len() + 1) as u64,
                    entry: lines.last(),
                    needs_human,
                    insufficient_data: insufficient,
                },
            )
        } else {
            init
        }
    }
}

/// What a project contributes to a tick: its news, then its heartbeat where its runner is in
/// the phase. One that could not be read contributes nothing.
pub open spec fn project_events(
    p: RiverProject,
    load: Option<Loaded>,
    phase: Seq<char>,
) -> Seq<RiverEvent> {
    match load {
        None => Seq::empty(),
        Some(s) => {
            let news = activity_events(
                p.id,
                p.seq,
                fresh(p.seen, s.activity@, RIVER_BACKLOG as nat),
                phase,
                s.human_holds > 0,
                s.completed_cycles < 2,
            );
            if in_phase(phase, opt_text(s.runner.active_role)) {
                news.push(
                    RiverEvent::State {
                        project_id: p.id,
                        name: p.name,
                        alias: p.alias,
                        runner: s.runner,
                        needs_human: s.human_holds > 0,
                        insufficient_data: s.completed_cycles < 2,
                    },
                )
            } else {
                news
            }
        },
    }
}

/// The project after a tick: everything of the feed counts as seen, whether it was in the phase
/// or not.
pub open spec fn advanced(p: RiverProject, load: Option<Loaded>, phase: Seq<char>) -> RiverProject {
    match load {
        None => p,
        Some(s) => RiverProject {
            seen: if s.activity@.len() > 0 {
                Some(s.activity@.last())
            } else {
                None
            },
            seq: (p.seq + activity_events(
                p.id,
                p.seq,
                fresh(p.seen, s.activity@, RIVER_BACKLOG as nat),
                phase,
                s.human_holds > 0,
                s.completed_cycles < 2,
            ).len()) as u64,
            ..p
        },
    }
}

proof fn activity_events_len(
    id: String,
    seq: u64,
    lines: Seq<ActivityEntry>,
    phase: Seq<char>,
    needs_human: bool,
    insufficient: bool,
)
    ensures
        activity_events(id, seq, lines, phase, needs_human, insufficient).len() <= lines.len(),
    decreases lines.len(),
{
    if lines.len() > 0 {
        activity_events_len(id, seq, lines.drop_last(), phase, needs_human, insufficient);
    }
}

/// Forwards one project's news and heartbeat.
#[verifier::loop_isolation(false)]
pub fn project_step(p: &mut RiverProject, load: &Loaded, phase: &str) -> (r: Vec<RiverEvent>)
    requires
        old(p).seq + RIVER_BACKLOG <= u64::MAX,
    ensures
        r@ == project_events(*old(p), Some(*load), phase@),
        *final(p) == advanced(*old(p), Some(*load), phase@),
{
    let needs_human = human_action_needed(load);
    let insufficient = insufficient_data(load);
    let seen = match &p.seen {
        Some(e) => Some(e),
        None => None,
    };
    let lines = delta(seen, load.activity.as_slice(), RIVER_BACKLOG);
    proof {
        a_catch_up_is_bounded(p.seen, load.activity@, RIVER_BACKLOG as nat);
    }
    let ghost all = lines@;
    let mut r: Vec<RiverEvent> = Vec::new();
    let mut i: usize = 0;
    let n: usize = lines.len();
    assert(all.take(0) =~= Seq::empty());
    while i < n
        invariant
            i <= n,
            n == all.len(),
            all == lines@,
            all.len() <= RIVER_BACKLOG,
            r@ == activity_events(
                p.id,
                p.seq,
                all.take(i as int),
                phase@,
                needs_human,
                insufficient,
            ),
        decreases n - i,
    {
        proof {
            activity_events_len(
                p.id,
                p.seq,
                all.take(i as int),
                phase@,
                needs_human,
                insufficient,
            );
            assert(all.take(i + 1).drop_last() =~= all.take(i as int));
        }
        let e = &lines[i];
        if entry_in_phase(phase, e.agent.as_str()) {
            let seq: u64 = p.seq + r.len() as u64 + 1;
            r.push(
                RiverEvent::Activity {
                    project_id: p.id.clone(),
                    seq,
                    entry: e.copy(),
                    needs_human,
                    insufficient_data: insufficient,
                },
            );
        }
        i += 1;
    }
    assert(all.take(all.len() as int) =~= all);
    proof {
        activity_events_len(p.id, p.seq, all, phase@, needs_human, insufficient);
    }
    let count: u64 = r.len() as u64;
    if runner_in_phase(phase, &load.runner) {
        r.push(
            RiverEvent::State {
                project_id: p.id.clone(),
                name: p.name.clone(),
                alias: p.alias.clone(),
                runner: load.runner.copy(),
                needs_human,
                insufficient_data: insufficient,
            },
        );
    }
    let len: usize = load.activity.len();
    p.seen = if len > 0 {
        Some(load.activity[len - 1].copy())
    } else {
        None
    };
    p.seq = p.seq + count;
    r
}

/// What the projects contribute, one after the other.
pub open spec fn all_events(
    projects: Seq<RiverProject>,
    loads: Seq<Option<Loaded>>,
    phase: Seq<char>,
) -> Seq<RiverEvent>
    decreases projects.len(),
{
    if projects.len() == 0 {
        Seq::empty()
    } else {
        all_events(projects.drop_last(), loads, phase) + project_events(
            projects.last(),
            loads[projects.len() - 1],
            phase,
        )
    }
}

/// One tick of a connection. `loads` holds what could be read of each project.
pub fn river_tick(projects: &mut Vec<RiverProject>, loads: &Vec<Option<Loaded>>, phase: &str) -> (r:
    Vec<RiverEvent>)
    requires
        loads@.len() == old(projects)@.len(),
        forall|i: int|
            0 <= i < old(projects)@.len() ==> (#[trigger] old(projects)@[i]).seq + RIVER_BACKLOG
                <= u64::MAX,
    ensures
        r@ == all_events(old(projects)@, loads@, phase@),
        final(projects)@.len() == old(projects)@.len(),
        forall|i: int|
            0 <= i < old(projects)@.len() ==> #[trigger] final(projects)@[i] == advanced(
                old(projects)@[i],
                loads@[i],
                phase@,
            ),
{
    let mut r: Vec<RiverEvent> = Vec::new();
    let ghost before = projects@;
    let mut i: usize = 0;
    assert(before.take(0) =~= Seq::empty());
    while i < projects.len()
        invariant
            i <= projects.len(),
            before == old(projects)@,
            projects@.len() == before.len(),
            loads@.len() == before.len(),
            forall|j: int| 0 <= j < before.len() ==> (#[trigger] before[j]).seq + RIVER_BACKLOG
                <= u64::MAX,
            forall|j: int| i <= j < before.len() ==> #[trigger] projects@[j] == before[j],
            forall|j: int|
                0 <= j < i ==> #[trigger] projects@[j] == advanced(before[j], loads@[j], phase@),
            r@ == all_events(before.take(i as int), loads@, phase@),
        decreases projects.len() - i,
    {
        proof {
            assert(before.take(i + 1).drop_last() =~= before.take(i as int));
            assert(before.take(i + 1).last() == before[i as int]);
            assert(projects@[i as int] == before[i as int]);
            assert(before[i as int].seq + RIVER_BACKLOG <= u64::MAX);
        }
        match &loads[i] {
            Some(load) => {
                let mut step = project_step(&mut projects[i], load, phase);
                r.append(&mut step);
            },
            None => {
                assert(r@ + Seq::<RiverEvent>::empty() =~= r@);
            },
        }
        i += 1;
    }
    assert(before.take(before.len() as int) =~= before);
    r
}

pub open spec fn broken_events(broken: Seq<BrokenProject>) -> Seq<RiverEvent> {
    broken.map_values(|b: BrokenProject| RiverEvent::Broken { project: b })
}

/// The first tick of a connection: a greeting, a marker for each broken project, then what the
/// projects contribute. Nothing at all registered is answered with the empty river alone.
pub fn river_boot(
    projects: &mut Vec<RiverProject>,
    broken: &Vec<BrokenProject>,
    loads: &Vec<Option<Loaded>>,
    phase: &str,
) -> (r: Vec<RiverEvent>)
    requires
        loads@.len() == old(projects)@.len(),
        forall|i: int|
            0 <= i < old(projects)@.len() ==> (#[trigger] old(projects)@[i]).seq + RIVER_BACKLOG
                <= u64::MAX,
    ensures
        r@ == if old(projects)@.len() == 0 && broken@.len() == 0 {
            seq![RiverEvent::Empty]
        } else {
            seq![RiverEvent::Hello] + broken_events(broken@) + all_events(
                old(projects)@,
                loads@,
                phase@,
            )
        },
        final(projects)@.len() == old(projects)@.len(),
        forall|i: int|
            0 <= i < old(projects)@.len() ==> #[trigger] final(projects)@[i] == advanced(
                old(projects)@[i],
                loads@[i],
                phase@,
            ),
{
    let mut r: Vec<RiverEvent> = Vec::new();
    if projects.len() == 0 && broken.len() == 0 {
        r.push(RiverEvent::Empty);
        assert(r@ =~= seq![RiverEvent::Empty]);
        return r;
    }
    r.push(RiverEvent::Hello);
    let mut i: usize = 0;
    while i < broken.len()
        invariant
            i <= broken.len(),
            r@ =~= seq![RiverEvent::Hello] + broken_events(broken@.take(i as int)),
        decreases broken.len() - i,
    {
        r.push(RiverEvent::Broken { project: broken[i].copy() });
        i += 1;
    }
    assert(broken@.take(broken@.len() as int) =~= broken@);
    let mut rest = river_tick(projects, loads, phase);
    r.append(&mut rest);
    r
}

/// A line that a filter hid is not sent later: after a tick, the same feed yields no activity
/// in any phase.
pub proof fn a_hidden_line_is_never_replayed(
    p: RiverProject,
    load: Loaded,
    phase: Seq<char>,
    later: Seq<char>,
)
    requires
        load.activity@.len() > 0,
    ensures
        ({
            let q = advanced(p, Some(load), phase);
            project_events(q, Some(load), later) == if in_phase(
                later,
                opt_text(load.runner.active_role),
            ) {
                seq![
                    RiverEvent::State {
                        project_id: p.id,
                        name: p.name,
                        alias: p.alias,
                        runner: load.runner,
                        needs_human: load.human_holds > 0,
                        insufficient_data: load.completed_cycles < 2,
                    },
                ]
            } else {
                Seq::empty()
            }
        }),
{
    no_news_is_silence(load.activity@, RIVER_BACKLOG as nat);
    let q = advanced(p, Some(load), phase);
    let news = activity_events(
        q.id,
        q.seq,
        fresh(q.seen, load.activity@, RIVER_BACKLOG as nat),
        later,
        load.human_holds > 0,
        load.completed_cycles < 2,
    );
    assert(news =~= Seq::empty());
}

/// The numbers of a project's lines go on without a gap: the `k`-th line that a tick sends is
/// numbered `seq + k + 1`, and the next tick goes on from there.
pub proof fn numbers_go_on_without_a_gap(
    id: String,
    seq: u64,
    lines: Seq<ActivityEntry>,
    phase: Seq<char>,
    needs_human: bool,
    insufficient: bool,
    k: int,
)
    requires
        0 <= k < activity_events(id, seq, lines, phase, needs_human, insufficient).len(),
        seq + lines.len() <= u64::MAX,
    ensures
        ({
            let e = activity_events(id, seq, lines, phase, needs_human, insufficient)[k];
            e is Activity && e->Activity_seq == seq + k + 1 && e->Activity_project_id == id
                && in_phase(phase, Some(e->entry.agent@))
        }),
    decreases lines.len(),
{
    let init = activity_events(id, seq, lines.drop_last(), phase, needs_human, insufficient);
    activity_events_len(id, seq, lines.drop_last(), phase, needs_human, insufficient);
    if k < init.len() {
        numbers_go_on_without_a_gap(
            id,
            seq,
            lines.drop_last(),
            phase,
            needs_human,
            insufficient,
            k,
        );
    }
}

/// The phase decides alone which lines are forwarded: those whose agent's name begins with it, but
/// for case, in the order of the feed; an empty phase forwards them all, whatever they are about.
pub proof fn the_phase_alone_decides(
    id: String,
    seq: u64,
    lines: Seq<ActivityEntry>,
    phase: Seq<char>,
    needs_human: bool,
    insufficient: bool,
)
    ensures
        activity_events(id, seq, lines, phase, needs_human, insufficient).map_values(
            |e: RiverEvent| e->entry,
        ) == lines.filter(
            |l: ActivityEntry|
                spec_trim(phase).len() == 0 || spec_ascii_upper(spec_trim(phase)).is_prefix_of(
                    spec_ascii_upper(l.agent@),
                ),
        ),
        spec_trim(phase).len() == 0 ==> activity_events(
            id,
            seq,
            lines,
            phase,
            needs_human,
            insufficient,
        ).map_values(|e: RiverEvent| e->entry) == lines,
        forall|k: int|
            0 <= k < activity_events(id, seq, lines, phase, needs_human, insufficient).len() ==> {
                let e = #[trigger] activity_events(
                    id,
                    seq,
                    lines,
                    phase,
                    needs_human,
                    insufficient,
                )[k];
                &&& e is Activity
                &&& e->Activity_project_id == id
                &&& e->Activity_needs_human == needs_human
                &&& e->Activity_insufficient_data == insufficient
            },
    decreases lines.len(),
{
    reveal(Seq::filter);
    let g = |e: RiverEvent| e->entry;
    let keep = |l: ActivityEntry|
        spec_trim(phase).len() == 0 || spec_ascii_upper(spec_trim(phase)).is_prefix_of(
            spec_ascii_upper(l.agent@),
        );
    let all = activity_events(id, seq, lines, phase, needs_human, insufficient);
    if lines.len() == 0 {
        assert(all.map_values(g) =~= lines.filter(keep));
        assert(all.map_values(g) =~= lines);
    } else {
        let init = lines.drop_last();
        let before = activity_events(id, seq, init, phase, needs_human, insufficient);
        the_phase_alone_decides(id, seq, init, phase, needs_human, insufficient);
        let last = lines.last();
        assert(in_phase(phase, Some(last.agent@)) == keep(last)) by {
            let p = spec_ascii_upper(spec_trim(phase));
            let a = spec_ascii_upper(last.agent@);
            if p.len() <= a.len() {
                assert(a.take(p.len() as int) =~= a.subrange(0, p.len() as int));
            }
        }
        if keep(last) {
            assert(all.map_values(g) =~= before.map_values(g).push(last));
        }
        assert(lines =~= init.push(last));
    }
}

/// A tick of one project: every line that is news and of the phase, then the heartbeat of a runner
/// that is in the phase, all of them marked with whether a person is needed and whether there is
/// enough data.
pub proof fn a_tick_forwards_all_news(p: RiverProject, s: Loaded, phase: Seq<char>, k: int)
    ensures
        spec_trim(phase).len() == 0 ==> {
            let news = fresh(p.seen, s.activity@, RIVER_BACKLOG as nat);
            let all = project_events(p, Some(s), phase);
            &&& all.len() == news.len() + 1
            &&& all.last() is State
            &&& all.drop_last().map_values(|e: RiverEvent| e->entry) == news
        },
        project_events(p, None, phase).len() == 0,
        0 <= k < project_events(p, Some(s), phase).len() ==> match project_events(
            p,
            Some(s),
            phase,
        )[k] {
            RiverEvent::Activity { project_id, needs_human, insufficient_data, .. } => {
                &&& project_id == p.id
                &&& needs_human == (s.human_holds > 0)
                &&& insufficient_data == (s.completed_cycles < 2)
            },
            RiverEvent::State { project_id, name, alias, runner, needs_human, insufficient_data } => {
                &&& k == project_events(p, Some(s), phase).len() - 1
                &&& project_id == p.id && name == p.name && alias == p.alias
                &&& runner == s.runner
                &&& needs_human == (s.human_holds > 0)
                &&& insufficient_data == (s.completed_cycles < 2)
                &&& spec_trim(phase).len() == 0 || (s.runner.active_role is Some
                    && spec_ascii_upper(spec_trim(phase)).is_prefix_of(
                    spec_ascii_upper(s.runner.active_role->0@),
                ))
            },
            _ => false,
        },
        spec_trim(phase).len() == 0 || (s.runner.active_role is Some && spec_ascii_upper(
            spec_trim(phase),
        ).is_prefix_of(spec_ascii_upper(s.runner.active_role->0@))) ==> project_events(
            p,
            Some(s),
            phase,
        ).len() > 0 && project_events(p, Some(s), phase).last() is State,
{
    let news = fresh(p.seen, s.activity@, RIVER_BACKLOG as nat);
    let sent = activity_events(p.id, p.seq, news, phase, s.human_holds > 0, s.completed_cycles < 2);
    the_phase_alone_decides(p.id, p.seq, news, phase, s.human_holds > 0, s.completed_cycles < 2);
    let all = project_events(p, Some(s), phase);
    let up = spec_ascii_upper(spec_trim(phase));
    if s.runner.active_role is Some {
        let a = spec_ascii_upper(s.runner.active_role->0@);
        if up.len() <= a.len() {
            assert(a.take(up.len() as int) =~= a.subrange(0, up.len() as int));
        }
    }
    if in_phase(phase, opt_text(s.runner.active_role)) {
        assert(all.drop_last() =~= sent);
    }
    if spec_trim(phase).len() == 0 {
        assert(sent.map_values(|e: RiverEvent| e->entry).len() == sent.len());
    }
    if 0 <= k < sent.len() {
        assert(all[k] == sent[k]);
    }
}

/// A tick moves a project on: everything of its feed counts as seen, and its numbers go on by as
/// many lines as were sent.
pub proof fn a_tick_moves_on(p: RiverProject, s: Loaded, phase: Seq<char>)
    requires
        p.seq + RIVER_BACKLOG <= u64::MAX,
    ensures
        ({
            let q = advanced(p, Some(s), phase);
            let sent = project_events(p, Some(s), phase);
            &&& q.id == p.id && q.name == p.name && q.alias == p.alias
            &&& s.activity@.len() == 0 ==> q.seen is None
            &&& s.activity@.len() > 0 ==> q.seen == Some(s.activity@.last())
            &&& q.seq == p.seq + sent.filter(|e: RiverEvent| e is Activity).len()
            &&& q.seq <= p.seq + RIVER_BACKLOG
        }),
        advanced(p, None, phase) == p,
{
    reveal(Seq::filter);
    let news = fresh(p.seen, s.activity@, RIVER_BACKLOG as nat);
    let lines = activity_events(p.id, p.seq, news, phase, s.human_holds > 0, s.completed_cycles < 2);
    a_catch_up_is_bounded(p.seen, s.activity@, RIVER_BACKLOG as nat);
    activity_events_len(p.id, p.seq, news, phase, s.human_holds > 0, s.completed_cycles < 2);
    the_phase_alone_decides(p.id, p.seq, news, phase, s.human_holds > 0, s.completed_cycles < 2);
    let keep = |e: RiverEvent| e is Activity;
    all_kept(lines, keep);
    let sent = project_events(p, Some(s), phase);
    if in_phase(phase, opt_text(s.runner.active_role)) {
        assert(sent.drop_last() =~= lines);
    }
}

proof fn all_kept(s: Seq<RiverEvent>, keep: spec_fn(RiverEvent) -> bool)
    requires
        forall|i: int| 0 <= i < s.len() ==> keep(#[trigger] s[i]),
    ensures
        s.filter(keep) == s,
    decreases s.len(),
{
    reveal(Seq::filter);
    if s.len() > 0 {
        let init = s.drop_last();
        assert forall|i: int| 0 <= i < init.len() implies keep(#[trigger] init[i]) by {
            assert(init[i] == s[i]);
        }
        all_kept(init, keep);
        assert(s[s.len() - 1] == s.last());
        assert(init.push(s.last()) =~= s);
    }
}

/// What is news is the end of the feed: all that follows the last line seen, where that line is
/// still there, else the whole feed, and of that the newest `cap` lines.
pub proof fn news_is_the_end_of_the_feed(
    seen: Option<ActivityEntry>,
    activity: Seq<ActivityEntry>,
    cap: nat,
)
    ensures
        ({
            let news = fresh(seen, activity, cap);
            &&& news.len() <= activity.len()
            &&& news == activity.skip(activity.len() - news.len())
            &&& (seen is None || forall|i: int|
                0 <= i < activity.len() ==> (#[trigger] activity[i]).v() != seen->0.v()) ==> news.len()
                == if activity.len() <= cap {
                activity.len()
            } else {
                cap
            }
            &&& seen is Some ==> forall|i: int|
                0 <= i < news.len() ==> (#[trigger] news[i]).v() != seen->0.v() || forall|j: int|
                    0 <= j < activity.len() ==> (#[trigger] activity[j]).v() != seen->0.v()
        }),
        forall|i: int|
            seen is Some && 0 <= i < activity.len() && (#[trigger] activity[i]).v() == seen->0.v()
                && (forall|j: int| i < j < activity.len() ==> (#[trigger] activity[j]).v()
                != seen->0.v()) ==> fresh(seen, activity, cap).len() == if activity.len() - i - 1
                <= cap {
                activity.len() - i - 1
            } else {
                cap as int
            },
{
    let n = activity.len() as int;
    if seen is Some {
        last_position_in_range(activity, seen->0, n);
        match last_position(activity, seen->0, n) {
            Some(k) => {
                let rest = activity.skip(k + 1);
                let news = fresh(seen, activity, cap);
                assert(news =~= activity.skip(n - news.len()));
                assert forall|i: int| 0 <= i < news.len() implies (#[trigger] news[i]).v()
                    != seen->0.v() by {
                    let at = n - news.len() + i;
                    if activity[at].v() == seen->0.v() {
                        last_position_is_last(activity, seen->0, n, at);
                    }
                }
                assert forall|i: int|
                    0 <= i < activity.len() && (#[trigger] activity[i]).v() == seen->0.v() && (
                    forall|j: int|
                        i < j < activity.len() ==> (#[trigger] activity[j]).v()
                            != seen->0.v()) implies i == k by {
                    last_position_is_last(activity, seen->0, n, i);
                    if i < k {
                        assert(activity[k].v() != seen->0.v());
                    }
                }
            },
            None => {
                assert(fresh(seen, activity, cap) =~= activity.skip(
                    n - fresh(seen, activity, cap).len(),
                ));
            },
        }
    } else {
        assert(fresh(seen, activity, cap) =~= activity.skip(n - fresh(seen, activity, cap).len()));
    }
}

/// Every project has its say in a tick, in the order of the projects, and nothing else is sent.
pub proof fn every_project_has_its_say(
    projects: Seq<RiverProject>,
    loads: Seq<Option<Loaded>>,
    phase: Seq<char>,
    i: int,
)
    requires
        0 <= i < projects.len() <= loads.len(),
    ensures
        exists|before: Seq<RiverEvent>, after: Seq<RiverEvent>|
            all_events(projects, loads, phase) == #[trigger] (before + project_events(
                projects[i],
                loads[i],
                phase,
            ) + after) && before == all_events(projects.take(i), loads, phase),
        all_events(projects, loads, phase).len() == all_events(
            projects.take(i),
            loads,
            phase,
        ).len() + project_events(projects[i], loads[i], phase).len() + all_events(
            projects.skip(i + 1),
            loads.skip(i + 1),
            phase,
        ).len(),
    decreases projects.len(),
{
    let all = all_events(projects, loads, phase);
    let own = project_events(projects[i], loads[i], phase);
    let start = all_events(projects.take(i), loads, phase);
    let rest = projects.skip(i + 1);
    if i == projects.len() - 1 {
        assert(projects.drop_last() =~= projects.take(i));
        assert(all =~= start + own + Seq::empty());
        assert(rest.len() == 0);
    } else {
        let init = projects.drop_last();
        every_project_has_its_say(init, loads, phase, i);
        assert(init.take(i) =~= projects.take(i));
        let (b, a) = choose|before: Seq<RiverEvent>, after: Seq<RiverEvent>|
            all_events(init, loads, phase) == #[trigger] (before + project_events(
                init[i],
                loads[i],
                phase,
            ) + after) && before == all_events(init.take(i), loads, phase);
        let last = project_events(projects.last(), loads[projects.len() - 1], phase);
        assert(all =~= b + own + (a + last));
        assert(rest.drop_last() =~= init.skip(i + 1));
        assert(rest.last() == projects.last());
        assert(loads.skip(i + 1)[rest.len() - 1] == loads[projects.len() - 1]);
    }
}

/// A river shows every registered project that its caller may see and that passes the filters, in
/// the order of registration. Everything is seen by who owns or administers the hub, and where
/// there are no accounts; the rest see what they are members of.
pub proof fn a_river_shows_all_that_may_be_seen(
    user: Option<&AuthUser>,
    registered: Seq<String>,
    spaces: Seq<Space>,
    q: RiverQuery,
)
    ensures
        collect(registered, scope_rule(user)) == registered.filter(
            |id: String|
                user is None || user->0.role == AuthRole::Super || user->0.role == AuthRole::Admin
                    || texts(user->0.projects@).contains(id@),
        ),
        collect(
            collect(registered, scope_rule(user)),
            filter_rule(opt_text(q.project_id), space_filter(q, spaces)),
        ) == collect(registered, scope_rule(user)).filter(
            |id: String|
                (q.project_id is None || q.project_id->0@ == id@) && (!(q.scope is Some
                    && q.scope->0@ == "space"@) || (q.space is Some && exists|i: int|
                    0 <= i < spaces.len() && (#[trigger] spaces[i]).id@ == q.space->0@ && texts(
                        spaces[i].projects@,
                    ).contains(id@) && forall|j: int|
                        0 <= j < i ==> (#[trigger] spaces[j]).id@ != q.space->0@)),
        ),
{
    let keep = |id: String|
        user is None || user->0.role == AuthRole::Super || user->0.role == AuthRole::Admin || texts(
            user->0.projects@,
        ).contains(id@);
    kept_is_filtered(registered, scope_rule(user), keep);
    let seen = collect(registered, scope_rule(user));
    let f = filter_rule(opt_text(q.project_id), space_filter(q, spaces));
    let pass = |id: String|
        (q.project_id is None || q.project_id->0@ == id@) && (!(q.scope is Some && q.scope->0@
            == "space"@) || (q.space is Some && exists|i: int|
            0 <= i < spaces.len() && (#[trigger] spaces[i]).id@ == q.space->0@ && texts(
                spaces[i].projects@,
            ).contains(id@) && forall|j: int|
                0 <= j < i ==> (#[trigger] spaces[j]).id@ != q.space->0@));
    if q.space is Some {
        space_index_is_first(spaces, q.space->0@, 0);
    }
    assert forall|id: String|
        #[trigger] f(id) == if pass(id) {
            Some(id)
        } else {
            None
        } by {
        if q.space is Some && space_index(spaces, q.space->0@, 0) is Some {
            let k = space_index(spaces, q.space->0@, 0)->0;
            assert(spaces[k].id@ == q.space->0@);
        }
    }
    kept_is_filtered(seen, f, pass);
}

/// A broken project is told of to those who could see it if it were whole, and to nobody else.
pub proof fn a_broken_project_is_told_to_its_people(
    user: Option<&AuthUser>,
    broken: Seq<BrokenProject>,
    project_id: Option<Seq<char>>,
)
    ensures
        collect(broken, broken_rule(user, project_id)) == broken.filter(
            |b: BrokenProject|
                (user is None || user->0.role == AuthRole::Super || user->0.role == AuthRole::Admin
                    || texts(user->0.projects@).contains(b.id@)) && (project_id is None
                    || project_id->0 == b.id@),
        ),
{
    let keep = |b: BrokenProject|
        (user is None || user->0.role == AuthRole::Super || user->0.role == AuthRole::Admin
            || texts(user->0.projects@).contains(b.id@)) && (project_id is None || project_id->0
            == b.id@);
    kept_is_filtered(broken, broken_rule(user, project_id), keep);
}

} // verus!
