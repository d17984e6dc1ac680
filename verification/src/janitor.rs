//! The sweep that keeps what deployments leave behind from silting up the host. It errs on the
//! side of keeping: without an answer nothing is removed.

use crate::json::{
    json_member, json_value, parse_json, read_member, value_view, Json, JsonView,
};
use crate::lists::{
    collect, collect_step, collected_has_source, collected_is_filtered, source_is_collected,
};
use crate::order::{sort, sorted, sorting_adds_nothing};
use crate::text::{
    contains, dedup, find_value, first_value, lines, opt_text, repeats_go_and_nothing_else, same, spec_contains, spec_lines,
    spec_split, spec_starts, spec_trim, starts_with, texts, trim, without_repeats,
};
use vstd::prelude::*;

verus! {

/// The label that compose puts on everything it creates.
pub const COMPOSE_PROJECT_LABEL: &'static str = "com.docker.compose.project";

/// The prefix of a preview's compose project.
pub const PREVIEW_PROJECT_PREFIX: &'static str = "cox--preview-";

/// How long a preview may run.
pub const PREVIEW_TTL: &'static str = "6h";

/// The value of a label in a comma-joined list of `KEY=VALUE`.
pub open spec fn label_in(labels: Seq<char>, key: Seq<char>) -> Option<Seq<char>> {
    first_value(spec_split(labels, ','), key)
}

/// The value of a label; keys match exactly, and the first `=` splits a pair.
pub fn label_value(labels: &str, key: &str) -> (r: Option<String>)
    ensures
        opt_text(r) == label_in(labels@, key@),
{
    find_value(labels, ',', key)
}

/// A compose project as the daemon lists it.
#[derive(Clone, Debug)]
pub struct ComposeProject {
    pub name: String,
    pub status: String,
}

/// What the values of one listed project say: without a name it is skipped, without a status it
/// has an empty one.
pub open spec fn project_said(name: Option<JsonView>, status: Option<JsonView>) -> Option<
    (Seq<char>, Seq<char>),
> {
    match name {
        Some(JsonView::Text(n)) => Some(
            (
                n,
                match status {
                    Some(JsonView::Text(s)) => s,
                    _ => Seq::empty(),
                },
            ),
        ),
        _ => None,
    }
}

/// Reads one listed project from its values.
pub fn project_of(name: &Option<Json>, status: &Option<Json>) -> (r: Option<ComposeProject>)
    ensures
        match r {
            Some(p) => project_said(value_view(*name), value_view(*status)) == Some(
                (p.name@, p.status@),
            ),
            None => project_said(value_view(*name), value_view(*status)) is None,
        },
{
    match name {
        Some(Json::Text(n)) => Some(
            ComposeProject {
                name: n.clone(),
                status: match status {
                    Some(Json::Text(s)) => s.clone(),
                    _ => String::new(),
                },
            },
        ),
        _ => None,
    }
}

pub open spec fn project_rule() -> spec_fn(Seq<char>) -> Option<(Seq<char>, Seq<char>)> {
    |item: Seq<char>| project_said(json_member(item, "Name"@), json_member(item, "Status"@))
}

pub open spec fn projects_view(v: Seq<ComposeProject>) -> Seq<(Seq<char>, Seq<char>)> {
    v.map_values(|p: ComposeProject| (p.name@, p.status@))
}

/// The projects in the daemon's listing; nothing where the listing is not a JSON list, which is
/// not the same as no projects.
pub fn compose_projects(listing: &str) -> (r: Option<Vec<ComposeProject>>)
    ensures
        match json_value(listing@) {
            Some(JsonView::List(items)) => r is Some && projects_view(r->0@) == collect(
                items,
                project_rule(),
            ),
            _ => r is None,
        },
{
    match parse_json(listing) {
        Some(Json::List(items)) => {
            let mut r: Vec<ComposeProject> = Vec::new();
            let ghost t = texts(items@);
            let ghost f = project_rule();
            let mut i: usize = 0;
            assert(t.take(0) =~= Seq::empty());
            assert(projects_view(r@) =~= Seq::empty());
            while i < items.len()
                invariant
                    i <= items.len(),
                    t == texts(items@),
                    f == project_rule(),
                    projects_view(r@) == collect(t.take(i as int), f),
                decreases items.len() - i,
            {
                proof {
                    collect_step(t, f, i as int);
                    assert(t[i as int] == items@[i as int]@);
                }
                let name = read_member(items[i].as_str(), "Name");
                let status = read_member(items[i].as_str(), "Status");
                if let Some(p) = project_of(&name, &status) {
                    let ghost before = projects_view(r@);
                    let ghost pv = (p.name@, p.status@);
                    r.push(p);
                    assert(projects_view(r@) =~= before.push(pv));
                }
                i += 1;
            }
            assert(t.take(t.len() as int) =~= t);
            Some(r)
        },
        _ => None,
    }
}

/// Why a compose project is taken down.
#[derive(Clone, Copy, Debug, PartialEq, Eq, Structural)]
pub enum Reclaim {
    Keep,
    Dead,
    ExpiredPreview,
}

/// What happens to a project. `reclaimable` is what the policy says of its name, `stale` whether
/// it runs for longer than a preview may. What runs is only taken down as an expired preview.
pub open spec fn reclaim_of(
    reclaimable: bool,
    name: Seq<char>,
    status: Seq<char>,
    stale: bool,
) -> Reclaim {
    if !reclaimable {
        Reclaim::Keep
    } else if spec_contains(status, "running"@) {
        if spec_starts(name, PREVIEW_PROJECT_PREFIX@) && stale {
            Reclaim::ExpiredPreview
        } else {
            Reclaim::Keep
        }
    } else {
        Reclaim::Dead
    }
}

/// Decides what happens to a project.
pub fn project_verdict(reclaimable: bool, name: &str, status: &str, stale: bool) -> (r: Reclaim)
    ensures
        r == reclaim_of(reclaimable, name@, status@, stale),
{
    if !reclaimable {
        Reclaim::Keep
    } else if contains(status, "running") {
        if starts_with(name, PREVIEW_PROJECT_PREFIX) && stale {
            Reclaim::ExpiredPreview
        } else {
            Reclaim::Keep
        }
    } else {
        Reclaim::Dead
    }
}

/// Whether a preview runs for too long: the daemon lists a container that old. No answer is no.
pub fn preview_is_stale(listed: &Option<String>) -> (b: bool)
    ensures
        b == (listed is Some && spec_trim(listed->0@).len() > 0),
{
    match listed {
        Some(out) => {
            let t = trim(out.as_str());
            !t.as_str().is_empty()
        },
        None => false,
    }
}

pub open spec fn line_rule(skip: Seq<char>) -> spec_fn(Seq<char>) -> Option<Seq<char>> {
    |line: Seq<char>|
        if spec_trim(line).len() == 0 || spec_trim(line) == skip {
            None
        } else {
            Some(spec_trim(line))
        }
}

fn listed_lines(out: &str, skip: &str) -> (r: Vec<String>)
    ensures
        texts(r@) == collect(spec_lines(out@), line_rule(skip@)),
{
    broadcast use crate::text::texts_push, crate::text::texts_empty;

    let all = lines(out);
    let ghost t = texts(all@);
    let ghost f = line_rule(skip@);
    let mut r: Vec<String> = Vec::new();
    let mut i: usize = 0;
    assert(t.take(0) =~= Seq::empty());
    while i < all.len()
        invariant
            i <= all.len(),
            t == texts(all@),
            f == line_rule(skip@),
            texts(r@) == collect(t.take(i as int), f),
        decreases all.len() - i,
    {
        proof {
            collect_step(t, f, i as int);
        }
        let line = trim(all[i].as_str());
        assert(line@ == spec_trim(t[i as int]));
        if !line.as_str().is_empty() && !same(line.as_str(), skip) {
            r.push(line);
        }
        i += 1;
    }
    assert(t.take(t.len() as int) =~= t);
    r
}

/// Whether the list is the sorted, repeat-free form of the lines that a command printed.
pub open spec fn sorted_lines(r: Seq<String>, out: Seq<char>, skip: Seq<char>) -> bool {
    exists|v: Seq<String>|
        texts(v) == collect(spec_lines(out), line_rule(skip)) && texts(r) == without_repeats(
            texts(#[trigger] sorted(v)),
        )
}

fn sorted_set(out: &str, skip: &str) -> (r: Vec<String>)
    ensures
        sorted_lines(r@, out@, skip@),
{
    let all = listed_lines(out, skip);
    let ghost v = all@;
    let ordered = sort(all);
    assert(ordered@ == sorted(v));
    dedup(&ordered)
}

/// The projects that own a container, running or stopped. A probe that failed says nothing.
pub fn projects_with_containers(success: bool, out: &str) -> (r: Option<Vec<String>>)
    ensures
        match r {
            Some(v) => success && sorted_lines(v@, out@, ""@),
            None => !success,
        },
{
    if !success {
        None
    } else {
        Some(sorted_set(out, ""))
    }
}

/// The tagged images.
pub fn image_repositories(out: &str) -> (r: Vec<String>)
    ensures
        sorted_lines(r@, out@, "<none>"@),
{
    sorted_set(out, "<none>")
}

/// A volume and the project that it is labelled for.
#[derive(Clone, Debug)]
pub struct Volume {
    pub name: String,
    pub project: Option<String>,
}

pub open spec fn volume_said(name: Option<JsonView>, labels: Option<JsonView>) -> Option<
    (Seq<char>, Option<Seq<char>>),
> {
    match name {
        Some(JsonView::Text(n)) => Some(
            (
                n,
                match labels {
                    Some(JsonView::Text(l)) => label_in(l, COMPOSE_PROJECT_LABEL@),
                    _ => None,
                },
            ),
        ),
        _ => None,
    }
}

/// Reads a volume from the values of its line.
pub fn volume_of(name: &Option<Json>, labels: &Option<Json>) -> (r: Option<Volume>)
    ensures
        match r {
            Some(v) => volume_said(value_view(*name), value_view(*labels)) == Some(
                (v.name@, opt_text(v.project)),
            ),
            None => volume_said(value_view(*name), value_view(*labels)) is None,
        },
{
    match name {
        Some(Json::Text(n)) => Some(
            Volume {
                name: n.clone(),
                project: match labels {
                    Some(Json::Text(l)) => label_value(l.as_str(), COMPOSE_PROJECT_LABEL),
                    _ => None,
                },
            },
        ),
        _ => None,
    }
}

pub open spec fn volume_rule() -> spec_fn(Seq<char>) -> Option<(Seq<char>, Option<Seq<char>>)> {
    |line: Seq<char>| volume_said(json_member(line, "Name"@), json_member(line, "Labels"@))
}

pub open spec fn volumes_view(v: Seq<Volume>) -> Seq<(Seq<char>, Option<Seq<char>>)> {
    v.map_values(|x: Volume| (x.name@, opt_text(x.project)))
}

/// The volumes in a listing of one JSON object per line.
pub fn volumes_with_project_labels(out: &str) -> (r: Vec<Volume>)
    ensures
        volumes_view(r@) == collect(spec_lines(out@), volume_rule()),
{
    let all = lines(out);
    let ghost t = texts(all@);
    let ghost f = volume_rule();
    let mut r: Vec<Volume> = Vec::new();
    let mut i: usize = 0;
    assert(t.take(0) =~= Seq::empty());
    assert(volumes_view(r@) =~= Seq::empty());
    while i < all.len()
        invariant
            i <= all.len(),
            t == texts(all@),
            f == volume_rule(),
            volumes_view(r@) == collect(t.take(i as int), f),
        decreases all.len() - i,
    {
        proof {
            collect_step(t, f, i as int);
            assert(t[i as int] == all@[i as int]@);
        }
        let name = read_member(all[i].as_str(), "Name");
        let labels = read_member(all[i].as_str(), "Labels");
        if let Some(v) = volume_of(&name, &labels) {
            let ghost before = volumes_view(r@);
            let ghost vv = (v.name@, opt_text(v.project));
            r.push(v);
            assert(volumes_view(r@) =~= before.push(vv));
        }
        i += 1;
    }
    assert(t.take(t.len() as int) =~= t);
    r
}

pub open spec fn swept_rule() -> spec_fn((String, bool)) -> Option<String> {
    |c: (String, bool)|
        if c.1 {
            Some(c.0)
        } else {
            None
        }
}

/// What a sweep removes: what the policy lets go, and nothing at all where the evidence that it
/// goes by could not be had.
pub fn to_sweep(evidence: bool, candidates: &Vec<(String, bool)>) -> (r: Vec<String>)
    ensures
        r@ == if evidence {
            collect(candidates@, swept_rule())
        } else {
            Seq::empty()
        },
{
    let mut r: Vec<String> = Vec::new();
    if !evidence {
        return r;
    }
    let ghost f = swept_rule();
    let mut i: usize = 0;
    assert(candidates@.take(0) =~= Seq::empty());
    while i < candidates.len()
        invariant
            i <= candidates.len(),
            f == swept_rule(),
            r@ == collect(candidates@.take(i as int), f),
        decreases candidates.len() - i,
    {
        proof {
            collect_step(candidates@, f, i as int);
        }
        if candidates[i].1 {
            let name = candidates[i].0.clone();
            r.push(name);
        }
        i += 1;
    }
    assert(candidates@.take(candidates@.len() as int) =~= candidates@);
    r
}

/// What the daemon answered to a probe.
#[derive(Clone, Debug)]
pub struct Answer {
    pub success: bool,
    pub stdout: String,
}

/// Whether an image counts as referenced. Only a successful and empty answer proves that no
/// container holds it.
pub fn image_referenced(answer: &Option<Answer>) -> (b: bool)
    ensures
        b == match *answer {
            Some(a) => !(a.success && spec_trim(a.stdout@).len() == 0),
            None => true,
        },
{
    match answer {
        Some(a) => {
            let t = trim(a.stdout.as_str());
            !(a.success && t.as_str().is_empty())
        },
        None => true,
    }
}

/// What runs is safe: a running project goes only if the policy lets it go, it is a preview, and
/// its time is up.
pub proof fn a_running_project_is_kept(reclaimable: bool, name: Seq<char>, status: Seq<char>, stale: bool)
    requires
        spec_contains(status, "running"@),
        !(reclaimable && spec_starts(name, PREVIEW_PROJECT_PREFIX@) && stale),
    ensures
        reclaim_of(reclaimable, name, status, stale) == Reclaim::Keep,
{
}

/// A compose project goes exactly where the policy lets it go and it does not run, or it is a
/// preview whose time is up. Whatever the policy keeps stays.
pub proof fn what_is_taken_down(reclaimable: bool, name: Seq<char>, status: Seq<char>, stale: bool)
    ensures
        ({
            let runs = spec_contains(status, "running"@);
            &&& reclaim_of(reclaimable, name, status, stale) == Reclaim::Dead <==> reclaimable && !runs
            &&& reclaim_of(reclaimable, name, status, stale) == Reclaim::ExpiredPreview
                <==> reclaimable && runs && stale && "cox--preview-"@.is_prefix_of(name)
        }),
{
    let p = "cox--preview-"@;
    if spec_starts(name, p) {
        assert(p =~= name.subrange(0, p.len() as int));
    }
    if p.is_prefix_of(name) {
        assert(name.take(p.len() as int) =~= p);
    }
}

/// A listing is read line by line, without the white space around each; blank lines and the one
/// to be skipped are left out.
pub proof fn a_listing_is_read_line_by_line(all: Seq<Seq<char>>, skip: Seq<char>)
    ensures
        collect(all, line_rule(skip)) == all.filter(
            |l: Seq<char>| spec_trim(l).len() > 0 && spec_trim(l) != skip,
        ).map_values(|l: Seq<char>| spec_trim(l)),
{
    collected_is_filtered(
        all,
        line_rule(skip),
        |l: Seq<char>| spec_trim(l).len() > 0 && spec_trim(l) != skip,
        |l: Seq<char>| spec_trim(l),
    );
}

/// What a command printed is listed once each: a text is on the list exactly where a line says it,
/// and no two neighbours on the list are alike.
pub proof fn what_is_printed_is_listed_once(r: Seq<String>, out: Seq<char>, skip: Seq<char>, x: Seq<char>)
    requires
        sorted_lines(r, out, skip),
    ensures
        texts(r).contains(x) <==> x.len() > 0 && x != skip && exists|i: int|
            0 <= i < spec_lines(out).len() && spec_trim(#[trigger] spec_lines(out)[i]) == x,
        forall|i: int| 0 <= i < r.len() - 1 ==> (#[trigger] r[i])@ != r[i + 1]@,
{
    let all = spec_lines(out);
    let rule = line_rule(skip);
    let v = choose|v: Seq<String>|
        texts(v) == collect(all, rule) && texts(r) == without_repeats(texts(#[trigger] sorted(v)));
    let s = sorted(v);
    repeats_go_and_nothing_else(texts(s), x);
    assert forall|i: int| 0 <= i < r.len() - 1 implies (#[trigger] r[i])@ != r[i + 1]@ by {
        assert(without_repeats(texts(s))[i] == r[i]@);
        assert(without_repeats(texts(s))[i + 1] == r[i + 1]@);
    }
    if texts(s).contains(x) {
        let k = choose|k: int| 0 <= k < texts(s).len() && texts(s)[k] == x;
        sorting_adds_nothing(v, s[k]);
        let m = choose|m: int| 0 <= m < v.len() && v[m] == s[k];
        assert(texts(v)[m] == x);
        collected_has_source(all, rule, m);
    }
    if x.len() > 0 && x != skip && exists|i: int|
        0 <= i < all.len() && spec_trim(#[trigger] all[i]) == x {
        let i = choose|i: int| 0 <= i < all.len() && spec_trim(#[trigger] all[i]) == x;
        source_is_collected(all, rule, i);
        let m = choose|m: int| 0 <= m < collect(all, rule).len() && collect(all, rule)[m] == x;
        assert(texts(v)[m] == v[m]@);
        sorting_adds_nothing(v, v[m]);
        let k = choose|k: int| 0 <= k < s.len() && s[k] == v[m];
        assert(texts(s)[k] == x);
    }
}

/// Every listed project with a name is read, with its status; one without a name is skipped.
pub proof fn a_listed_project_has_a_name(item: Seq<char>)
    ensures
        match project_rule()(item) {
            Some((name, status)) => {
                &&& json_member(item, "Name"@) == Some(JsonView::Text(name))
                &&& json_member(item, "Status"@) == Some(JsonView::Text(status)) || status.len() == 0
                &&& match json_member(item, "Status"@) {
                    Some(JsonView::Text(s)) => status == s,
                    _ => status.len() == 0,
                }
            },
            None => match json_member(item, "Name"@) {
                Some(JsonView::Text(_)) => false,
                _ => true,
            },
        },
{
}

/// Every listed volume with a name is read, with the project that it is labelled for; one without a
/// label belongs to none.
pub proof fn a_listed_volume_has_a_name(line: Seq<char>)
    ensures
        match volume_rule()(line) {
            Some((name, project)) => {
                &&& json_member(line, "Name"@) == Some(JsonView::Text(name))
                &&& match json_member(line, "Labels"@) {
                    Some(JsonView::Text(l)) => project == label_in(l, "com.docker.compose.project"@),
                    _ => project is None,
                }
            },
            None => match json_member(line, "Name"@) {
                Some(JsonView::Text(_)) => false,
                _ => true,
            },
        },
{
}

/// A sweep takes exactly what the policy lets go, in its order.
pub proof fn a_sweep_takes_what_may_go(candidates: Seq<(String, bool)>)
    ensures
        collect(candidates, swept_rule()) == candidates.filter(
            |c: (String, bool)| c.1,
        ).map_values(|c: (String, bool)| c.0),
{
    collected_is_filtered(
        candidates,
        swept_rule(),
        |c: (String, bool)| c.1,
        |c: (String, bool)| c.0,
    );
}

} // verus!
