//! The public status page: what it may show, and how it is rendered. Counts, identifiers and
//! cleaned summaries only; it never gets the token that unlocks it.

use crate::board::{Priority, Status, TicketType};
use crate::clock::{rfc3339_secs, spec_secs};
use crate::lists::{
    collect, collect_step, collected_has_source, collected_is_filtered, kept_is_filtered,
};
use crate::text::{
    copy_texts, decimal, digit_char, escaped_text_has_no_markup, html_escape, join3, join_with,
    lines, owned, same, spec_at, spec_contains, spec_decimal, spec_html_escape, spec_join,
    spec_lines, spec_starts, spec_strip_prefixes, starts_with, strip_prefixes, texts,
};
use vstd::prelude::*;

verus! {

/// A heartbeat older than this is stale, in seconds.
pub const HEARTBEAT_STALE_SECS: i64 = 900;

/// Work in progress without a deployment this recent is flagged, in seconds.
pub const DEPLOY_STALE_SECS: i64 = 604_800;

/// How many shipped records are listed.
pub const SHIPPED_SHOWN: usize = 5;

/// The open bugs by severity.
#[derive(Clone, Copy, Debug, PartialEq, Eq, Structural)]
pub struct BugCounts {
    pub high: usize,
    pub medium: usize,
    pub low: usize,
}

/// How fresh the freshest heartbeat is.
#[derive(Clone, Copy, Debug, PartialEq, Eq, Structural)]
pub enum Heartbeat {
    /// None came, or none whose time could be read.
    Missing,
    /// It came this many seconds ago.
    Fresh(i64),
    /// It came this many seconds ago, which is too long.
    Stale(i64),
}

/// A registered worker: who, in which role, on which ticket, when it last was heard of.
#[derive(Clone, Debug)]
pub struct WorkerEntry {
    pub worker: String,
    pub role: String,
    pub ticket: String,
    pub at: String,
}

/// What the page reads of a ticket.
#[derive(Clone, Debug)]
pub struct ShareTicket {
    pub id: String,
    pub ticket_type: TicketType,
    pub status: Status,
    pub priority: Priority,
}

/// A deployed piece of work.
#[derive(Clone, Debug)]
pub struct Deploy {
    pub version: String,
    pub ticket: String,
    pub title: String,
    pub at: String,
}

/// What the page reads of a project.
#[derive(Clone, Debug)]
pub struct ShareState {
    pub cycle: u64,
    pub tickets: Vec<ShareTicket>,
    pub open_prs: Vec<u64>,
    pub history: Vec<Deploy>,
    pub fail_attempts: Vec<(String, u64)>,
    pub cost_holds: Vec<String>,
    pub human_holds: Vec<u64>,
    /// Whether the last deployment went well, where there was one.
    pub deploy_ok: Option<bool>,
    /// The daily summary, in Markdown.
    pub digest: String,
    /// When and what the agents did last.
    pub last_activity: Option<(String, String)>,
    pub display_name: Option<String>,
}

/// A role and the ticket it works on.
#[derive(Clone, Debug)]
pub struct InFlight {
    pub role: String,
    pub ticket: String,
}

/// A line of shipped work.
#[derive(Clone, Debug)]
pub struct ShippedRow {
    pub version: String,
    pub ticket: String,
    pub title: String,
}

/// Everything that the page may show.
#[derive(Clone, Debug)]
pub struct ShareSnapshot {
    pub heartbeat: Heartbeat,
    pub in_flight: Vec<InFlight>,
    pub bugs: BugCounts,
    pub prs_in_review: Vec<u64>,
    pub shipped: Vec<ShippedRow>,
    pub parked: Vec<String>,
    pub cost_holds: Vec<String>,
    pub on_hold: Vec<String>,
    pub human_holds: Vec<u64>,
    pub warnings: Vec<String>,
    pub digest: Vec<String>,
}

/// The time of the freshest heartbeat among the first `n` workers.
pub open spec fn newest_beat(workers: Seq<WorkerEntry>, n: int) -> Option<int>
    decreases n,
{
    if n <= 0 {
        None
    } else {
        let before = newest_beat(workers, n - 1);
        match spec_secs(workers[n - 1].at@) {
            None => before,
            Some(at) => match before {
                Some(b) => if b >= at {
                    Some(b)
                } else {
                    Some(at)
                },
                None => Some(at),
            },
        }
    }
}

/// The seconds since an instant; one in the future is now.
pub open spec fn age_at(now: int, at: int) -> int {
    if now - at < 0 {
        0
    } else if now - at > i64::MAX {
        i64::MAX as int
    } else {
        now - at
    }
}

pub open spec fn classified(newest: Option<int>, now: int) -> Heartbeat {
    match newest {
        None => Heartbeat::Missing,
        Some(at) => if age_at(now, at) <= HEARTBEAT_STALE_SECS {
            Heartbeat::Fresh(age_at(now, at) as i64)
        } else {
            Heartbeat::Stale(age_at(now, at) as i64)
        },
    }
}

/// Classifies the freshest heartbeat. A time that cannot be read is ignored, not trusted.
pub fn heartbeat_age(workers: &Vec<WorkerEntry>, now_secs: i64) -> (r: Heartbeat)
    ensures
        r == classified(newest_beat(workers@, workers@.len() as int), now_secs as int),
{
    let mut newest: Option<i64> = None;
    let mut i: usize = 0;
    while i < workers.len()
        invariant
            i <= workers.len(),
            match newest {
                Some(b) => newest_beat(workers@, i as int) == Some(b as int),
                None => newest_beat(workers@, i as int) is None,
            },
        decreases workers.len() - i,
    {
        if let Some(at) = rfc3339_secs(workers[i].at.as_str()) {
            newest = match newest {
                Some(b) => if b >= at {
                    Some(b)
                } else {
                    Some(at)
                },
                None => Some(at),
            };
        }
        i += 1;
    }
    match newest {
        None => Heartbeat::Missing,
        Some(at) => {
            let wide: i128 = now_secs as i128 - at as i128;
            let age: i64 = if wide < 0 {
                0
            } else if wide > i64::MAX as i128 {
                i64::MAX
            } else {
                wide as i64
            };
            if age <= HEARTBEAT_STALE_SECS {
                Heartbeat::Fresh(age)
            } else {
                Heartbeat::Stale(age)
            }
        },
    }
}

/// An age in words.
pub open spec fn spec_age(secs: i64) -> Seq<char> {
    if secs < 60 {
        "just now"@
    } else if secs < 3600 {
        spec_decimal((secs / 60) as nat) + " min ago"@
    } else {
        spec_decimal((secs / 3600) as nat) + " h ago"@
    }
}

/// Says an age in words.
pub fn age_phrase(secs: i64) -> (r: String)
    ensures
        r@ == spec_age(secs),
{
    if secs < 60 {
        owned("just now")
    } else if secs < 3600 {
        let mut r = decimal(secs as u64 / 60);
        r.append(" min ago");
        r
    } else {
        let mut r = decimal(secs as u64 / 3600);
        r.append(" h ago");
        r
    }
}

pub open spec fn in_progress(tickets: Seq<ShareTicket>) -> bool {
    exists|i: int| 0 <= i < tickets.len() && (#[trigger] tickets[i]).status == Status::InProgress
}

fn any_in_progress(tickets: &Vec<ShareTicket>) -> (b: bool)
    ensures
        b == in_progress(tickets@),
{
    let mut i: usize = 0;
    while i < tickets.len()
        invariant
            i <= tickets.len(),
            forall|j: int| 0 <= j < i ==> (#[trigger] tickets@[j]).status != Status::InProgress,
        decreases tickets.len() - i,
    {
        if tickets[i].status == Status::InProgress {
            return true;
        }
        i += 1;
    }
    false
}

/// Whether something was deployed within the week.
pub open spec fn shipped_recently(history: Seq<Deploy>, now: int) -> bool {
    exists|i: int|
        0 <= i < history.len() && spec_secs((#[trigger] history[i]).at@) is Some && now - spec_secs(
            history[i].at@,
        )->0 <= DEPLOY_STALE_SECS
}

fn any_recent(history: &Vec<Deploy>, now_secs: i64) -> (b: bool)
    ensures
        b == shipped_recently(history@, now_secs as int),
{
    let mut i: usize = 0;
    while i < history.len()
        invariant
            i <= history.len(),
            forall|j: int|
                0 <= j < i ==> !(spec_secs((#[trigger] history@[j]).at@) is Some && now_secs
                    - spec_secs(history@[j].at@)->0 <= DEPLOY_STALE_SECS),
        decreases history.len() - i,
    {
        if let Some(at) = rfc3339_secs(history[i].at.as_str()) {
            let wide: i128 = now_secs as i128 - at as i128;
            if wide <= DEPLOY_STALE_SECS as i128 {
                return true;
            }
        }
        i += 1;
    }
    false
}

pub open spec fn beat_warning(s: ShareState, h: Heartbeat) -> Seq<Seq<char>> {
    if s.cycle > 0 || s.tickets@.len() > 0 {
        match h {
            Heartbeat::Stale(age) => seq![
                "Runner heartbeat is stale (last seen "@ + spec_age(age) + ")"@,
            ],
            Heartbeat::Missing => seq!["No runner heartbeat has been received"@],
            Heartbeat::Fresh(_) => Seq::empty(),
        }
    } else {
        Seq::empty()
    }
}

/// What the page warns of: a runner that fell silent while there is work, a failed deployment,
/// work in progress of which nothing ships.
pub open spec fn warnings_of(s: ShareState, h: Heartbeat, now: int) -> Seq<Seq<char>> {
    beat_warning(s, h) + (if s.deploy_ok == Some(false) {
        seq!["The last deploy attempt failed"@]
    } else {
        Seq::empty()
    }) + (if in_progress(s.tickets@) && !shipped_recently(s.history@, now) {
        seq!["Tickets are in progress but nothing has deployed in 7 days"@]
    } else {
        Seq::empty()
    })
}

/// Collects the warnings.
pub fn degraded_warnings(s: &ShareState, h: Heartbeat, now_secs: i64) -> (r: Vec<String>)
    ensures
        texts(r@) == warnings_of(*s, h, now_secs as int),
{
    broadcast use crate::text::texts_push, crate::text::texts_empty;

    let mut r: Vec<String> = Vec::new();
    if s.cycle > 0 || s.tickets.len() > 0 {
        match h {
            Heartbeat::Stale(age) => {
                let mut text = owned("Runner heartbeat is stale (last seen ");
                let said = age_phrase(age);
                text.append(said.as_str());
                text.append(")");
                r.push(text);
            },
            Heartbeat::Missing => {
                r.push(owned("No runner heartbeat has been received"));
            },
            Heartbeat::Fresh(_) => {},
        }
    }
    assert(texts(r@) =~= beat_warning(*s, h));
    let failed = match s.deploy_ok {
        Some(ok) => !ok,
        None => false,
    };
    if failed {
        r.push(owned("The last deploy attempt failed"));
    }
    if any_in_progress(&s.tickets) && !any_recent(&s.history, now_secs) {
        r.push(owned("Tickets are in progress but nothing has deployed in 7 days"));
    }
    assert(texts(r@) =~= warnings_of(*s, h, now_secs as int));
    r
}

pub open spec fn digest_rule() -> spec_fn(Seq<char>) -> Option<Seq<char>> {
    |line: Seq<char>|
        if spec_starts(line, "**Daily digest"@) || spec_starts(line, "- Spend"@) {
            None
        } else {
            Some(line)
        }
}

/// The lines of a summary without its header and everything on spend.
pub fn sanitized_digest(markdown: &str) -> (r: Vec<String>)
    ensures
        texts(r@) == collect(spec_lines(markdown@), digest_rule()),
{
    broadcast use crate::text::texts_push, crate::text::texts_empty;

    let all = lines(markdown);
    let ghost t = texts(all@);
    let ghost f = digest_rule();
    let mut r: Vec<String> = Vec::new();
    let mut i: usize = 0;
    assert(t.take(0) =~= Seq::empty());
    while i < all.len()
        invariant
            i <= all.len(),
            t == texts(all@),
            f == digest_rule(),
            texts(r@) == collect(t.take(i as int), f),
        decreases all.len() - i,
    {
        proof {
            collect_step(t, f, i as int);
        }
        let line = all[i].clone();
        assert(t[i as int] == line@);
        if !starts_with(line.as_str(), "**Daily digest") && !starts_with(line.as_str(), "- Spend") {
            r.push(line);
        }
        i += 1;
    }
    assert(t.take(t.len() as int) =~= t);
    r
}

/// Spend never reaches the page: no line of the cleaned summary is a spend line.
pub proof fn spend_never_reaches_the_page(markdown: Seq<char>, k: int)
    requires
        0 <= k < collect(spec_lines(markdown), digest_rule()).len(),
    ensures
        !spec_starts(collect(spec_lines(markdown), digest_rule())[k], "- Spend"@),
{
    collected_has_source(spec_lines(markdown), digest_rule(), k);
}

pub open spec fn flight_rule() -> spec_fn(WorkerEntry) -> Option<InFlight> {
    |w: WorkerEntry|
        if w.ticket@.len() == 0 || w.role@ == "idle"@ {
            None
        } else {
            Some(InFlight { role: w.role, ticket: w.ticket })
        }
}

fn flights(workers: &Vec<WorkerEntry>) -> (r: Vec<InFlight>)
    ensures
        r@ == collect(workers@, flight_rule()),
{
    let mut r: Vec<InFlight> = Vec::new();
    let ghost f = flight_rule();
    let mut i: usize = 0;
    assert(workers@.take(0) =~= Seq::empty());
    while i < workers.len()
        invariant
            i <= workers.len(),
            f == flight_rule(),
            r@ == collect(workers@.take(i as int), f),
        decreases workers.len() - i,
    {
        proof {
            collect_step(workers@, f, i as int);
        }
        let w = &workers[i];
        if !w.ticket.as_str().is_empty() && !same(w.role.as_str(), "idle") {
            r.push(InFlight { role: w.role.clone(), ticket: w.ticket.clone() });
        }
        i += 1;
    }
    assert(workers@.take(workers@.len() as int) =~= workers@);
    r
}

/// How many of the first `n` tickets are open bugs of that priority.
pub open spec fn open_bugs(tickets: Seq<ShareTicket>, n: int, p: Priority) -> nat
    decreases n,
{
    if n <= 0 {
        0
    } else {
        open_bugs(tickets, n - 1, p) + if tickets[n - 1].ticket_type == TicketType::Bug
            && tickets[n - 1].status == Status::Open && tickets[n - 1].priority == p {
            1nat
        } else {
            0nat
        }
    }
}

fn count_bugs(tickets: &Vec<ShareTicket>) -> (r: BugCounts)
    ensures
        r.high == open_bugs(tickets@, tickets@.len() as int, Priority::High),
        r.medium == open_bugs(tickets@, tickets@.len() as int, Priority::Medium),
        r.low == open_bugs(tickets@, tickets@.len() as int, Priority::Low),
        r.high + r.medium + r.low <= tickets@.len(),
{
    let mut r = BugCounts { high: 0, medium: 0, low: 0 };
    let mut i: usize = 0;
    while i < tickets.len()
        invariant
            i <= tickets.len(),
            r.high == open_bugs(tickets@, i as int, Priority::High),
            r.medium == open_bugs(tickets@, i as int, Priority::Medium),
            r.low == open_bugs(tickets@, i as int, Priority::Low),
            r.high + r.medium + r.low <= i,
        decreases tickets.len() - i,
    {
        let t = &tickets[i];
        if t.ticket_type == TicketType::Bug && t.status == Status::Open {
            match t.priority {
                Priority::High => {
                    r.high = r.high + 1;
                },
                Priority::Medium => {
                    r.medium = r.medium + 1;
                },
                Priority::Low => {
                    r.low = r.low + 1;
                },
            }
        }
        i += 1;
    }
    r
}

/// The newest deployments, newest first.
pub open spec fn shipped_rows(history: Seq<Deploy>) -> Seq<ShippedRow> {
    Seq::new(
        if history.len() < SHIPPED_SHOWN {
            history.len()
        } else {
            SHIPPED_SHOWN as nat
        },
        |i: int|
            ShippedRow {
                version: history[history.len() - 1 - i].version,
                ticket: history[history.len() - 1 - i].ticket,
                title: history[history.len() - 1 - i].title,
            },
    )
}

fn shipped(history: &Vec<Deploy>) -> (r: Vec<ShippedRow>)
    ensures
        r@ == shipped_rows(history@),
{
    let mut r: Vec<ShippedRow> = Vec::new();
    let n: usize = history.len();
    while r.len() < n && r.len() < SHIPPED_SHOWN
        invariant
            n == history@.len(),
            r@.len() <= n,
            r@.len() <= SHIPPED_SHOWN,
            forall|i: int| 0 <= i < r@.len() ==> #[trigger] r@[i] == shipped_rows(history@)[i],
        decreases n - r@.len(),
    {
        let d = &history[n - 1 - r.len()];
        let row = ShippedRow {
            version: d.version.clone(),
            ticket: d.ticket.clone(),
            title: d.title.clone(),
        };
        assert(row == shipped_rows(history@)[r@.len() as int]);
        r.push(row);
    }
    assert(r@ =~= shipped_rows(history@));
    r
}

pub open spec fn parked_rule() -> spec_fn((String, u64)) -> Option<String> {
    |p: (String, u64)|
        if p.1 >= 3 {
            Some(p.0)
        } else {
            None
        }
}

fn parked(attempts: &Vec<(String, u64)>) -> (r: Vec<String>)
    ensures
        r@ == collect(attempts@, parked_rule()),
{
    let mut r: Vec<String> = Vec::new();
    let ghost f = parked_rule();
    let mut i: usize = 0;
    assert(attempts@.take(0) =~= Seq::empty());
    while i < attempts.len()
        invariant
            i <= attempts.len(),
            f == parked_rule(),
            r@ == collect(attempts@.take(i as int), f),
        decreases attempts.len() - i,
    {
        proof {
            collect_step(attempts@, f, i as int);
        }
        if attempts[i].1 >= 3 {
            let id = attempts[i].0.clone();
            r.push(id);
        }
        i += 1;
    }
    assert(attempts@.take(attempts@.len() as int) =~= attempts@);
    r
}

pub open spec fn on_hold_rule() -> spec_fn(ShareTicket) -> Option<String> {
    |t: ShareTicket|
        if t.status == Status::OnHold {
            Some(t.id)
        } else {
            None
        }
}

fn held_tickets(tickets: &Vec<ShareTicket>) -> (r: Vec<String>)
    ensures
        r@ == collect(tickets@, on_hold_rule()),
{
    let mut r: Vec<String> = Vec::new();
    let ghost f = on_hold_rule();
    let mut i: usize = 0;
    assert(tickets@.take(0) =~= Seq::empty());
    while i < tickets.len()
        invariant
            i <= tickets.len(),
            f == on_hold_rule(),
            r@ == collect(tickets@.take(i as int), f),
        decreases tickets.len() - i,
    {
        proof {
            collect_step(tickets@, f, i as int);
        }
        if tickets[i].status == Status::OnHold {
            let id = tickets[i].id.clone();
            r.push(id);
        }
        i += 1;
    }
    assert(tickets@.take(tickets@.len() as int) =~= tickets@);
    r
}

fn copy_numbers(v: &Vec<u64>) -> (r: Vec<u64>)
    ensures
        r@ == v@,
{
    let mut r: Vec<u64> = Vec::new();
    let mut i: usize = 0;
    while i < v.len()
        invariant
            i <= v.len(),
            r@ =~= v@.take(i as int),
        decreases v.len() - i,
    {
        r.push(v[i]);
        i += 1;
    }
    r
}

/// What the page shows of a project, and nothing else.
pub open spec fn snapshot_of(
    s: ShareState,
    workers: Seq<WorkerEntry>,
    now: int,
    r: ShareSnapshot,
) -> bool {
    &&& r.heartbeat == classified(newest_beat(workers, workers.len() as int), now)
    &&& r.in_flight@ == collect(workers, flight_rule())
    &&& r.bugs.high == open_bugs(s.tickets@, s.tickets@.len() as int, Priority::High)
    &&& r.bugs.medium == open_bugs(s.tickets@, s.tickets@.len() as int, Priority::Medium)
    &&& r.bugs.low == open_bugs(s.tickets@, s.tickets@.len() as int, Priority::Low)
    &&& r.prs_in_review@ == s.open_prs@
    &&& r.shipped@ == shipped_rows(s.history@)
    &&& r.parked@ == collect(s.fail_attempts@, parked_rule())
    &&& r.cost_holds@ == s.cost_holds@
    &&& r.on_hold@ == collect(s.tickets@, on_hold_rule())
    &&& r.human_holds@ == s.human_holds@
    &&& texts(r.warnings@) == warnings_of(s, r.heartbeat, now)
    &&& texts(r.digest@) == collect(spec_lines(s.digest@), digest_rule())
}

/// Computes what the page shows.
pub fn share_snapshot(s: &ShareState, workers: &Vec<WorkerEntry>, now_secs: i64) -> (r:
    ShareSnapshot)
    ensures
        snapshot_of(*s, workers@, now_secs as int, r),
        r.bugs.high + r.bugs.medium + r.bugs.low <= s.tickets@.len(),
{
    let heartbeat = heartbeat_age(workers, now_secs);
    ShareSnapshot {
        heartbeat,
        in_flight: flights(workers),
        bugs: count_bugs(&s.tickets),
        prs_in_review: copy_numbers(&s.open_prs),
        shipped: shipped(&s.history),
        parked: parked(&s.fail_attempts),
        cost_holds: copy_texts(&s.cost_holds),
        on_hold: held_tickets(&s.tickets),
        human_holds: copy_numbers(&s.human_holds),
        warnings: degraded_warnings(s, heartbeat, now_secs),
        digest: sanitized_digest(s.digest.as_str()),
    }
}

/// The name on the page: the project's own, else the registered one.
pub open spec fn display_name(s: ShareState, registered: Seq<char>) -> Seq<char> {
    match s.display_name {
        Some(n) => n@,
        None => registered,
    }
}

pub open spec fn banner_items(w: Seq<String>, n: int) -> Seq<char>
    decreases n,
{
    if n <= 0 {
        Seq::empty()
    } else {
        banner_items(w, n - 1) + "<li>"@ + spec_html_escape(w[n - 1]@) + "</li>"@
    }
}

/// The banner of a page that needs attention; a healthy page has none.
pub open spec fn banner_html(w: Seq<String>) -> Seq<char> {
    if w.len() == 0 {
        Seq::empty()
    } else {
        "<section class=\"banner warn\"><h2>Needs attention</h2><ul>"@ + banner_items(
            w,
            w.len() as int,
        ) + "</ul></section>"@
    }
}

fn list_items(w: &Vec<String>) -> (r: String)
    ensures
        r@ == banner_items(w@, w@.len() as int),
{
    let mut r = String::new();
    let mut i: usize = 0;
    while i < w.len()
        invariant
            i <= w.len(),
            r@ == banner_items(w@, i as int),
        decreases w.len() - i,
    {
        let e = html_escape(w[i].as_str());
        r.append("<li>");
        r.append(e.as_str());
        r.append("</li>");
        i += 1;
    }
    r
}

/// Renders the banner.
pub fn degraded_banner(snap: &ShareSnapshot) -> (r: String)
    ensures
        r@ == banner_html(snap.warnings@),
{
    if snap.warnings.len() == 0 {
        return String::new();
    }
    let items = list_items(&snap.warnings);
    let mut r = owned("<section class=\"banner warn\"><h2>Needs attention</h2><ul>");
    r.append(items.as_str());
    r.append("</ul></section>");
    r
}

pub open spec fn health_label(h: Heartbeat) -> Seq<char> {
    match h {
        Heartbeat::Fresh(_) => "Healthy"@,
        Heartbeat::Stale(_) => "Stale"@,
        Heartbeat::Missing => "Unknown"@,
    }
}

pub open spec fn health_class(h: Heartbeat) -> Seq<char> {
    match h {
        Heartbeat::Fresh(_) => "ok"@,
        Heartbeat::Stale(_) => "warn"@,
        Heartbeat::Missing => "warn"@,
    }
}

pub open spec fn last_beat(h: Heartbeat) -> Seq<char> {
    match h {
        Heartbeat::Fresh(age) => spec_age(age),
        Heartbeat::Stale(age) => spec_age(age),
        Heartbeat::Missing => "no heartbeat seen"@,
    }
}

pub open spec fn activity_text(s: ShareState) -> Seq<char> {
    match s.last_activity {
        Some(a) => a.0@ + " — "@ + a.1@,
        None => "none yet"@,
    }
}

pub open spec fn health_html(s: ShareState, h: Heartbeat) -> Seq<char> {
    "<section class=\"card\"><h2>Runner health</h2>\n<span class=\"badge "@ + health_class(h)
        + "\">"@ + health_label(h) + "</span>\n<p class=\"sub\">last heartbeat: "@ + last_beat(h)
        + "</p>\n<p class=\"sub\">cycle "@ + spec_decimal(s.cycle as nat)
        + " · last agent activity "@ + spec_html_escape(activity_text(s)) + "</p></section>"@
}

fn health_card(s: &ShareState, h: Heartbeat) -> (r: String)
    ensures
        r@ == health_html(*s, h),
{
    let label = match h {
        Heartbeat::Fresh(_) => "Healthy",
        Heartbeat::Stale(_) => "Stale",
        Heartbeat::Missing => "Unknown",
    };
    let class = match h {
        Heartbeat::Fresh(_) => "ok",
        Heartbeat::Stale(_) => "warn",
        Heartbeat::Missing => "warn",
    };
    let beat = match h {
        Heartbeat::Fresh(age) => age_phrase(age),
        Heartbeat::Stale(age) => age_phrase(age),
        Heartbeat::Missing => owned("no heartbeat seen"),
    };
    let activity = match &s.last_activity {
        Some(a) => {
            let mut t = owned(a.0.as_str());
            t.append(" — ");
            t.append(a.1.as_str());
            t
        },
        None => owned("none yet"),
    };
    let escaped = html_escape(activity.as_str());
    let cycle = decimal(s.cycle);
    let mut r = owned("<section class=\"card\"><h2>Runner health</h2>\n<span class=\"badge ");
    r.append(class);
    r.append("\">");
    r.append(label);
    r.append("</span>\n<p class=\"sub\">last heartbeat: ");
    r.append(beat.as_str());
    r.append("</p>\n<p class=\"sub\">cycle ");
    r.append(cycle.as_str());
    r.append(" · last agent activity ");
    r.append(escaped.as_str());
    r.append("</p></section>");
    r
}

pub open spec fn bugs_html(b: BugCounts) -> Seq<char> {
    "<section class=\"card\"><h2>Open bugs</h2>\n<div class=\"row\"><span class=\"badge err\">"@
        + spec_decimal(b.high as nat) + " high</span><span class=\"badge warn\">"@ + spec_decimal(
        b.medium as nat,
    ) + " medium</span><span class=\"badge ok\">"@ + spec_decimal(b.low as nat)
        + " low</span></div>\n<p class=\"sub\">"@ + spec_decimal(
        (b.high + b.medium + b.low) as nat,
    ) + " open total</p></section>"@
}

fn bugs_card(b: BugCounts) -> (r: String)
    requires
        b.high + b.medium + b.low <= usize::MAX,
    ensures
        r@ == bugs_html(b),
{
    let high = decimal(b.high as u64);
    let medium = decimal(b.medium as u64);
    let low = decimal(b.low as u64);
    let total: usize = b.high + b.medium + b.low;
    let all = decimal(total as u64);
    let mut r = owned(
        "<section class=\"card\"><h2>Open bugs</h2>\n<div class=\"row\"><span class=\"badge err\">",
    );
    r.append(high.as_str());
    r.append(" high</span><span class=\"badge warn\">");
    r.append(medium.as_str());
    r.append(" medium</span><span class=\"badge ok\">");
    r.append(low.as_str());
    r.append(" low</span></div>\n<p class=\"sub\">");
    r.append(all.as_str());
    r.append(" open total</p></section>");
    r
}

pub open spec fn flight_items(v: Seq<InFlight>, n: int) -> Seq<char>
    decreases n,
{
    if n <= 0 {
        Seq::empty()
    } else {
        flight_items(v, n - 1) + "<li><code>"@ + spec_html_escape(v[n - 1].role@)
            + "</code> working <code>"@ + spec_html_escape(v[n - 1].ticket@) + "</code></li>"@
    }
}

pub open spec fn pr_items(v: Seq<u64>, n: int) -> Seq<char>
    decreases n,
{
    if n <= 0 {
        Seq::empty()
    } else {
        pr_items(v, n - 1) + "<li>PR <code>#"@ + spec_decimal(v[n - 1] as nat)
            + "</code> in review</li>"@
    }
}

pub open spec fn in_flight_html(s: ShareSnapshot) -> Seq<char> {
    "<section class=\"card\"><h2>In flight</h2>"@ + (if s.in_flight@.len() == 0
        && s.prs_in_review@.len() == 0 {
        "<p class=\"sub\">Nothing in flight right now.</p>"@
    } else {
        "<ul>"@ + flight_items(s.in_flight@, s.in_flight@.len() as int) + pr_items(
            s.prs_in_review@,
            s.prs_in_review@.len() as int,
        ) + "</ul>"@
    }) + "</section>"@
}

fn flight_list(v: &Vec<InFlight>) -> (r: String)
    ensures
        r@ == flight_items(v@, v@.len() as int),
{
    let mut r = String::new();
    let mut i: usize = 0;
    while i < v.len()
        invariant
            i <= v.len(),
            r@ == flight_items(v@, i as int),
        decreases v.len() - i,
    {
        let role = html_escape(v[i].role.as_str());
        let ticket = html_escape(v[i].ticket.as_str());
        r.append("<li><code>");
        r.append(role.as_str());
        r.append("</code> working <code>");
        r.append(ticket.as_str());
        r.append("</code></li>");
        i += 1;
    }
    r
}

fn pr_list(v: &Vec<u64>) -> (r: String)
    ensures
        r@ == pr_items(v@, v@.len() as int),
{
    let mut r = String::new();
    let mut i: usize = 0;
    while i < v.len()
        invariant
            i <= v.len(),
            r@ == pr_items(v@, i as int),
        decreases v.len() - i,
    {
        let n = decimal(v[i]);
        r.append("<li>PR <code>#");
        r.append(n.as_str());
        r.append("</code> in review</li>");
        i += 1;
    }
    r
}

fn in_flight_card(s: &ShareSnapshot) -> (r: String)
    ensures
        r@ == in_flight_html(*s),
{
    let mut body = String::new();
    if s.in_flight.len() == 0 && s.prs_in_review.len() == 0 {
        body = owned("<p class=\"sub\">Nothing in flight right now.</p>");
    } else {
        let f = flight_list(&s.in_flight);
        let p = pr_list(&s.prs_in_review);
        body = owned("<ul>");
        body.append(f.as_str());
        body.append(p.as_str());
        body.append("</ul>");
    }
    card("<section class=\"card\"><h2>In flight</h2>", body.as_str())
}

fn card(open: &str, body: &str) -> (r: String)
    ensures
        r@ == open@ + body@ + "</section>"@,
{
    join3(open, body, "</section>")
}

pub open spec fn shipped_items(v: Seq<ShippedRow>, n: int) -> Seq<char>
    decreases n,
{
    if n <= 0 {
        Seq::empty()
    } else {
        shipped_items(v, n - 1) + "<li><code>"@ + spec_html_escape(v[n - 1].version@)
            + "</code> "@ + spec_html_escape(v[n - 1].ticket@) + " — "@ + spec_html_escape(
            v[n - 1].title@,
        ) + "</li>"@
    }
}

pub open spec fn shipped_html(s: ShareSnapshot) -> Seq<char> {
    "<section class=\"card\"><h2>Recently shipped</h2>"@ + (if s.shipped@.len() == 0 {
        "<p class=\"sub\">Nothing shipped yet.</p>"@
    } else {
        "<ul>"@ + shipped_items(s.shipped@, s.shipped@.len() as int) + "</ul>"@
    }) + "</section>"@
}

fn shipped_card(s: &ShareSnapshot) -> (r: String)
    ensures
        r@ == shipped_html(*s),
{
    let mut body = String::new();
    if s.shipped.len() == 0 {
        body = owned("<p class=\"sub\">Nothing shipped yet.</p>");
    } else {
        let mut items = String::new();
        let mut i: usize = 0;
        while i < s.shipped.len()
            invariant
                i <= s.shipped.len(),
                items@ == shipped_items(s.shipped@, i as int),
            decreases s.shipped.len() - i,
        {
            let version = html_escape(s.shipped[i].version.as_str());
            let ticket = html_escape(s.shipped[i].ticket.as_str());
            let title = html_escape(s.shipped[i].title.as_str());
            items.append("<li><code>");
            items.append(version.as_str());
            items.append("</code> ");
            items.append(ticket.as_str());
            items.append(" — ");
            items.append(title.as_str());
            items.append("</li>");
            i += 1;
        }
        body = owned("<ul>");
        body.append(items.as_str());
        body.append("</ul>");
    }
    card("<section class=\"card\"><h2>Recently shipped</h2>", body.as_str())
}

pub open spec fn waiting_item(ids: Seq<String>, what: Seq<char>) -> Seq<char> {
    if ids.len() == 0 {
        Seq::empty()
    } else {
        "<li>"@ + spec_decimal(ids.len()) + what + spec_html_escape(spec_join(ids, ", "@))
            + "</li>"@
    }
}

pub open spec fn waiting_html(s: ShareSnapshot) -> Seq<char> {
    "<section class=\"card\"><h2>Waiting on a human</h2>"@ + (if s.parked@.len() == 0
        && s.cost_holds@.len() == 0 && s.on_hold@.len() == 0 && s.human_holds@.len() == 0 {
        "<p class=\"sub\">Nothing is waiting on a person.</p>"@
    } else {
        "<ul>"@ + waiting_item(s.parked@, " ticket(s) parked after repeated failures: "@)
            + waiting_item(s.cost_holds@, " ticket(s) awaiting cost approval: "@) + waiting_item(
            s.on_hold@,
            " ticket(s) on hold: "@,
        ) + (if s.human_holds@.len() == 0 {
            Seq::empty()
        } else {
            "<li>"@ + spec_decimal(s.human_holds@.len()) + " PR(s) waiting for human review</li>"@
        }) + "</ul>"@
    }) + "</section>"@
}

fn waiting_line(ids: &Vec<String>, what: &str) -> (r: String)
    ensures
        r@ == waiting_item(ids@, what@),
{
    if ids.len() == 0 {
        return String::new();
    }
    let n = decimal(ids.len() as u64);
    let joined = join_with(ids, ", ");
    let escaped = html_escape(joined.as_str());
    let mut r = owned("<li>");
    r.append(n.as_str());
    r.append(what);
    r.append(escaped.as_str());
    r.append("</li>");
    r
}

fn waiting_card(s: &ShareSnapshot) -> (r: String)
    ensures
        r@ == waiting_html(*s),
{
    let mut body = String::new();
    if s.parked.len() == 0 && s.cost_holds.len() == 0 && s.on_hold.len() == 0
        && s.human_holds.len() == 0 {
        body = owned("<p class=\"sub\">Nothing is waiting on a person.</p>");
    } else {
        let a = waiting_line(&s.parked, " ticket(s) parked after repeated failures: ");
        let b = waiting_line(&s.cost_holds, " ticket(s) awaiting cost approval: ");
        let c = waiting_line(&s.on_hold, " ticket(s) on hold: ");
        body = owned("<ul>");
        body.append(a.as_str());
        body.append(b.as_str());
        body.append(c.as_str());
        let ghost so_far = body@;
        if s.human_holds.len() > 0 {
            let n = decimal(s.human_holds.len() as u64);
            let mut line = owned("<li>");
            line.append(n.as_str());
            line.append(" PR(s) waiting for human review</li>");
            body.append(line.as_str());
        } else {
            assert(so_far + Seq::<char>::empty() =~= so_far);
        }
        body.append("</ul>");
    }
    card("<section class=\"card\"><h2>Waiting on a human</h2>", body.as_str())
}

pub open spec fn digest_items(v: Seq<String>, n: int) -> Seq<char>
    decreases n,
{
    if n <= 0 {
        Seq::empty()
    } else {
        digest_items(v, n - 1) + "<li>"@ + spec_html_escape(
            spec_strip_prefixes(v[n - 1]@, "- "@),
        ) + "</li>"@
    }
}

pub open spec fn digest_html(s: ShareSnapshot) -> Seq<char> {
    "<section class=\"card\"><h2>Today</h2>"@ + ("<ul>"@ + digest_items(
        s.digest@,
        s.digest@.len() as int,
    ) + "</ul>"@) + "</section>"@
}

fn digest_card(s: &ShareSnapshot) -> (r: String)
    ensures
        r@ == digest_html(*s),
{
    proof {
        reveal_strlit("- ");
    }
    let mut items = String::new();
    let mut i: usize = 0;
    while i < s.digest.len()
        invariant
            i <= s.digest.len(),
            "- "@.len() > 0,
            items@ == digest_items(s.digest@, i as int),
        decreases s.digest.len() - i,
    {
        let line = strip_prefixes(s.digest[i].as_str(), "- ");
        let escaped = html_escape(line.as_str());
        items.append("<li>");
        items.append(escaped.as_str());
        items.append("</li>");
        i += 1;
    }
    let mut body = owned("<ul>");
    body.append(items.as_str());
    body.append("</ul>");
    card("<section class=\"card\"><h2>Today</h2>", body.as_str())
}

/// The cards of the page, in reading order.
pub open spec fn cards_html(s: ShareState, snap: ShareSnapshot) -> Seq<char> {
    health_html(s, snap.heartbeat) + bugs_html(snap.bugs) + in_flight_html(snap) + shipped_html(
        snap,
    ) + waiting_html(snap) + digest_html(snap)
}

/// The style of the page.
pub const PAGE_STYLE: &'static str =
    "<style>\nbody{font-family:Inter,-apple-system,system-ui,sans-serif;background:#0A0A0F;color:#F1F2F6;margin:0;padding:32px 16px;line-height:1.55}\nmain{max-width:920px;margin:0 auto}\n.kicker{font-size:10px;font-weight:700;letter-spacing:.6px;text-transform:uppercase;color:#9A9DAB;margin:0 0 8px}\nh1{font-size:22px;font-weight:800;letter-spacing:-.4px;margin:0 0 4px}\n.sub{color:#9A9DAB;font-size:12.5px;margin:6px 0}\n.banner{background:rgba(248,113,113,.08);border:1px solid rgba(248,113,113,.35);border-radius:14px;padding:16px 20px;margin:24px 0}\n.banner h2{color:#F87171;font-size:12px;font-weight:700;text-transform:uppercase;letter-spacing:.6px;margin:0 0 8px}\n.banner li{margin:4px 0}\n.grid{display:grid;grid-template-columns:repeat(auto-fit,minmax(280px,1fr));gap:16px;margin-top:24px}\n.card{background:#15151D;border:1px solid rgba(255,255,255,.13);border-radius:14px;padding:20px}\n.card h2{font-size:12px;font-weight:700;text-transform:uppercase;letter-spacing:.6px;color:#9A9DAB;margin:0 0 12px}\n.card ul{margin:0;padding-left:18px} .card li{margin:6px 0;font-size:14px}\ncode{font-family:ui-monospace,Menlo,monospace;font-size:11.5px;background:#1B1B24;border-radius:6px;padding:2px 6px}\n.row{display:flex;gap:8px;flex-wrap:wrap}\n.badge{display:inline-block;border-radius:20px;padding:2px 8px;font-size:10px;font-weight:700;text-transform:uppercase;letter-spacing:.4px}\n.badge.ok{background:rgba(74,222,128,.14);color:#4ADE80}\n.badge.warn{background:rgba(251,191,36,.14);color:#FBBF24}\n.badge.err{background:rgba(248,113,113,.14);color:#F87171}\nfooter{color:#5E616C;font-size:11.5px;margin-top:24px}\n</style></head><body><main>\n<p class=\"kicker\">Read-only project status</p>\n<h1>";

/// The whole page. Everything that varies is escaped, a number, or a fixed phrase; there is no
/// script, and the page renews itself.
pub open spec fn page_html(
    s: ShareState,
    registered: Seq<char>,
    snap: ShareSnapshot,
    generated: Seq<char>,
) -> Seq<char> {
    let project = spec_html_escape(display_name(s, registered));
    "<!doctype html><html lang=\"en\"><head><meta charset=\"utf-8\">\n<meta name=\"viewport\" content=\"width=device-width,initial-scale=1\">\n<meta http-equiv=\"refresh\" content=\"60\">\n<title>"@
        + project + " — status</title>\n"@ + PAGE_STYLE@ + project + "</h1>\n"@ + banner_html(
        snap.warnings@,
    ) + "\n<div class=\"grid\">"@ + cards_html(s, snap)
        + "</div>\n<footer>Auto-refreshes every 60 s · generated "@ + spec_html_escape(generated)
        + "</footer>\n</main></body></html>"@
}

/// Renders the status page.
pub fn render_share_page(
    s: &ShareState,
    registered: &str,
    snap: &ShareSnapshot,
    generated: &str,
) -> (r: String)
    requires
        snap.bugs.high + snap.bugs.medium + snap.bugs.low <= usize::MAX,
    ensures
        r@ == page_html(*s, registered@, *snap, generated@),
{
    let project = match &s.display_name {
        Some(n) => html_escape(n.as_str()),
        None => html_escape(registered),
    };
    let banner = degraded_banner(snap);
    let mut cards = health_card(s, snap.heartbeat);
    let bugs = bugs_card(snap.bugs);
    cards.append(bugs.as_str());
    let flight = in_flight_card(snap);
    cards.append(flight.as_str());
    let shipped = shipped_card(snap);
    cards.append(shipped.as_str());
    let waiting = waiting_card(snap);
    cards.append(waiting.as_str());
    let digest = digest_card(snap);
    cards.append(digest.as_str());
    let time = html_escape(generated);
    let mut r = owned(
        "<!doctype html><html lang=\"en\"><head><meta charset=\"utf-8\">\n<meta name=\"viewport\" content=\"width=device-width,initial-scale=1\">\n<meta http-equiv=\"refresh\" content=\"60\">\n<title>",
    );
    r.append(project.as_str());
    r.append(" — status</title>\n");
    r.append(PAGE_STYLE);
    r.append(project.as_str());
    r.append("</h1>\n");
    r.append(banner.as_str());
    r.append("\n<div class=\"grid\">");
    r.append(cards.as_str());
    r.append("</div>\n<footer>Auto-refreshes every 60 s · generated ");
    r.append(time.as_str());
    r.append("</footer>\n</main></body></html>");
    r
}

/// Whether no script begins in a text: after each `<` two more characters stand, and they are
/// not those of a script.
pub open spec fn scriptless(s: Seq<char>) -> bool {
    forall|i: int|
        0 <= i < s.len() && #[trigger] s[i] == '<' ==> i + 2 < s.len() && !(s[i + 1] == 's' && s[i
            + 2] == 'c')
}

broadcast proof fn joined_is_scriptless(a: Seq<char>, b: Seq<char>)
    requires
        scriptless(a),
        scriptless(b),
    ensures
        #[trigger] scriptless(a + b),
{
    let s = a + b;
    assert forall|i: int| 0 <= i < s.len() && #[trigger] s[i] == '<' implies i + 2 < s.len() && !(
    s[i + 1] == 's' && s[i + 2] == 'c') by {
        if i < a.len() {
            assert(a[i] == '<');
        } else {
            assert(b[i - a.len()] == '<');
        }
    }
}

broadcast proof fn escaped_is_scriptless(s: Seq<char>)
    ensures
        scriptless(#[trigger] spec_html_escape(s)),
{
    let e = spec_html_escape(s);
    assert forall|i: int| 0 <= i < e.len() && #[trigger] e[i] == '<' implies i + 2 < e.len() && !(
    e[i + 1] == 's' && e[i + 2] == 'c') by {
        escaped_text_has_no_markup(s, i);
    }
}

broadcast proof fn decimal_is_scriptless(n: nat)
    ensures
        scriptless(#[trigger] spec_decimal(n)),
    decreases n,
{
    if n >= 10 {
        decimal_is_scriptless(n / 10);
        let s = spec_decimal(n);
        let init = spec_decimal(n / 10);
        assert(s =~= init + seq![digit_char(n % 10)]);
        assert(scriptless(seq![digit_char(n % 10)]));
        joined_is_scriptless(init, seq![digit_char(n % 10)]);
    }
}

proof fn age_is_scriptless(secs: i64)
    ensures
        scriptless(spec_age(secs)),
{
    broadcast use joined_is_scriptless, decimal_is_scriptless;

    assert(scriptless("just now"@)) by {
        reveal_strlit("just now");
    }
    assert(scriptless(" min ago"@)) by {
        reveal_strlit(" min ago");
    }
    assert(scriptless(" h ago"@)) by {
        reveal_strlit(" h ago");
    }
}

proof fn banner_is_scriptless(w: Seq<String>)
    ensures
        scriptless(banner_html(w)),
{
    broadcast use joined_is_scriptless;

    assert(scriptless("<section class=\"banner warn\"><h2>Needs attention</h2><ul>"@)) by {
        reveal_strlit("<section class=\"banner warn\"><h2>Needs attention</h2><ul>");
    }
    assert(scriptless("</ul></section>"@)) by {
        reveal_strlit("</ul></section>");
    }
    banner_items_are_scriptless(w, w.len() as int);
}

proof fn banner_items_are_scriptless(w: Seq<String>, n: int)
    ensures
        scriptless(banner_items(w, n)),
    decreases n,
{
    broadcast use joined_is_scriptless, escaped_is_scriptless;

    assert(scriptless("<li>"@)) by {
        reveal_strlit("<li>");
    }
    assert(scriptless("</li>"@)) by {
        reveal_strlit("</li>");
    }
    if n > 0 {
        banner_items_are_scriptless(w, n - 1);
    }
}

proof fn health_is_scriptless(s: ShareState, h: Heartbeat)
    ensures
        scriptless(health_html(s, h)),
{
    broadcast use joined_is_scriptless, escaped_is_scriptless, decimal_is_scriptless;

    assert(scriptless("<section class=\"card\"><h2>Runner health</h2>\n<span class=\"badge "@)) by {
        reveal_strlit("<section class=\"card\"><h2>Runner health</h2>\n<span class=\"badge ");
    }
    assert(scriptless("\">"@)) by {
        reveal_strlit("\">");
    }
    assert(scriptless("</span>\n<p class=\"sub\">last heartbeat: "@)) by {
        reveal_strlit("</span>\n<p class=\"sub\">last heartbeat: ");
    }
    assert(scriptless("</p>\n<p class=\"sub\">cycle "@)) by {
        reveal_strlit("</p>\n<p class=\"sub\">cycle ");
    }
    assert(scriptless(" · last agent activity "@)) by {
        reveal_strlit(" · last agent activity ");
    }
    assert(scriptless("</p></section>"@)) by {
        reveal_strlit("</p></section>");
    }
    assert(scriptless("Healthy"@)) by {
        reveal_strlit("Healthy");
    }
    assert(scriptless("Stale"@)) by {
        reveal_strlit("Stale");
    }
    assert(scriptless("Unknown"@)) by {
        reveal_strlit("Unknown");
    }
    assert(scriptless("ok"@)) by {
        reveal_strlit("ok");
    }
    assert(scriptless("warn"@)) by {
        reveal_strlit("warn");
    }
    assert(scriptless("no heartbeat seen"@)) by {
        reveal_strlit("no heartbeat seen");
    }
    match h {
        Heartbeat::Fresh(age) => age_is_scriptless(age),
        Heartbeat::Stale(age) => age_is_scriptless(age),
        Heartbeat::Missing => {},
    }
}

proof fn bugs_are_scriptless(b: BugCounts)
    ensures
        scriptless(bugs_html(b)),
{
    broadcast use joined_is_scriptless, decimal_is_scriptless;

    assert(scriptless("<section class=\"card\"><h2>Open bugs</h2>\n<div class=\"row\"><span class=\"badge err\">"@)) by {
        reveal_strlit("<section class=\"card\"><h2>Open bugs</h2>\n<div class=\"row\"><span class=\"badge err\">");
    }
    assert(scriptless(" high</span><span class=\"badge warn\">"@)) by {
        reveal_strlit(" high</span><span class=\"badge warn\">");
    }
    assert(scriptless(" medium</span><span class=\"badge ok\">"@)) by {
        reveal_strlit(" medium</span><span class=\"badge ok\">");
    }
    assert(scriptless(" low</span></div>\n<p class=\"sub\">"@)) by {
        reveal_strlit(" low</span></div>\n<p class=\"sub\">");
    }
    assert(scriptless(" open total</p></section>"@)) by {
        reveal_strlit(" open total</p></section>");
    }
}

proof fn flight_items_are_scriptless(v: Seq<InFlight>, n: int)
    ensures
        scriptless(flight_items(v, n)),
    decreases n,
{
    broadcast use joined_is_scriptless, escaped_is_scriptless;

    assert(scriptless("<li><code>"@)) by {
        reveal_strlit("<li><code>");
    }
    assert(scriptless("</code> working <code>"@)) by {
        reveal_strlit("</code> working <code>");
    }
    assert(scriptless("</code></li>"@)) by {
        reveal_strlit("</code></li>");
    }
    if n > 0 {
        flight_items_are_scriptless(v, n - 1);
    }
}

proof fn pr_items_are_scriptless(v: Seq<u64>, n: int)
    ensures
        scriptless(pr_items(v, n)),
    decreases n,
{
    broadcast use joined_is_scriptless, decimal_is_scriptless;

    assert(scriptless("<li>PR <code>#"@)) by {
        reveal_strlit("<li>PR <code>#");
    }
    assert(scriptless("</code> in review</li>"@)) by {
        reveal_strlit("</code> in review</li>");
    }
    if n > 0 {
        pr_items_are_scriptless(v, n - 1);
    }
}

proof fn in_flight_is_scriptless(s: ShareSnapshot)
    ensures
        scriptless(in_flight_html(s)),
{
    broadcast use joined_is_scriptless;

    assert(scriptless("<section class=\"card\"><h2>In flight</h2>"@)) by {
        reveal_strlit("<section class=\"card\"><h2>In flight</h2>");
    }
    assert(scriptless("<p class=\"sub\">Nothing in flight right now.</p>"@)) by {
        reveal_strlit("<p class=\"sub\">Nothing in flight right now.</p>");
    }
    assert(scriptless("<ul>"@)) by {
        reveal_strlit("<ul>");
    }
    assert(scriptless("</ul>"@)) by {
        reveal_strlit("</ul>");
    }
    assert(scriptless("</section>"@)) by {
        reveal_strlit("</section>");
    }
    flight_items_are_scriptless(s.in_flight@, s.in_flight@.len() as int);
    pr_items_are_scriptless(s.prs_in_review@, s.prs_in_review@.len() as int);
}

proof fn shipped_items_are_scriptless(v: Seq<ShippedRow>, n: int)
    ensures
        scriptless(shipped_items(v, n)),
    decreases n,
{
    broadcast use joined_is_scriptless, escaped_is_scriptless;

    assert(scriptless("<li><code>"@)) by {
        reveal_strlit("<li><code>");
    }
    assert(scriptless("</code> "@)) by {
        reveal_strlit("</code> ");
    }
    assert(scriptless(" — "@)) by {
        reveal_strlit(" — ");
    }
    assert(scriptless("</li>"@)) by {
        reveal_strlit("</li>");
    }
    if n > 0 {
        shipped_items_are_scriptless(v, n - 1);
    }
}

proof fn shipped_is_scriptless(s: ShareSnapshot)
    ensures
        scriptless(shipped_html(s)),
{
    broadcast use joined_is_scriptless;

    assert(scriptless("<section class=\"card\"><h2>Recently shipped</h2>"@)) by {
        reveal_strlit("<section class=\"card\"><h2>Recently shipped</h2>");
    }
    assert(scriptless("<p class=\"sub\">Nothing shipped yet.</p>"@)) by {
        reveal_strlit("<p class=\"sub\">Nothing shipped yet.</p>");
    }
    assert(scriptless("<ul>"@)) by {
        reveal_strlit("<ul>");
    }
    assert(scriptless("</ul>"@)) by {
        reveal_strlit("</ul>");
    }
    assert(scriptless("</section>"@)) by {
        reveal_strlit("</section>");
    }
    shipped_items_are_scriptless(s.shipped@, s.shipped@.len() as int);
}

proof fn waiting_is_scriptless(s: ShareSnapshot)
    ensures
        scriptless(waiting_html(s)),
{
    broadcast use joined_is_scriptless, escaped_is_scriptless, decimal_is_scriptless;

    assert(scriptless("<section class=\"card\"><h2>Waiting on a human</h2>"@)) by {
        reveal_strlit("<section class=\"card\"><h2>Waiting on a human</h2>");
    }
    assert(scriptless("<p class=\"sub\">Nothing is waiting on a person.</p>"@)) by {
        reveal_strlit("<p class=\"sub\">Nothing is waiting on a person.</p>");
    }
    assert(scriptless("<ul>"@)) by {
        reveal_strlit("<ul>");
    }
    assert(scriptless(" ticket(s) parked after repeated failures: "@)) by {
        reveal_strlit(" ticket(s) parked after repeated failures: ");
    }
    assert(scriptless(" ticket(s) awaiting cost approval: "@)) by {
        reveal_strlit(" ticket(s) awaiting cost approval: ");
    }
    assert(scriptless(" ticket(s) on hold: "@)) by {
        reveal_strlit(" ticket(s) on hold: ");
    }
    assert(scriptless("<li>"@)) by {
        reveal_strlit("<li>");
    }
    assert(scriptless("</li>"@)) by {
        reveal_strlit("</li>");
    }
    assert(scriptless(" PR(s) waiting for human review</li>"@)) by {
        reveal_strlit(" PR(s) waiting for human review</li>");
    }
    assert(scriptless("</ul>"@)) by {
        reveal_strlit("</ul>");
    }
    assert(scriptless("</section>"@)) by {
        reveal_strlit("</section>");
    }
}

proof fn digest_items_are_scriptless(v: Seq<String>, n: int)
    ensures
        scriptless(digest_items(v, n)),
    decreases n,
{
    broadcast use joined_is_scriptless, escaped_is_scriptless;

    assert(scriptless("<li>"@)) by {
        reveal_strlit("<li>");
    }
    assert(scriptless("</li>"@)) by {
        reveal_strlit("</li>");
    }
    if n > 0 {
        digest_items_are_scriptless(v, n - 1);
    }
}

proof fn digest_is_scriptless(s: ShareSnapshot)
    ensures
        scriptless(digest_html(s)),
{
    broadcast use joined_is_scriptless;

    assert(scriptless("<section class=\"card\"><h2>Today</h2>"@)) by {
        reveal_strlit("<section class=\"card\"><h2>Today</h2>");
    }
    assert(scriptless("<ul>"@)) by {
        reveal_strlit("<ul>");
    }
    assert(scriptless("</ul>"@)) by {
        reveal_strlit("</ul>");
    }
    assert(scriptless("</section>"@)) by {
        reveal_strlit("</section>");
    }
    digest_items_are_scriptless(s.digest@, s.digest@.len() as int);
}

/// The page holds no script, whatever the project is called, whatever its agents report and
/// whatever was shipped.
pub proof fn the_page_has_no_script(
    s: ShareState,
    registered: Seq<char>,
    snap: ShareSnapshot,
    generated: Seq<char>,
)
    ensures
        !spec_contains(page_html(s, registered, snap, generated), "<script"@),
{
    broadcast use joined_is_scriptless, escaped_is_scriptless;

    banner_is_scriptless(snap.warnings@);
    health_is_scriptless(s, snap.heartbeat);
    bugs_are_scriptless(snap.bugs);
    in_flight_is_scriptless(snap);
    shipped_is_scriptless(snap);
    waiting_is_scriptless(snap);
    digest_is_scriptless(snap);
    style_is_scriptless();
    assert(scriptless("<!doctype html><html lang=\"en\"><head><meta charset=\"utf-8\">\n<meta name=\"viewport\" content=\"width=device-width,initial-scale=1\">\n<meta http-equiv=\"refresh\" content=\"60\">\n<title>"@)) by {
        reveal_strlit("<!doctype html><html lang=\"en\"><head><meta charset=\"utf-8\">\n<meta name=\"viewport\" content=\"width=device-width,initial-scale=1\">\n<meta http-equiv=\"refresh\" content=\"60\">\n<title>");
    }
    assert(scriptless(" — status</title>\n"@)) by {
        reveal_strlit(" — status</title>\n");
    }
    assert(scriptless("</h1>\n"@)) by {
        reveal_strlit("</h1>\n");
    }
    assert(scriptless("\n<div class=\"grid\">"@)) by {
        reveal_strlit("\n<div class=\"grid\">");
    }
    assert(scriptless("</div>\n<footer>Auto-refreshes every 60 s · generated "@)) by {
        reveal_strlit("</div>\n<footer>Auto-refreshes every 60 s · generated ");
    }
    assert(scriptless("</footer>\n</main></body></html>"@)) by {
        reveal_strlit("</footer>\n</main></body></html>");
    }
    let page = page_html(s, registered, snap, generated);
    assert(scriptless(page));
    reveal_strlit("<script");
    if spec_contains(page, "<script"@) {
        let i = choose|i: int| spec_at(page, "<script"@, i);
        let found = page.subrange(i, i + "<script"@.len());
        assert(found[0] == page[i] && found[1] == page[i + 1] && found[2] == page[i + 2]);
    }
}

#[verifier::rlimit(40)]
proof fn style_is_scriptless()
    ensures
        scriptless(PAGE_STYLE@),
{
    reveal_strlit(
        "<style>\nbody{font-family:Inter,-apple-system,system-ui,sans-serif;background:#0A0A0F;color:#F1F2F6;margin:0;padding:32px 16px;line-height:1.55}\nmain{max-width:920px;margin:0 auto}\n.kicker{font-size:10px;font-weight:700;letter-spacing:.6px;text-transform:uppercase;color:#9A9DAB;margin:0 0 8px}\nh1{font-size:22px;font-weight:800;letter-spacing:-.4px;margin:0 0 4px}\n.sub{color:#9A9DAB;font-size:12.5px;margin:6px 0}\n.banner{background:rgba(248,113,113,.08);border:1px solid rgba(248,113,113,.35);border-radius:14px;padding:16px 20px;margin:24px 0}\n.banner h2{color:#F87171;font-size:12px;font-weight:700;text-transform:uppercase;letter-spacing:.6px;margin:0 0 8px}\n.banner li{margin:4px 0}\n.grid{display:grid;grid-template-columns:repeat(auto-fit,minmax(280px,1fr));gap:16px;margin-top:24px}\n.card{background:#15151D;border:1px solid rgba(255,255,255,.13);border-radius:14px;padding:20px}\n.card h2{font-size:12px;font-weight:700;text-transform:uppercase;letter-spacing:.6px;color:#9A9DAB;margin:0 0 12px}\n.card ul{margin:0;padding-left:18px} .card li{margin:6px 0;font-size:14px}\ncode{font-family:ui-monospace,Menlo,monospace;font-size:11.5px;background:#1B1B24;border-radius:6px;padding:2px 6px}\n.row{display:flex;gap:8px;flex-wrap:wrap}\n.badge{display:inline-block;border-radius:20px;padding:2px 8px;font-size:10px;font-weight:700;text-transform:uppercase;letter-spacing:.4px}\n.badge.ok{background:rgba(74,222,128,.14);color:#4ADE80}\n.badge.warn{background:rgba(251,191,36,.14);color:#FBBF24}\n.badge.err{background:rgba(248,113,113,.14);color:#F87171}\nfooter{color:#5E616C;font-size:11.5px;margin-top:24px}\n</style></head><body><main>\n<p class=\"kicker\">Read-only project status</p>\n<h1>",
    );
}

/// The latest release leads: a deployment that is added to the history becomes the first row, and
/// the rows that were there move down, as far as five are shown.
pub proof fn a_new_deployment_leads_the_list(history: Seq<Deploy>, d: Deploy)
    ensures
        shipped_rows(history.push(d)).len() > 0,
        shipped_rows(history.push(d))[0].version == d.version,
        shipped_rows(history.push(d))[0].ticket == d.ticket,
        shipped_rows(history.push(d))[0].title == d.title,
        shipped_rows(history.push(d)).skip(1) == shipped_rows(history).take(
            if shipped_rows(history).len() < 4 {
                shipped_rows(history).len() as int
            } else {
                4
            },
        ),
        shipped_rows(history).len() <= 5,
        history.len() == 0 ==> shipped_rows(history).len() == 0,
{
    let n = if shipped_rows(history).len() < 4 {
        shipped_rows(history).len() as int
    } else {
        4
    };
    assert(shipped_rows(history.push(d)).skip(1) =~= shipped_rows(history).take(n));
}

/// The heartbeat is that of the worker that was heard of last: no worker with a readable time was
/// heard of later. A quarter of an hour without one is too long, and only where no time can be
/// read is there no heartbeat at all.
pub proof fn the_freshest_worker_speaks_for_all(workers: Seq<WorkerEntry>, now: i64)
    ensures
        match classified(newest_beat(workers, workers.len() as int), now as int) {
            Heartbeat::Missing => forall|i: int|
                0 <= i < workers.len() ==> spec_secs((#[trigger] workers[i]).at@) is None,
            Heartbeat::Fresh(age) => {
                &&& 0 <= age <= 900
                &&& exists|i: int|
                    0 <= i < workers.len() && spec_secs((#[trigger] workers[i]).at@) is Some && (
                    age == now - spec_secs(workers[i].at@)->0 || (age == 0 && now < spec_secs(
                        workers[i].at@,
                    )->0)) && forall|j: int|
                        0 <= j < workers.len() && spec_secs((#[trigger] workers[j]).at@) is Some
                            ==> spec_secs(workers[j].at@)->0 <= spec_secs(workers[i].at@)->0
            },
            Heartbeat::Stale(age) => {
                &&& age > 900
                &&& exists|i: int|
                    0 <= i < workers.len() && spec_secs((#[trigger] workers[i]).at@) is Some && (
                    age == now - spec_secs(workers[i].at@)->0 || age == i64::MAX) && forall|j: int|
                        0 <= j < workers.len() && spec_secs((#[trigger] workers[j]).at@) is Some
                            ==> spec_secs(workers[j].at@)->0 <= spec_secs(workers[i].at@)->0
            },
        },
{
    newest_beat_is_newest(workers, workers.len() as int);
}

proof fn newest_beat_is_newest(workers: Seq<WorkerEntry>, n: int)
    requires
        0 <= n <= workers.len(),
    ensures
        match newest_beat(workers, n) {
            None => forall|i: int|
                0 <= i < n ==> spec_secs((#[trigger] workers[i]).at@) is None,
            Some(at) => (exists|i: int|
                0 <= i < n && spec_secs((#[trigger] workers[i]).at@) == Some(at)) && forall|j: int|
                0 <= j < n && spec_secs((#[trigger] workers[j]).at@) is Some ==> spec_secs(
                    workers[j].at@,
                )->0 <= at,
        },
    decreases n,
{
    if n > 0 {
        newest_beat_is_newest(workers, n - 1);
        assert(spec_secs(workers[n - 1].at@) == spec_secs(workers[n - 1].at@));
    }
}

/// An age is told in whole minutes within the hour, and in whole hours from then on.
pub proof fn an_age_is_told_in_whole_units(n: i64, rest: i64)
    ensures
        0 <= rest < 60 ==> spec_age(rest) == "just now"@,
        1 <= n < 60 && 0 <= rest < 60 ==> spec_age((60 * n + rest) as i64) == spec_decimal(n as nat)
            + " min ago"@,
        1 <= n < 1_000_000_000 && 0 <= rest < 3600 ==> spec_age((3600 * n + rest) as i64)
            == spec_decimal(n as nat) + " h ago"@,
{
}

/// The page warns exactly of what is wrong: a runner that fell silent or never spoke while there
/// is work, a failed deployment, and work of which nothing was deployed for a week. A project
/// without work is not warned about its runner.
pub proof fn the_page_warns_of_what_is_wrong(s: ShareState, h: Heartbeat, now: int)
    ensures
        ({
            let w = warnings_of(s, h, now);
            let quiet = s.cycle == 0 && s.tickets@.len() == 0;
            let silent = !quiet && !(h is Fresh);
            let failed = s.deploy_ok == Some(false);
            let stuck = (exists|i: int|
                0 <= i < s.tickets@.len() && (#[trigger] s.tickets@[i]).status
                    == Status::InProgress) && (forall|i: int|
                0 <= i < s.history@.len() && spec_secs((#[trigger] s.history@[i]).at@) is Some
                    ==> now - spec_secs(s.history@[i].at@)->0 > 7 * 24 * 3600);
            &&& w.len() == (if silent {
                1int
            } else {
                0
            }) + (if failed {
                1int
            } else {
                0
            }) + (if stuck {
                1int
            } else {
                0
            })
            &&& silent && h is Missing ==> w[0] == "No runner heartbeat has been received"@
            &&& silent && h is Stale ==> w[0] == "Runner heartbeat is stale (last seen "@
                + spec_age(h->Stale_0) + ")"@
            &&& failed ==> w.contains("The last deploy attempt failed"@)
            &&& stuck ==> w.last() == "Tickets are in progress but nothing has deployed in 7 days"@
        }),
{
    let w = warnings_of(s, h, now);
    let b = beat_warning(s, h);
    if s.deploy_ok == Some(false) {
        assert(w[b.len() as int] == "The last deploy attempt failed"@);
    }
    let recent = exists|i: int|
        0 <= i < s.history@.len() && spec_secs((#[trigger] s.history@[i]).at@) is Some && now
            - spec_secs(s.history@[i].at@)->0 <= 7 * 24 * 3600;
    assert(shipped_recently(s.history@, now) == recent);
}

/// What the page lists of a project: the workers that are busy, the bugs that are open by their
/// severity, what failed three times and more, what is parked, and the day's summary without its
/// head and without spend. Nothing is left out and nothing is added.
pub proof fn the_page_lists_all_of_it(
    s: ShareState,
    workers: Seq<WorkerEntry>,
    now: int,
    r: ShareSnapshot,
)
    requires
        snapshot_of(s, workers, now, r),
    ensures
        r.in_flight@ == workers.filter(
            |w: WorkerEntry| w.ticket@.len() > 0 && w.role@ != "idle"@,
        ).map_values(|w: WorkerEntry| InFlight { role: w.role, ticket: w.ticket }),
        r.bugs.high == s.tickets@.filter(
            |t: ShareTicket|
                t.ticket_type == TicketType::Bug && t.status == Status::Open && t.priority
                    == Priority::High,
        ).len(),
        r.bugs.medium == s.tickets@.filter(
            |t: ShareTicket|
                t.ticket_type == TicketType::Bug && t.status == Status::Open && t.priority
                    == Priority::Medium,
        ).len(),
        r.bugs.low == s.tickets@.filter(
            |t: ShareTicket|
                t.ticket_type == TicketType::Bug && t.status == Status::Open && t.priority
                    == Priority::Low,
        ).len(),
        r.parked@ == s.fail_attempts@.filter(|a: (String, u64)| a.1 >= 3).map_values(
            |a: (String, u64)| a.0,
        ),
        r.on_hold@ == s.tickets@.filter(
            |t: ShareTicket| t.status == Status::OnHold,
        ).map_values(|t: ShareTicket| t.id),
        texts(r.digest@) == spec_lines(s.digest@).filter(
            |l: Seq<char>|
                !"**Daily digest"@.is_prefix_of(l) && !"- Spend"@.is_prefix_of(l),
        ),
        r.prs_in_review@ == s.open_prs@,
        r.cost_holds@ == s.cost_holds@,
        r.human_holds@ == s.human_holds@,
{
    collected_is_filtered(
        workers,
        flight_rule(),
        |w: WorkerEntry| w.ticket@.len() > 0 && w.role@ != "idle"@,
        |w: WorkerEntry| InFlight { role: w.role, ticket: w.ticket },
    );
    open_bugs_are_counted(s.tickets@, Priority::High);
    open_bugs_are_counted(s.tickets@, Priority::Medium);
    open_bugs_are_counted(s.tickets@, Priority::Low);
    bugs_by_name(s.tickets@);
    collected_is_filtered(
        s.fail_attempts@,
        parked_rule(),
        |a: (String, u64)| a.1 >= 3,
        |a: (String, u64)| a.0,
    );
    collected_is_filtered(
        s.tickets@,
        on_hold_rule(),
        |t: ShareTicket| t.status == Status::OnHold,
        |t: ShareTicket| t.id,
    );
    let keep = |l: Seq<char>| !"**Daily digest"@.is_prefix_of(l) && !"- Spend"@.is_prefix_of(l);
    assert forall|l: Seq<char>|
        #[trigger] digest_rule()(l) == if keep(l) {
            Some(l)
        } else {
            None
        } by {
        starts_is_prefix(l, "**Daily digest"@);
        starts_is_prefix(l, "- Spend"@);
    }
    kept_is_filtered(spec_lines(s.digest@), digest_rule(), keep);
}

proof fn starts_is_prefix(s: Seq<char>, p: Seq<char>)
    ensures
        spec_starts(s, p) == p.is_prefix_of(s),
{
    if p.len() <= s.len() {
        assert(s.take(p.len() as int) =~= s.subrange(0, p.len() as int));
    }
}

proof fn open_bugs_are_counted(tickets: Seq<ShareTicket>, p: Priority)
    ensures
        open_bugs(tickets, tickets.len() as int, p) == tickets.filter(
            |t: ShareTicket|
                t.ticket_type == TicketType::Bug && t.status == Status::Open && t.priority == p,
        ).len(),
    decreases tickets.len(),
{
    reveal(Seq::filter);
    if tickets.len() > 0 {
        let init = tickets.drop_last();
        open_bugs_are_counted(init, p);
        open_bugs_alike(tickets, init, init.len() as int, p);
    }
}

proof fn open_bugs_alike(a: Seq<ShareTicket>, b: Seq<ShareTicket>, n: int, p: Priority)
    requires
        n <= a.len(),
        n <= b.len(),
        forall|i: int| 0 <= i < n ==> #[trigger] a[i] == b[i],
    ensures
        open_bugs(a, n, p) == open_bugs(b, n, p),
    decreases n,
{
    if n > 0 {
        open_bugs_alike(a, b, n - 1, p);
        assert(a[n - 1] == b[n - 1]);
    }
}

proof fn bugs_by_name(tickets: Seq<ShareTicket>)
    ensures
        tickets.filter(
            |t: ShareTicket|
                t.ticket_type == TicketType::Bug && t.status == Status::Open && t.priority
                    == Priority::High,
        ).len() == open_bugs(tickets, tickets.len() as int, Priority::High),
        tickets.filter(
            |t: ShareTicket|
                t.ticket_type == TicketType::Bug && t.status == Status::Open && t.priority
                    == Priority::Medium,
        ).len() == open_bugs(tickets, tickets.len() as int, Priority::Medium),
        tickets.filter(
            |t: ShareTicket|
                t.ticket_type == TicketType::Bug && t.status == Status::Open && t.priority
                    == Priority::Low,
        ).len() == open_bugs(tickets, tickets.len() as int, Priority::Low),
{
    let high = Priority::High;
    let medium = Priority::Medium;
    let low = Priority::Low;
    open_bugs_are_counted(tickets, high);
    open_bugs_are_counted(tickets, medium);
    open_bugs_are_counted(tickets, low);
    assert((|t: ShareTicket|
        t.ticket_type == TicketType::Bug && t.status == Status::Open && t.priority == high)
        =~= (|t: ShareTicket|
        t.ticket_type == TicketType::Bug && t.status == Status::Open && t.priority
            == Priority::High));
    assert((|t: ShareTicket|
        t.ticket_type == TicketType::Bug && t.status == Status::Open && t.priority == medium)
        =~= (|t: ShareTicket|
        t.ticket_type == TicketType::Bug && t.status == Status::Open && t.priority
            == Priority::Medium));
    assert((|t: ShareTicket|
        t.ticket_type == TicketType::Bug && t.status == Status::Open && t.priority == low)
        =~= (|t: ShareTicket|
        t.ticket_type == TicketType::Bug && t.status == Status::Open && t.priority
            == Priority::Low));
}

broadcast proof fn part_of_the_left(a: Seq<char>, b: Seq<char>, p: Seq<char>)
    requires
        spec_contains(a, p),
    ensures
        #[trigger] spec_contains(a + b, p),
{
    let i = choose|i: int| spec_at(a, p, i);
    assert((a + b).subrange(i, i + p.len()) =~= a.subrange(i, i + p.len()));
    assert(spec_at(a + b, p, i));
}

broadcast proof fn part_of_the_right(a: Seq<char>, b: Seq<char>, p: Seq<char>)
    requires
        spec_contains(b, p),
    ensures
        #[trigger] spec_contains(a + b, p),
{
    let i = choose|i: int| spec_at(b, p, i);
    let k = a.len() as int + i;
    assert((a + b).subrange(k, k + p.len()) =~= b.subrange(i, i + p.len()));
    assert(spec_at(a + b, p, k));
}

proof fn part_of_itself(p: Seq<char>)
    ensures
        spec_contains(p, p),
{
    assert(p.subrange(0, p.len() as int) =~= p);
    assert(spec_at(p, p, 0));
}

/// Every warning stands on the page, escaped; a page without warnings has no banner.
pub proof fn every_warning_stands_on_the_page(
    s: ShareState,
    registered: Seq<char>,
    snap: ShareSnapshot,
    generated: Seq<char>,
    i: int,
)
    requires
        0 <= i < snap.warnings@.len(),
    ensures
        spec_contains(
            page_html(s, registered, snap, generated),
            "<li>"@ + spec_html_escape(snap.warnings@[i]@) + "</li>"@,
        ),
{
    broadcast use {part_of_the_left, part_of_the_right};

    let p = "<li>"@ + spec_html_escape(snap.warnings@[i]@) + "</li>"@;
    warning_is_an_item(snap.warnings@, snap.warnings@.len() as int, i);
    assert(spec_contains(banner_html(snap.warnings@), p));
    assert(spec_contains(page_html(s, registered, snap, generated), p));
}

proof fn warning_is_an_item(w: Seq<String>, n: int, i: int)
    requires
        0 <= i < n,
    ensures
        spec_contains(banner_items(w, n), "<li>"@ + spec_html_escape(w[i]@) + "</li>"@),
    decreases n,
{
    let p = "<li>"@ + spec_html_escape(w[i]@) + "</li>"@;
    let q = "<li>"@ + spec_html_escape(w[n - 1]@) + "</li>"@;
    assert(banner_items(w, n) =~= banner_items(w, n - 1) + q);
    if i < n - 1 {
        warning_is_an_item(w, n - 1, i);
        part_of_the_left(banner_items(w, n - 1), q, p);
    } else {
        part_of_itself(p);
        part_of_the_right(banner_items(w, n - 1), q, p);
    }
}

/// Whatever stands in a card stands on the page.
proof fn a_card_stands_on_the_page(
    s: ShareState,
    registered: Seq<char>,
    snap: ShareSnapshot,
    generated: Seq<char>,
    p: Seq<char>,
)
    requires
        spec_contains(cards_html(s, snap), p),
    ensures
        spec_contains(page_html(s, registered, snap, generated), p),
{
    broadcast use {part_of_the_left, part_of_the_right};

    assert(spec_contains(page_html(s, registered, snap, generated), p));
}

/// Every worker in flight stands on the page with its ticket, and every pull request in review
/// with its number.
pub proof fn all_that_is_in_flight_stands_on_the_page(
    s: ShareState,
    registered: Seq<char>,
    snap: ShareSnapshot,
    generated: Seq<char>,
    i: int,
)
    ensures
        0 <= i < snap.in_flight@.len() ==> spec_contains(
            page_html(s, registered, snap, generated),
            "<li><code>"@ + spec_html_escape(snap.in_flight@[i].role@) + "</code> working <code>"@
                + spec_html_escape(snap.in_flight@[i].ticket@) + "</code></li>"@,
        ),
        0 <= i < snap.prs_in_review@.len() ==> spec_contains(
            page_html(s, registered, snap, generated),
            "<li>PR <code>#"@ + spec_decimal(snap.prs_in_review@[i] as nat)
                + "</code> in review</li>"@,
        ),
{
    broadcast use {part_of_the_left, part_of_the_right};

    if 0 <= i < snap.in_flight@.len() {
        let p = "<li><code>"@ + spec_html_escape(snap.in_flight@[i].role@)
            + "</code> working <code>"@ + spec_html_escape(snap.in_flight@[i].ticket@)
            + "</code></li>"@;
        flight_is_an_item(snap.in_flight@, snap.in_flight@.len() as int, i);
        assert(spec_contains(in_flight_html(snap), p));
        assert(spec_contains(cards_html(s, snap), p));
        a_card_stands_on_the_page(s, registered, snap, generated, p);
    }
    if 0 <= i < snap.prs_in_review@.len() {
        let p = "<li>PR <code>#"@ + spec_decimal(snap.prs_in_review@[i] as nat)
            + "</code> in review</li>"@;
        pr_is_an_item(snap.prs_in_review@, snap.prs_in_review@.len() as int, i);
        assert(spec_contains(in_flight_html(snap), p));
        assert(spec_contains(cards_html(s, snap), p));
        a_card_stands_on_the_page(s, registered, snap, generated, p);
    }
}

proof fn flight_is_an_item(v: Seq<InFlight>, n: int, i: int)
    requires
        0 <= i < n,
    ensures
        spec_contains(
            flight_items(v, n),
            "<li><code>"@ + spec_html_escape(v[i].role@) + "</code> working <code>"@
                + spec_html_escape(v[i].ticket@) + "</code></li>"@,
        ),
    decreases n,
{
    let p = "<li><code>"@ + spec_html_escape(v[i].role@) + "</code> working <code>"@
        + spec_html_escape(v[i].ticket@) + "</code></li>"@;
    let q = "<li><code>"@ + spec_html_escape(v[n - 1].role@) + "</code> working <code>"@
        + spec_html_escape(v[n - 1].ticket@) + "</code></li>"@;
    assert(flight_items(v, n) =~= flight_items(v, n - 1) + q);
    if i < n - 1 {
        flight_is_an_item(v, n - 1, i);
        part_of_the_left(flight_items(v, n - 1), q, p);
    } else {
        part_of_itself(p);
        part_of_the_right(flight_items(v, n - 1), q, p);
    }
}

proof fn pr_is_an_item(v: Seq<u64>, n: int, i: int)
    requires
        0 <= i < n,
    ensures
        spec_contains(
            pr_items(v, n),
            "<li>PR <code>#"@ + spec_decimal(v[i] as nat) + "</code> in review</li>"@,
        ),
    decreases n,
{
    let p = "<li>PR <code>#"@ + spec_decimal(v[i] as nat) + "</code> in review</li>"@;
    let q = "<li>PR <code>#"@ + spec_decimal(v[n - 1] as nat) + "</code> in review</li>"@;
    assert(pr_items(v, n) =~= pr_items(v, n - 1) + q);
    if i < n - 1 {
        pr_is_an_item(v, n - 1, i);
        part_of_the_left(pr_items(v, n - 1), q, p);
    } else {
        part_of_itself(p);
        part_of_the_right(pr_items(v, n - 1), q, p);
    }
}

/// Everything that was shipped lately stands on the page: its version, its ticket and its title.
pub proof fn all_that_was_shipped_stands_on_the_page(
    s: ShareState,
    registered: Seq<char>,
    snap: ShareSnapshot,
    generated: Seq<char>,
    i: int,
)
    requires
        0 <= i < snap.shipped@.len(),
    ensures
        spec_contains(
            page_html(s, registered, snap, generated),
            "<li><code>"@ + spec_html_escape(snap.shipped@[i].version@) + "</code> "@
                + spec_html_escape(snap.shipped@[i].ticket@) + " — "@ + spec_html_escape(
                snap.shipped@[i].title@,
            ) + "</li>"@,
        ),
{
    broadcast use {part_of_the_left, part_of_the_right};

    let p = "<li><code>"@ + spec_html_escape(snap.shipped@[i].version@) + "</code> "@
        + spec_html_escape(snap.shipped@[i].ticket@) + " — "@ + spec_html_escape(
        snap.shipped@[i].title@,
    ) + "</li>"@;
    shipment_is_an_item(snap.shipped@, snap.shipped@.len() as int, i);
    assert(spec_contains(shipped_html(snap), p));
    assert(spec_contains(cards_html(s, snap), p));
    a_card_stands_on_the_page(s, registered, snap, generated, p);
}

proof fn shipment_is_an_item(v: Seq<ShippedRow>, n: int, i: int)
    requires
        0 <= i < n,
    ensures
        spec_contains(
            shipped_items(v, n),
            "<li><code>"@ + spec_html_escape(v[i].version@) + "</code> "@ + spec_html_escape(
                v[i].ticket@,
            ) + " — "@ + spec_html_escape(v[i].title@) + "</li>"@,
        ),
    decreases n,
{
    let p = "<li><code>"@ + spec_html_escape(v[i].version@) + "</code> "@ + spec_html_escape(
        v[i].ticket@,
    ) + " — "@ + spec_html_escape(v[i].title@) + "</li>"@;
    let q = "<li><code>"@ + spec_html_escape(v[n - 1].version@) + "</code> "@ + spec_html_escape(
        v[n - 1].ticket@,
    ) + " — "@ + spec_html_escape(v[n - 1].title@) + "</li>"@;
    assert(shipped_items(v, n) =~= shipped_items(v, n - 1) + q);
    if i < n - 1 {
        shipment_is_an_item(v, n - 1, i);
        part_of_the_left(shipped_items(v, n - 1), q, p);
    } else {
        part_of_itself(p);
        part_of_the_right(shipped_items(v, n - 1), q, p);
    }
}

/// Every line of the day's summary stands on the page, without the marks of its list.
pub proof fn the_summary_stands_on_the_page(
    s: ShareState,
    registered: Seq<char>,
    snap: ShareSnapshot,
    generated: Seq<char>,
    i: int,
)
    requires
        0 <= i < snap.digest@.len(),
    ensures
        spec_contains(
            page_html(s, registered, snap, generated),
            "<li>"@ + spec_html_escape(spec_strip_prefixes(snap.digest@[i]@, "- "@)) + "</li>"@,
        ),
{
    broadcast use {part_of_the_left, part_of_the_right};

    let p = "<li>"@ + spec_html_escape(spec_strip_prefixes(snap.digest@[i]@, "- "@)) + "</li>"@;
    line_is_an_item(snap.digest@, snap.digest@.len() as int, i);
    assert(spec_contains(digest_html(snap), p));
    assert(spec_contains(cards_html(s, snap), p));
    a_card_stands_on_the_page(s, registered, snap, generated, p);
}

proof fn line_is_an_item(v: Seq<String>, n: int, i: int)
    requires
        0 <= i < n,
    ensures
        spec_contains(
            digest_items(v, n),
            "<li>"@ + spec_html_escape(spec_strip_prefixes(v[i]@, "- "@)) + "</li>"@,
        ),
    decreases n,
{
    let p = "<li>"@ + spec_html_escape(spec_strip_prefixes(v[i]@, "- "@)) + "</li>"@;
    let q = "<li>"@ + spec_html_escape(spec_strip_prefixes(v[n - 1]@, "- "@)) + "</li>"@;
    assert(digest_items(v, n) =~= digest_items(v, n - 1) + q);
    if i < n - 1 {
        line_is_an_item(v, n - 1, i);
        part_of_the_left(digest_items(v, n - 1), q, p);
    } else {
        part_of_itself(p);
        part_of_the_right(digest_items(v, n - 1), q, p);
    }
}

/// All that waits on a person stands on the page: how many tickets were given up, wait for an
/// approval of their cost or are on hold, and which, and how many pull requests are held.
pub proof fn all_that_waits_stands_on_the_page(
    s: ShareState,
    registered: Seq<char>,
    snap: ShareSnapshot,
    generated: Seq<char>,
)
    ensures
        snap.parked@.len() > 0 ==> spec_contains(
            page_html(s, registered, snap, generated),
            "<li>"@ + spec_decimal(snap.parked@.len())
                + " ticket(s) parked after repeated failures: "@ + spec_html_escape(
                spec_join(snap.parked@, ", "@),
            ) + "</li>"@,
        ),
        snap.cost_holds@.len() > 0 ==> spec_contains(
            page_html(s, registered, snap, generated),
            "<li>"@ + spec_decimal(snap.cost_holds@.len()) + " ticket(s) awaiting cost approval: "@
                + spec_html_escape(spec_join(snap.cost_holds@, ", "@)) + "</li>"@,
        ),
        snap.on_hold@.len() > 0 ==> spec_contains(
            page_html(s, registered, snap, generated),
            "<li>"@ + spec_decimal(snap.on_hold@.len()) + " ticket(s) on hold: "@
                + spec_html_escape(spec_join(snap.on_hold@, ", "@)) + "</li>"@,
        ),
        snap.human_holds@.len() > 0 ==> spec_contains(
            page_html(s, registered, snap, generated),
            "<li>"@ + spec_decimal(snap.human_holds@.len())
                + " PR(s) waiting for human review</li>"@,
        ),
{
    broadcast use {part_of_the_left, part_of_the_right};

    if snap.parked@.len() > 0 {
        let p = "<li>"@ + spec_decimal(snap.parked@.len())
            + " ticket(s) parked after repeated failures: "@ + spec_html_escape(
            spec_join(snap.parked@, ", "@),
        ) + "</li>"@;
        part_of_itself(p);
        assert(spec_contains(waiting_html(snap), p));
        assert(spec_contains(cards_html(s, snap), p));
        a_card_stands_on_the_page(s, registered, snap, generated, p);
    }
    if snap.cost_holds@.len() > 0 {
        let p = "<li>"@ + spec_decimal(snap.cost_holds@.len())
            + " ticket(s) awaiting cost approval: "@ + spec_html_escape(
            spec_join(snap.cost_holds@, ", "@),
        ) + "</li>"@;
        part_of_itself(p);
        assert(spec_contains(waiting_html(snap), p));
        assert(spec_contains(cards_html(s, snap), p));
        a_card_stands_on_the_page(s, registered, snap, generated, p);
    }
    if snap.on_hold@.len() > 0 {
        let p = "<li>"@ + spec_decimal(snap.on_hold@.len()) + " ticket(s) on hold: "@
            + spec_html_escape(spec_join(snap.on_hold@, ", "@)) + "</li>"@;
        part_of_itself(p);
        assert(spec_contains(waiting_html(snap), p));
        assert(spec_contains(cards_html(s, snap), p));
        a_card_stands_on_the_page(s, registered, snap, generated, p);
    }
    if snap.human_holds@.len() > 0 {
        let p = "<li>"@ + spec_decimal(snap.human_holds@.len())
            + " PR(s) waiting for human review</li>"@;
        part_of_itself(p);
        assert(spec_contains(waiting_html(snap), p));
        assert(spec_contains(cards_html(s, snap), p));
        a_card_stands_on_the_page(s, registered, snap, generated, p);
    }
}

/// The page tells the health of the runner, when it was last heard of and what the agents did
/// last, and how many bugs of each priority are open.
pub proof fn health_and_bugs_stand_on_the_page(
    s: ShareState,
    registered: Seq<char>,
    snap: ShareSnapshot,
    generated: Seq<char>,
)
    ensures
        ({
            let page = page_html(s, registered, snap, generated);
            &&& snap.heartbeat is Fresh ==> spec_contains(
                page,
                "<span class=\"badge "@ + "ok"@ + "\">"@ + "Healthy"@ + "</span>"@,
            )
            &&& snap.heartbeat is Stale ==> spec_contains(
                page,
                "<span class=\"badge "@ + "warn"@ + "\">"@ + "Stale"@ + "</span>"@,
            )
            &&& snap.heartbeat is Missing ==> spec_contains(
                page,
                "<span class=\"badge "@ + "warn"@ + "\">"@ + "Unknown"@ + "</span>"@,
            )
            &&& match snap.heartbeat {
                Heartbeat::Fresh(age) => spec_contains(page, spec_age(age)),
                Heartbeat::Stale(age) => spec_contains(page, spec_age(age)),
                Heartbeat::Missing => spec_contains(page, "no heartbeat seen"@),
            }
            &&& match s.last_activity {
                Some((who, what)) => spec_contains(
                    page,
                    spec_html_escape(who@ + " — "@ + what@),
                ),
                None => true,
            }
            &&& spec_contains(
                page,
                spec_decimal(snap.bugs.high as nat) + " high</span><span class=\"badge warn\">"@
                    + spec_decimal(snap.bugs.medium as nat)
                    + " medium</span><span class=\"badge ok\">"@ + spec_decimal(
                    snap.bugs.low as nat,
                ) + " low</span>"@,
            )
        }),
{
    health_stands_on_the_page(s, registered, snap, generated);
    bugs_stand_on_the_page(s, registered, snap, generated);
}

proof fn health_stands_on_the_page(
    s: ShareState,
    registered: Seq<char>,
    snap: ShareSnapshot,
    generated: Seq<char>,
)
    ensures
        spec_contains(
            page_html(s, registered, snap, generated),
            "<span class=\"badge "@ + health_class(snap.heartbeat) + "\">"@ + health_label(
                snap.heartbeat,
            ) + "</span>"@,
        ),
        spec_contains(page_html(s, registered, snap, generated), last_beat(snap.heartbeat)),
        spec_contains(
            page_html(s, registered, snap, generated),
            spec_html_escape(activity_text(s)),
        ),
{
    broadcast use {part_of_the_left, part_of_the_right};

    let h = snap.heartbeat;
    let badge = "<span class=\"badge "@ + health_class(h) + "\">"@ + health_label(h) + "</span>"@;
    let open = "<section class=\"card\"><h2>Runner health</h2>\n<span class=\"badge "@;
    let shut = "</span>\n<p class=\"sub\">last heartbeat: "@;
    reveal_strlit("<section class=\"card\"><h2>Runner health</h2>\n<span class=\"badge ");
    reveal_strlit("<section class=\"card\"><h2>Runner health</h2>\n");
    reveal_strlit("<span class=\"badge ");
    reveal_strlit("</span>\n<p class=\"sub\">last heartbeat: ");
    reveal_strlit("</span>");
    reveal_strlit("\n<p class=\"sub\">last heartbeat: ");
    assert(open =~= "<section class=\"card\"><h2>Runner health</h2>\n"@ + "<span class=\"badge "@);
    assert(shut =~= "</span>"@ + "\n<p class=\"sub\">last heartbeat: "@);
    let head = open + health_class(h) + "\">"@ + health_label(h) + shut;
    assert(head =~= "<section class=\"card\"><h2>Runner health</h2>\n"@ + badge
        + "\n<p class=\"sub\">last heartbeat: "@);
    part_of_itself(badge);
    assert(spec_contains(head, badge));
    assert(spec_contains(health_html(s, h), badge));
    assert(spec_contains(cards_html(s, snap), badge));
    a_card_stands_on_the_page(s, registered, snap, generated, badge);
    part_of_itself(last_beat(h));
    assert(spec_contains(health_html(s, h), last_beat(h)));
    assert(spec_contains(cards_html(s, snap), last_beat(h)));
    a_card_stands_on_the_page(s, registered, snap, generated, last_beat(h));
    let a = spec_html_escape(activity_text(s));
    part_of_itself(a);
    assert(spec_contains(health_html(s, h), a));
    assert(spec_contains(cards_html(s, snap), a));
    a_card_stands_on_the_page(s, registered, snap, generated, a);
}

proof fn bugs_stand_on_the_page(
    s: ShareState,
    registered: Seq<char>,
    snap: ShareSnapshot,
    generated: Seq<char>,
)
    ensures
        spec_contains(
            page_html(s, registered, snap, generated),
            spec_decimal(snap.bugs.high as nat) + " high</span><span class=\"badge warn\">"@
                + spec_decimal(snap.bugs.medium as nat) + " medium</span><span class=\"badge ok\">"@
                + spec_decimal(snap.bugs.low as nat) + " low</span>"@,
        ),
{
    broadcast use {part_of_the_left, part_of_the_right};

    let b = snap.bugs;
    let p = spec_decimal(b.high as nat) + " high</span><span class=\"badge warn\">"@ + spec_decimal(
        b.medium as nat,
    ) + " medium</span><span class=\"badge ok\">"@ + spec_decimal(b.low as nat) + " low</span>"@;
    reveal_strlit(" low</span></div>\n<p class=\"sub\">");
    reveal_strlit(" low</span>");
    reveal_strlit("</div>\n<p class=\"sub\">");
    assert(" low</span></div>\n<p class=\"sub\">"@ =~= " low</span>"@
        + "</div>\n<p class=\"sub\">"@);
    let open = "<section class=\"card\"><h2>Open bugs</h2>\n<div class=\"row\"><span class=\"badge err\">"@;
    let head = open + spec_decimal(b.high as nat) + " high</span><span class=\"badge warn\">"@
        + spec_decimal(b.medium as nat) + " medium</span><span class=\"badge ok\">"@
        + spec_decimal(b.low as nat) + " low</span></div>\n<p class=\"sub\">"@;
    assert(head =~= open + p + "</div>\n<p class=\"sub\">"@);
    part_of_itself(p);
    assert(spec_contains(head, p));
    assert(spec_contains(bugs_html(b), p));
    assert(spec_contains(cards_html(s, snap), p));
    a_card_stands_on_the_page(s, registered, snap, generated, p);
}

/// The page bears the project's own name where it has one, else the registered one.
pub proof fn the_page_bears_the_name(
    s: ShareState,
    registered: Seq<char>,
    snap: ShareSnapshot,
    generated: Seq<char>,
)
    ensures
        s.display_name is Some ==> spec_contains(
            page_html(s, registered, snap, generated),
            spec_html_escape(s.display_name->0@) + "</h1>"@,
        ),
        s.display_name is None ==> spec_contains(
            page_html(s, registered, snap, generated),
            spec_html_escape(registered) + "</h1>"@,
        ),
{
    broadcast use {part_of_the_left, part_of_the_right};

    let project = spec_html_escape(display_name(s, registered));
    let p = project + "</h1>"@;
    let lead = "<!doctype html><html lang=\"en\"><head><meta charset=\"utf-8\">\n<meta name=\"viewport\" content=\"width=device-width,initial-scale=1\">\n<meta http-equiv=\"refresh\" content=\"60\">\n<title>"@
        + project + " — status</title>\n"@ + PAGE_STYLE@;
    a_heading_bears_the_name(lead, project);
    assert(spec_contains(lead + project + "</h1>\n"@, p));
    assert(spec_contains(page_html(s, registered, snap, generated), p));
}

proof fn a_heading_bears_the_name(lead: Seq<char>, project: Seq<char>)
    ensures
        spec_contains(lead + project + "</h1>\n"@, project + "</h1>"@),
{
    let p = project + "</h1>"@;
    reveal_strlit("</h1>\n");
    reveal_strlit("</h1>");
    reveal_strlit("\n");
    assert("</h1>\n"@ =~= "</h1>"@ + "\n"@);
    assert(lead + project + "</h1>\n"@ =~= lead + p + "\n"@);
    part_of_itself(p);
    part_of_the_right(lead, p, p);
    part_of_the_left(lead + p, "\n"@, p);
}

} // verus!
