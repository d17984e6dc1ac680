//! The radar for tickets that several projects have invented on their own, and what a person
//! decides about a pair of them.

use crate::board::{note_on, Note, Status};
use crate::inbox::{role_refused, Moved};
use crate::lists::{collect, collect_step, collected_has_source, kept_is_filtered};
use crate::order::{text_le, text_le_is_an_order, text_le_is_strict, text_leq};
use crate::reply::{internal_error, not_found, plain, Refusal};
use crate::text::{has_text, head, join2, join3, owned, same, spec_trim, texts, trim};
use vstd::prelude::*;

verus! {

/// Whether a ticket is in the pool: what is shipped or rejected is out.
pub open spec fn is_active(status: Status) -> bool {
    status != Status::Done && status != Status::Documented && status != Status::Verified && status
        != Status::Rejected
}

/// Whether a ticket of that status is in the pool.
pub fn radar_active(status: Status) -> (b: bool)
    ensures
        b == is_active(status),
{
    status != Status::Done && status != Status::Documented && status != Status::Verified && status
        != Status::Rejected
}

/// What of a description may cross projects: trimmed, at most 200 characters and an ellipsis.
pub open spec fn snippet(desc: Seq<char>) -> Seq<char> {
    let d = spec_trim(desc);
    if d.len() <= 200 {
        d
    } else {
        d.take(200).push('…')
    }
}

/// Cuts a description down to what may cross projects.
pub fn scope_snippet(desc: &str) -> (r: String)
    ensures
        r@ == snippet(desc@),
        r@.len() <= 201,
{
    let d = trim(desc);
    if d.as_str().unicode_len() <= 200 {
        d
    } else {
        let mut cut = head(d.as_str(), 200);
        cut.push('…');
        cut
    }
}

/// What the radar reads of a ticket.
#[derive(Clone, Debug)]
pub struct RadarTicket {
    pub id: String,
    pub title: String,
    pub description: String,
    pub service_tag: Option<String>,
    pub status: Status,
}

/// What the radar compares.
#[derive(Clone, Debug)]
pub struct RadarRow {
    pub ticket_id: String,
    pub title: String,
    pub scope: String,
    pub service_tag: Option<String>,
}

pub open spec fn active_rule() -> spec_fn(RadarTicket) -> Option<RadarTicket> {
    |t: RadarTicket|
        if is_active(t.status) {
            Some(t)
        } else {
            None
        }
}

/// Whether a row stands for the ticket.
pub open spec fn row_of(r: RadarRow, t: RadarTicket) -> bool {
    r.ticket_id == t.id && r.title == t.title && r.scope@ == snippet(t.description@)
        && r.service_tag == t.service_tag
}

/// The rows of a project: one for each ticket in the pool, with no more than its title and scope.
pub fn radar_rows(tickets: &Vec<RadarTicket>) -> (r: Vec<RadarRow>)
    ensures
        ({
            let active = collect(tickets@, active_rule());
            r@.len() == active.len() && forall|k: int|
                0 <= k < active.len() ==> row_of(#[trigger] r@[k], active[k])
        }),
{
    let mut r: Vec<RadarRow> = Vec::new();
    let ghost f = active_rule();
    let mut i: usize = 0;
    assert(tickets@.take(0) =~= Seq::empty());
    while i < tickets.len()
        invariant
            i <= tickets.len(),
            f == active_rule(),
            r@.len() == collect(tickets@.take(i as int), f).len(),
            forall|k: int|
                0 <= k < r@.len() ==> row_of(
                    #[trigger] r@[k],
                    collect(tickets@.take(i as int), f)[k],
                ),
        decreases tickets.len() - i,
    {
        proof {
            collect_step(tickets@, f, i as int);
        }
        let t = &tickets[i];
        if radar_active(t.status) {
            r.push(
                RadarRow {
                    ticket_id: t.id.clone(),
                    title: t.title.clone(),
                    scope: scope_snippet(t.description.as_str()),
                    service_tag: match &t.service_tag {
                        Some(s) => Some(s.clone()),
                        None => None,
                    },
                },
            );
        }
        i += 1;
    }
    assert(tickets@.take(tickets@.len() as int) =~= tickets@);
    r
}

/// A retired ticket is off the radar: no row stands for a ticket that is rejected, so a verdict
/// against a duplicate ends the pair.
pub proof fn a_retired_ticket_is_off_the_radar(tickets: Seq<RadarTicket>, id: Seq<char>, k: int)
    requires
        forall|i: int|
            0 <= i < tickets.len() && (#[trigger] tickets[i]).id@ == id ==> tickets[i].status
                == Status::Rejected,
        0 <= k < collect(tickets, active_rule()).len(),
    ensures
        collect(tickets, active_rule())[k].id@ != id,
{
    collected_has_source(tickets, active_rule(), k);
}

/// A decision on a pair of tickets.
#[derive(Clone, Debug)]
pub struct DupeActionReq {
    pub action: String,
    pub home_project_id: String,
    pub home_ticket_id: String,
    pub dup_project_id: String,
    pub dup_ticket_id: String,
}

/// What a decision does.
#[derive(Clone, Copy, Debug, PartialEq, Eq, Structural)]
pub enum DupeVerdict {
    Allow,
    Redirect,
    Reject,
}

pub open spec fn dupe_verdict(action: Seq<char>) -> Option<DupeVerdict> {
    if action == "allow"@ {
        Some(DupeVerdict::Allow)
    } else if action == "redirect"@ {
        Some(DupeVerdict::Redirect)
    } else if action == "reject"@ {
        Some(DupeVerdict::Reject)
    } else {
        None
    }
}

/// Admits a decision: it takes a qualified person who sees both sides.
pub fn admit_dupe_action(me: &Option<String>, visible: &Vec<String>, req: &DupeActionReq) -> (r:
    Result<DupeVerdict, Refusal>)
    ensures
        ({
            let seen = texts(visible@).contains(req.home_project_id@) && texts(visible@).contains(
                req.dup_project_id@,
            );
            match r {
                Ok(v) => me is Some && seen && dupe_verdict(req.action@) == Some(v),
                Err(e) => if me is None {
                    role_refused(e)
                } else if !seen {
                    e.v() == (403u16, "one side of this pair is not visible to you"@, false)
                } else {
                    dupe_verdict(req.action@) is None && e.v() == (
                        400u16,
                        "unknown action: "@ + req.action@,
                        false,
                    )
                },
            }
        }),
{
    if me.is_none() {
        return Err(plain(403, "your role may not take this decision"));
    }
    if !has_text(visible, req.home_project_id.as_str()) || !has_text(
        visible,
        req.dup_project_id.as_str(),
    ) {
        return Err(plain(403, "one side of this pair is not visible to you"));
    }
    let action = req.action.as_str();
    if same(action, "allow") {
        Ok(DupeVerdict::Allow)
    } else if same(action, "redirect") {
        Ok(DupeVerdict::Redirect)
    } else if same(action, "reject") {
        Ok(DupeVerdict::Reject)
    } else {
        let text = join2("unknown action: ", action);
        Err(plain(400, text.as_str()))
    }
}

pub open spec fn side_key(project: Seq<char>, ticket: Seq<char>) -> Seq<char> {
    project + "/"@ + ticket
}

/// The key of a pair: both sides, whichever comes first in the order of texts.
pub open spec fn spec_pair_key(a: Seq<char>, b: Seq<char>) -> Seq<char> {
    if text_le(a, b) {
        a + "|"@ + b
    } else {
        b + "|"@ + a
    }
}

/// The key of a pair of tickets, the same whichever of them is called the duplicate.
pub fn pair_key(home: (&str, &str), dup: (&str, &str)) -> (r: String)
    ensures
        r@ == spec_pair_key(side_key(home.0@, home.1@), side_key(dup.0@, dup.1@)),
{
    let a = join3(home.0, "/", home.1);
    let b = join3(dup.0, "/", dup.1);
    if text_leq(a.as_str(), b.as_str()) {
        join3(a.as_str(), "|", b.as_str())
    } else {
        join3(b.as_str(), "|", a.as_str())
    }
}

/// A pair has one key, in either order.
pub proof fn a_pair_has_one_key(a: Seq<char>, b: Seq<char>)
    ensures
        spec_pair_key(a, b) == spec_pair_key(b, a),
{
    text_le_is_an_order(a, b, a);
    text_le_is_strict(a, b);
}

/// A pair that a person allowed to stay.
#[derive(Clone, Debug)]
pub struct DupeAllow {
    pub key: String,
    pub by: String,
    pub at: String,
}

/// Whether the pair is on the list.
pub open spec fn allowed(list: Seq<DupeAllow>, key: Seq<char>) -> bool {
    exists|i: int| 0 <= i < list.len() && (#[trigger] list[i]).key@ == key
}

/// Allows a pair to stay; allowing it again changes nothing.
pub fn allow_pair(list: &mut Vec<DupeAllow>, key: &str, by: &str, at: &str)
    ensures
        allowed(final(list)@, key@),
        if allowed(old(list)@, key@) {
            final(list)@ == old(list)@
        } else {
            &&& final(list)@.len() == old(list)@.len() + 1
            &&& final(list)@.drop_last() == old(list)@
            &&& final(list)@.last().key@ == key@
            &&& final(list)@.last().by@ == by@
            &&& final(list)@.last().at@ == at@
        },
{
    let mut i: usize = 0;
    while i < list.len()
        invariant
            i <= list.len(),
            list@ == old(list)@,
            forall|j: int| 0 <= j < i ==> (#[trigger] list@[j]).key@ != key@,
        decreases list.len() - i,
    {
        if same(list[i].key.as_str(), key) {
            return;
        }
        i += 1;
    }
    let ghost before = list@;
    list.push(DupeAllow { key: owned(key), by: owned(by), at: owned(at) });
    assert(list@.drop_last() =~= before);
    assert(list@[before.len() as int].key@ == key@);
}

/// What retiring a duplicate leaves behind: the line on its own board and that of the audit.
#[derive(Clone, Debug)]
pub struct Retired {
    pub activity: Note,
    pub audit: String,
}

pub open spec fn retire_text(redirect: bool, home: Seq<char>) -> Seq<char> {
    if redirect {
        "redirected to "@ + home + " (cross-project duplicate radar)"@
    } else {
        "rejected as cross-project duplicate of "@ + home
    }
}

/// Retires the duplicate of a pair. The board decides whether the ticket may go: one that is
/// being worked on is not closed over people's heads.
pub fn retire_duplicate(
    exists_: bool,
    loaded: bool,
    moved: &Moved,
    req: &DupeActionReq,
    redirect: bool,
) -> (r: Result<Retired, Refusal>)
    ensures
        match r {
            Ok(t) => {
                &&& exists_ && loaded && moved is Done
                &&& t.activity.is(
                    "USER"@,
                    retire_text(redirect, side_key(req.home_project_id@, req.home_ticket_id@)),
                    Some(req.dup_ticket_id@),
                )
                &&& t.audit@ == "dupe-radar "@ + (if redirect { "redirect"@ } else { "reject"@ })
                    + " "@ + side_key(req.dup_project_id@, req.dup_ticket_id@)
            },
            Err(e) => if !exists_ {
                e.v() == (404u16, "no such project"@, false)
            } else if !loaded {
                e.v() == (500u16, "load failed"@, true)
            } else {
                match moved {
                    Moved::NoSuchTicket => e.v() == (404u16, "no such ticket"@, false),
                    Moved::NotAllowed(why) => e.v() == (409u16, why@, false),
                    Moved::Done => false,
                }
            },
        },
{
    if !exists_ {
        return Err(not_found());
    }
    if !loaded {
        return Err(internal_error("load failed"));
    }
    match moved {
        Moved::NoSuchTicket => {
            return Err(plain(404, "no such ticket"));
        },
        Moved::NotAllowed(why) => {
            return Err(plain(409, why.as_str()));
        },
        Moved::Done => {},
    }
    let home = join3(req.home_project_id.as_str(), "/", req.home_ticket_id.as_str());
    let dup = join3(req.dup_project_id.as_str(), "/", req.dup_ticket_id.as_str());
    let text = if redirect {
        join3("redirected to ", home.as_str(), " (cross-project duplicate radar)")
    } else {
        join2("rejected as cross-project duplicate of ", home.as_str())
    };
    let mut audit = owned("dupe-radar ");
    audit.append(
        if redirect {
            "redirect"
        } else {
            "reject"
        },
    );
    audit.append(" ");
    audit.append(dup.as_str());
    Ok(
        Retired {
            activity: note_on("USER", text.as_str(), req.dup_ticket_id.as_str()),
            audit,
        },
    )
}

/// The radar holds exactly the tickets that are neither shipped nor rejected, in their order.
pub proof fn the_radar_holds_open_work(tickets: Seq<RadarTicket>)
    ensures
        collect(tickets, active_rule()) == tickets.filter(
            |t: RadarTicket|
                t.status == Status::Pending || t.status == Status::Ready || t.status
                    == Status::InProgress || t.status == Status::Open || t.status == Status::Fixed
                    || t.status == Status::OnHold,
        ),
{
    kept_is_filtered(
        tickets,
        active_rule(),
        |t: RadarTicket|
            t.status == Status::Pending || t.status == Status::Ready || t.status
                == Status::InProgress || t.status == Status::Open || t.status == Status::Fixed
                || t.status == Status::OnHold,
    );
}

/// No more of a description crosses projects than its beginning: a short one as it is, a long one
/// cut and marked as cut.
pub proof fn only_the_beginning_crosses_projects(desc: Seq<char>)
    ensures
        spec_trim(desc).len() <= 200 ==> snippet(desc) == spec_trim(desc),
        spec_trim(desc).len() > 200 ==> snippet(desc).len() == 201 && snippet(desc).drop_last()
            == spec_trim(desc).subrange(0, 200) && snippet(desc).last() == '…',
{
    if spec_trim(desc).len() > 200 {
        assert(snippet(desc).drop_last() =~= spec_trim(desc).subrange(0, 200));
    }
}

/// A decision is told by its name.
pub proof fn a_decision_is_told_by_its_name(action: Seq<char>)
    ensures
        dupe_verdict(action) == Some(DupeVerdict::Allow) <==> action == "allow"@,
        dupe_verdict(action) == Some(DupeVerdict::Redirect) <==> action == "redirect"@,
        dupe_verdict(action) == Some(DupeVerdict::Reject) <==> action == "reject"@,
{
    reveal_strlit("allow");
    reveal_strlit("redirect");
    reveal_strlit("reject");
    assert("allow"@.len() == 5 && "redirect"@.len() == 8 && "reject"@.len() == 6);
}

/// The key of a pair holds both sides, the one that comes first in front.
pub proof fn a_key_holds_both_sides(a: Seq<char>, b: Seq<char>)
    ensures
        text_le(a, b) ==> spec_pair_key(a, b) == a + "|"@ + b && spec_pair_key(b, a) == a + "|"@ + b,
        spec_pair_key(a, b).len() == a.len() + b.len() + 1,
{
    text_le_is_an_order(a, b, a);
    text_le_is_strict(a, b);
    reveal_strlit("|");
}

/// Two pairs have the same key only if they are the same pair. (This holds of sides without the
/// bar that joins them.)
pub proof fn a_key_tells_pairs_apart(a: Seq<char>, b: Seq<char>, c: Seq<char>, d: Seq<char>)
    requires
        spec_pair_key(a, b) == spec_pair_key(c, d),
        !a.contains('|'),
        !b.contains('|'),
        !c.contains('|'),
        !d.contains('|'),
    ensures
        a == c && b == d || a == d && b == c,
{
    reveal_strlit("|");
    assert("|"@ =~= seq!['|']);
    let (x, y) = if text_le(a, b) {
        (a, b)
    } else {
        (b, a)
    };
    let (z, w) = if text_le(c, d) {
        (c, d)
    } else {
        (d, c)
    };
    let k = x + seq!['|'] + y;
    let l = z + seq!['|'] + w;
    assert(k == l);
    if x.len() < z.len() {
        assert(k[x.len() as int] == '|');
        assert(l[x.len() as int] == z[x.len() as int]);
        assert(z.contains('|'));
    } else if z.len() < x.len() {
        assert(l[z.len() as int] == '|');
        assert(k[z.len() as int] == x[z.len() as int]);
        assert(x.contains('|'));
    } else {
        assert(x =~= k.take(x.len() as int));
        assert(z =~= l.take(x.len() as int));
        assert(y =~= k.skip(x.len() as int + 1));
        assert(w =~= l.skip(x.len() as int + 1));
    }
}

/// A retired duplicate says where the work lives on, and whether it was sent there or turned down.
pub proof fn a_retired_ticket_points_home(redirect: bool, home: Seq<char>)
    ensures
        exists|before: Seq<char>, after: Seq<char>|
            retire_text(redirect, home) == #[trigger] (before + home + after) && (redirect ==> before
                == "redirected to "@) && (!redirect ==> before
                == "rejected as cross-project duplicate of "@ && after.len() == 0),
{
    if redirect {
        assert(retire_text(redirect, home) =~= "redirected to "@ + home
            + " (cross-project duplicate radar)"@);
    } else {
        assert(retire_text(redirect, home) =~= "rejected as cross-project duplicate of "@ + home
            + Seq::<char>::empty());
    }
}

/// A pair is allowed once it is entered under its key; that of another pair does not count.
pub proof fn a_pair_is_allowed_once_entered(list: Seq<DupeAllow>, a: DupeAllow, key: Seq<char>)
    ensures
        !allowed(Seq::empty(), key),
        allowed(list.push(a), key) <==> allowed(list, key) || a.key@ == key,
{
    let more = list.push(a);
    if allowed(list, key) {
        let i = choose|i: int| 0 <= i < list.len() && (#[trigger] list[i]).key@ == key;
        assert(more[i].key@ == key);
    }
    if a.key@ == key {
        assert(more[list.len() as int].key@ == key);
    }
    if allowed(more, key) {
        let i = choose|i: int| 0 <= i < more.len() && (#[trigger] more[i]).key@ == key;
        if i < list.len() {
            assert(list[i].key@ == key);
        }
    }
}

/// A row tells its ticket's identifier, title and service, and no more of the description than may
/// cross projects.
pub proof fn a_row_tells_its_ticket(r: RadarRow, t: RadarTicket)
    requires
        row_of(r, t),
    ensures
        r.ticket_id == t.id && r.title == t.title && r.service_tag == t.service_tag,
        r.scope@.len() <= 201,
        spec_trim(t.description@).len() <= 200 ==> r.scope@ == spec_trim(t.description@),
{
}

} // verus!
