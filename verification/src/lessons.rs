//! What people do about recorded lessons.

use crate::board::{Status, TicketType};
use crate::guards::{AuthRole, AuthUser};
use crate::reply::{internal_error, json, plain, Refusal};
use crate::text::{
    contains, has_text, head, join2, owned, same, spec_contains, spec_head, spec_trim, texts, trim,
};
use vstd::prelude::*;

verus! {

/// Why a write to the lessons is refused: it takes a member of the project who may write.
pub open spec fn lesson_refusal(accounts: bool, user: Option<AuthUser>, pid: Seq<char>) -> Option<
    (u16, Seq<char>, bool),
> {
    if !accounts {
        None
    } else {
        match user {
            None => Some((401, "sign in first"@, false)),
            Some(u) => if u.role == AuthRole::Viewer {
                Some((403, "write role required"@, true))
            } else if !u.role.spec_sees_all() && !texts(u.projects@).contains(pid) {
                Some((403, "not a member of this project"@, true))
            } else {
                None
            },
        }
    }
}

/// Admits a write to a project's lessons and tells who acts.
pub fn authorize_lesson_write(accounts: bool, user: &Option<AuthUser>, pid: &str) -> (r: Result<
    String,
    Refusal,
>)
    ensures
        match r {
            Err(e) => lesson_refusal(accounts, *user, pid@) == Some(e.v()),
            Ok(who) => lesson_refusal(accounts, *user, pid@) is None && who@ == if accounts {
                user->0.username@
            } else {
                "operator"@
            },
        },
{
    if !accounts {
        return Ok(owned("operator"));
    }
    match user {
        None => Err(plain(401, "sign in first")),
        Some(u) => if u.role == AuthRole::Viewer {
            Err(json(403, "write role required"))
        } else if !u.role.sees_all() && !has_text(&u.projects, pid) {
            Err(json(403, "not a member of this project"))
        } else {
            Ok(u.username.clone())
        },
    }
}

/// A suggested match that a person rejects.
#[derive(Clone, Debug)]
pub struct Dismissal {
    pub lesson: String,
    pub incident_at: String,
    pub incident_reason: String,
}

/// Checks a dismissal: it names a lesson and an incident.
pub fn admit_dismiss(lesson: &str, incident_at: &str, incident_reason: &str) -> (r: Result<
    Dismissal,
    Refusal,
>)
    ensures
        match r {
            Ok(d) => spec_trim(lesson@).len() > 0 && spec_trim(incident_at@).len() > 0 && d.lesson@
                == spec_trim(lesson@) && d.incident_at@ == spec_trim(incident_at@)
                && d.incident_reason@ == spec_trim(incident_reason@),
            Err(e) => (spec_trim(lesson@).len() == 0 || spec_trim(incident_at@).len() == 0) && e.v()
                == (400u16, "dismiss needs lesson and incident_at"@, true),
        },
{
    let lesson = trim(lesson);
    let at = trim(incident_at);
    if lesson.as_str().is_empty() || at.as_str().is_empty() {
        return Err(json(400, "dismiss needs lesson and incident_at"));
    }
    Ok(Dismissal { lesson, incident_at: at, incident_reason: trim(incident_reason) })
}

/// A ticket as the lessons see it.
#[derive(Clone, Debug)]
pub struct LessonTicket {
    pub id: String,
    pub title: String,
    pub ticket_type: TicketType,
    pub status: Status,
}

/// An escalation of a lesson: the ticket that was filed, and how far it went.
#[derive(Clone, Debug)]
pub struct Escalation {
    pub ticket: String,
    pub stage: String,
}

/// A recorded lesson.
#[derive(Clone, Debug)]
pub struct LessonRecord {
    pub text: String,
    pub escalated: Option<Escalation>,
}

/// Whether a ticket with that identifier is still open.
pub open spec fn still_open(tickets: Seq<LessonTicket>, id: Seq<char>) -> bool {
    exists|i: int|
        0 <= i < tickets.len() && (#[trigger] tickets[i]).id@ == id && tickets[i].status
            != Status::Done && tickets[i].status != Status::Documented && tickets[i].status
            != Status::Rejected
}

fn is_open(tickets: &Vec<LessonTicket>, id: &str) -> (b: bool)
    ensures
        b == still_open(tickets@, id@),
{
    let mut i: usize = 0;
    while i < tickets.len()
        invariant
            i <= tickets.len(),
            forall|j: int|
                0 <= j < i ==> !((#[trigger] tickets@[j]).id@ == id@ && tickets@[j].status
                    != Status::Done && tickets@[j].status != Status::Documented
                    && tickets@[j].status != Status::Rejected),
        decreases tickets.len() - i,
    {
        let t = &tickets[i];
        if t.status != Status::Done && t.status != Status::Documented && t.status
            != Status::Rejected && same(t.id.as_str(), id) {
            return true;
        }
        i += 1;
    }
    false
}

/// The first record of the lesson.
pub open spec fn record_of(records: Seq<LessonRecord>, lesson: Seq<char>) -> Option<LessonRecord>
    decreases records.len(),
{
    if records.len() == 0 {
        None
    } else if records[0].text@ == lesson {
        Some(records[0])
    } else {
        record_of(records.skip(1), lesson)
    }
}

/// The escalation of a lesson whose ticket is still open.
pub open spec fn open_escalation(
    records: Seq<LessonRecord>,
    tickets: Seq<LessonTicket>,
    lesson: Seq<char>,
) -> Option<Escalation> {
    match record_of(records, lesson) {
        Some(r) => match r.escalated {
            Some(e) => if still_open(tickets, e.ticket@) {
                Some(e)
            } else {
                None
            },
            None => None,
        },
        None => None,
    }
}

/// The escalation that is still in flight for a lesson.
pub fn open_escalation_of(
    records: &Vec<LessonRecord>,
    tickets: &Vec<LessonTicket>,
    lesson: &str,
) -> (r: Option<Escalation>)
    ensures
        r == open_escalation(records@, tickets@, lesson@),
{
    let mut i: usize = 0;
    assert(records@.skip(0) =~= records@);
    while i < records.len()
        invariant
            i <= records.len(),
            record_of(records@, lesson@) == record_of(records@.skip(i as int), lesson@),
        decreases records.len() - i,
    {
        if same(records[i].text.as_str(), lesson) {
            return match &records[i].escalated {
                Some(e) => if is_open(tickets, e.ticket.as_str()) {
                    Some(Escalation { ticket: e.ticket.clone(), stage: e.stage.clone() })
                } else {
                    None
                },
                None => None,
            };
        }
        assert(records@.skip(i as int).skip(1) =~= records@.skip(i + 1));
        i += 1;
    }
    None
}

/// The ticket that an escalation files.
#[derive(Clone, Debug)]
pub struct PreventionTicket {
    pub lesson: String,
    pub title: String,
    pub description: String,
    pub criterion: String,
}

/// What an escalation does.
#[derive(Clone, Debug)]
pub enum EscalatePlan {
    /// One is in flight already: it is returned as it is.
    Already(Escalation),
    /// A prevention ticket is to be filed.
    File(PreventionTicket),
}

pub open spec fn prevention_title(lesson: Seq<char>) -> Seq<char> {
    "Prevention: "@ + spec_head(lesson, 80)
}

pub open spec fn prevention_text(lesson: Seq<char>) -> Seq<char> {
    "CXA-F306 lesson efficacy: this lesson keeps recurring — its failure class matched 2+ incidents (or was re-learned twice) after it was recorded. Stop the class, not the symptom.\n\nLesson: "@
        + lesson
}

/// Plans the escalation of a lesson that keeps recurring. It files one ticket: while that is
/// open, asking again returns it.
pub fn plan_escalation(records: &Vec<LessonRecord>, tickets: &Vec<LessonTicket>, lesson: &str) -> (r:
    Result<EscalatePlan, Refusal>)
    ensures
        ({
            let l = spec_trim(lesson@);
            match r {
                Err(e) => l.len() == 0 && e.v() == (400u16, "escalate needs a lesson"@, true),
                Ok(EscalatePlan::Already(e)) => l.len() > 0 && open_escalation(
                    records@,
                    tickets@,
                    l,
                ) == Some(e),
                Ok(EscalatePlan::File(t)) => l.len() > 0 && open_escalation(
                    records@,
                    tickets@,
                    l,
                ) is None && t.lesson@ == l && t.title@ == prevention_title(l) && t.description@
                    == prevention_text(l) && t.criterion@
                    == "The lesson's failure class cannot recur without being caught by a check, not a lesson"@,
            }
        }),
{
    let l = trim(lesson);
    if l.as_str().is_empty() {
        return Err(json(400, "escalate needs a lesson"));
    }
    if let Some(e) = open_escalation_of(records, tickets, l.as_str()) {
        return Ok(EscalatePlan::Already(e));
    }
    let short = head(l.as_str(), 80);
    let title = join2("Prevention: ", short.as_str());
    let description = join2(
        "CXA-F306 lesson efficacy: this lesson keeps recurring — its failure class matched 2+ incidents (or was re-learned twice) after it was recorded. Stop the class, not the symptom.\n\nLesson: ",
        l.as_str(),
    );
    Ok(
        EscalatePlan::File(
            PreventionTicket {
                lesson: l,
                title,
                description,
                criterion: owned(
                    "The lesson's failure class cannot recur without being caught by a check, not a lesson",
                ),
            },
        ),
    )
}

/// While the ticket of an escalation is open, asking again files nothing: the escalation is
/// returned. Once no ticket with its identifier is open, the lesson can be escalated anew.
pub proof fn an_open_escalation_is_filed_once(
    records: Seq<LessonRecord>,
    tickets: Seq<LessonTicket>,
    lesson: Seq<char>,
    r: LessonRecord,
    e: Escalation,
)
    requires
        record_of(records, lesson) == Some(r),
        r.escalated == Some(e),
    ensures
        still_open(tickets, e.ticket@) ==> open_escalation(records, tickets, lesson) == Some(e),
        !still_open(tickets, e.ticket@) ==> open_escalation(records, tickets, lesson) is None,
{
}

/// How a filing ended.
#[derive(Clone, Debug)]
pub struct Escalated {
    pub ticket: String,
    pub already: bool,
}

/// The first chore with that title.
pub open spec fn chore_of(tickets: Seq<LessonTicket>, title: Seq<char>) -> Option<String>
    decreases tickets.len(),
{
    if tickets.len() == 0 {
        None
    } else if tickets[0].title@ == title && tickets[0].ticket_type == TicketType::Chore {
        Some(tickets[0].id)
    } else {
        chore_of(tickets.skip(1), title)
    }
}

fn find_chore(tickets: &Vec<LessonTicket>, title: &str) -> (r: Option<String>)
    ensures
        r == chore_of(tickets@, title@),
{
    let mut i: usize = 0;
    assert(tickets@.skip(0) =~= tickets@);
    while i < tickets.len()
        invariant
            i <= tickets.len(),
            chore_of(tickets@, title@) == chore_of(tickets@.skip(i as int), title@),
        decreases tickets.len() - i,
    {
        if tickets[i].ticket_type == TicketType::Chore && same(tickets[i].title.as_str(), title) {
            return Some(tickets[i].id.clone());
        }
        assert(tickets@.skip(i as int).skip(1) =~= tickets@.skip(i + 1));
        i += 1;
    }
    None
}

/// Settles a filing. One that was refused as a duplicate (its message holds `marker`) points at
/// the ticket that is there already, where it can be found among `tickets`.
pub fn settle_escalation(
    filed: &Result<String, String>,
    marker: &str,
    tickets: &Option<Vec<LessonTicket>>,
    title: &str,
) -> (r: Result<Escalated, Refusal>)
    ensures
        match filed {
            Ok(id) => r is Ok && r->Ok_0.ticket == *id && !r->Ok_0.already,
            Err(why) => {
                let there = if spec_contains(why@, marker@) && tickets is Some {
                    chore_of(tickets->0@, title@)
                } else {
                    None
                };
                match there {
                    Some(id) => r is Ok && r->Ok_0.ticket == id && r->Ok_0.already,
                    None => r is Err && r->Err_0.v() == (500u16, why@, true),
                }
            },
        },
{
    match filed {
        Ok(id) => Ok(Escalated { ticket: id.clone(), already: false }),
        Err(why) => {
            if contains(why.as_str(), marker) {
                if let Some(list) = tickets {
                    if let Some(id) = find_chore(list, title) {
                        return Ok(Escalated { ticket: id, already: true });
                    }
                }
            }
            Err(internal_error(why.as_str()))
        },
    }
}

/// A lesson is written to by a member of the project who is more than a viewer, by the hub's owner
/// and its admins, and by anyone where there are no accounts; by nobody else.
pub proof fn only_members_write_lessons(accounts: bool, user: Option<AuthUser>, pid: Seq<char>)
    ensures
        lesson_refusal(accounts, user, pid) is None <==> !accounts || (user is Some && user->0.role
            != AuthRole::Viewer && (user->0.role == AuthRole::Super || user->0.role
            == AuthRole::Admin || texts(user->0.projects@).contains(pid))),
        match lesson_refusal(accounts, user, pid) {
            Some((status, _, _)) => status == if user is None {
                401u16
            } else {
                403u16
            },
            None => true,
        },
{
}

proof fn record_of_is_first(records: Seq<LessonRecord>, lesson: Seq<char>)
    ensures
        match record_of(records, lesson) {
            Some(r) => exists|i: int|
                0 <= i < records.len() && (#[trigger] records[i]).text@ == lesson && records[i] == r
                    && forall|j: int| 0 <= j < i ==> (#[trigger] records[j]).text@ != lesson,
            None => forall|j: int|
                0 <= j < records.len() ==> (#[trigger] records[j]).text@ != lesson,
        },
    decreases records.len(),
{
    if records.len() > 0 {
        let rest = records.skip(1);
        record_of_is_first(rest, lesson);
        assert(forall|j: int| 0 <= j < rest.len() ==> #[trigger] rest[j] == records[j + 1]);
        assert(forall|j: int| 1 <= j < records.len() ==> #[trigger] records[j] == rest[j - 1]);
        if records[0].text@ != lesson && record_of(rest, lesson) is Some {
            let i = choose|i: int|
                0 <= i < rest.len() && (#[trigger] rest[i]).text@ == lesson && rest[i] == record_of(
                    rest,
                    lesson,
                )->0 && forall|j: int| 0 <= j < i ==> (#[trigger] rest[j]).text@ != lesson;
            assert(records[i + 1].text@ == lesson);
        }
    }
}

/// A lesson's escalation is in flight exactly while the lesson's first record names one whose
/// ticket is on the board and neither done, documented nor rejected.
pub proof fn an_escalation_is_in_flight_while_its_ticket_is_open(
    records: Seq<LessonRecord>,
    tickets: Seq<LessonTicket>,
    lesson: Seq<char>,
    e: Escalation,
)
    ensures
        open_escalation(records, tickets, lesson) == Some(e) <==> (exists|i: int|
            0 <= i < records.len() && (#[trigger] records[i]).text@ == lesson
                && records[i].escalated == Some(e) && forall|j: int|
                0 <= j < i ==> (#[trigger] records[j]).text@ != lesson) && (exists|k: int|
            0 <= k < tickets.len() && (#[trigger] tickets[k]).id@ == e.ticket@ && !(
            tickets[k].status == Status::Done || tickets[k].status == Status::Documented
                || tickets[k].status == Status::Rejected)),
{
    record_of_is_first(records, lesson);
    let named = exists|i: int|
        0 <= i < records.len() && (#[trigger] records[i]).text@ == lesson && records[i].escalated
            == Some(e) && forall|j: int| 0 <= j < i ==> (#[trigger] records[j]).text@ != lesson;
    if record_of(records, lesson) is Some {
        let r = record_of(records, lesson)->0;
        let a = choose|i: int|
            0 <= i < records.len() && (#[trigger] records[i]).text@ == lesson && records[i] == r
                && forall|j: int| 0 <= j < i ==> (#[trigger] records[j]).text@ != lesson;
        assert(named == (r.escalated == Some(e))) by {
            if named {
                let b = choose|i: int|
                    0 <= i < records.len() && (#[trigger] records[i]).text@ == lesson
                        && records[i].escalated == Some(e) && forall|j: int|
                        0 <= j < i ==> (#[trigger] records[j]).text@ != lesson;
                if a < b {
                    assert(records[a].text@ != lesson);
                } else if b < a {
                    assert(records[b].text@ != lesson);
                }
            }
            if r.escalated == Some(e) {
                assert(records[a].escalated == Some(e));
            }
        }
    }
    let open = exists|k: int|
        0 <= k < tickets.len() && (#[trigger] tickets[k]).id@ == e.ticket@ && !(tickets[k].status
            == Status::Done || tickets[k].status == Status::Documented || tickets[k].status
            == Status::Rejected);
    assert(open == still_open(tickets, e.ticket@)) by {
        if open {
            let k = choose|k: int|
                0 <= k < tickets.len() && (#[trigger] tickets[k]).id@ == e.ticket@ && !(
                tickets[k].status == Status::Done || tickets[k].status == Status::Documented
                    || tickets[k].status == Status::Rejected);
            assert(tickets[k].id@ == e.ticket@);
        }
        if still_open(tickets, e.ticket@) {
            let k = choose|k: int|
                0 <= k < tickets.len() && (#[trigger] tickets[k]).id@ == e.ticket@
                    && tickets[k].status != Status::Done && tickets[k].status != Status::Documented
                    && tickets[k].status != Status::Rejected;
            assert(tickets[k].id@ == e.ticket@);
        }
    }
}

/// A duplicate filing points at a chore of that title: the first one there is, and at nothing only
/// where there is none.
pub proof fn a_duplicate_points_at_the_chore(tickets: Seq<LessonTicket>, title: Seq<char>)
    ensures
        match chore_of(tickets, title) {
            Some(id) => exists|i: int|
                0 <= i < tickets.len() && (#[trigger] tickets[i]).title@ == title
                    && tickets[i].ticket_type == TicketType::Chore && tickets[i].id == id && (forall|
                    j: int,
                |
                    0 <= j < i ==> (#[trigger] tickets[j]).title@ != title || tickets[j].ticket_type
                        != TicketType::Chore),
            None => forall|j: int|
                0 <= j < tickets.len() ==> (#[trigger] tickets[j]).title@ != title
                    || tickets[j].ticket_type != TicketType::Chore,
        },
    decreases tickets.len(),
{
    if tickets.len() > 0 {
        let rest = tickets.skip(1);
        a_duplicate_points_at_the_chore(rest, title);
        assert(forall|j: int| 0 <= j < rest.len() ==> #[trigger] rest[j] == tickets[j + 1]);
        assert(forall|j: int| 1 <= j < tickets.len() ==> #[trigger] tickets[j] == rest[j - 1]);
        if !(tickets[0].title@ == title && tickets[0].ticket_type == TicketType::Chore)
            && chore_of(rest, title) is Some {
            let i = choose|i: int|
                0 <= i < rest.len() && (#[trigger] rest[i]).title@ == title && rest[i].ticket_type
                    == TicketType::Chore && rest[i].id == chore_of(rest, title)->0 && (forall|
                    j: int,
                |
                    0 <= j < i ==> (#[trigger] rest[j]).title@ != title || rest[j].ticket_type
                        != TicketType::Chore);
            assert(tickets[i + 1].title@ == title);
        }
    }
}

/// A prevention ticket names its lesson: the title begins with it, cut to eighty characters, and
/// the text ends with all of it.
pub proof fn a_prevention_ticket_names_its_lesson(lesson: Seq<char>)
    ensures
        lesson.len() <= 80 ==> prevention_title(lesson) == "Prevention: "@ + lesson,
        lesson.len() > 80 ==> prevention_title(lesson) == "Prevention: "@ + lesson.take(80),
        prevention_text(lesson).len() >= lesson.len() && prevention_text(lesson).skip(
            prevention_text(lesson).len() - lesson.len(),
        ) == lesson,
{
    assert(prevention_text(lesson).skip(prevention_text(lesson).len() - lesson.len()) =~= lesson);
}

} // verus!
