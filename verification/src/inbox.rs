//! The inbox of the signed-in person: everything that waits on them, and what their one-click
//! decisions do.

use crate::board::{note, note_on, Note, Priority, Status};
use crate::lists::{
    collect, collect_alike, collect_step, collected_has_source, collected_in_order, drop_text,
    dropped_text_is_gone, kept_is_filtered, source_is_collected, without_text,
};
use crate::reply::{internal_error, plain, Refusal};
use crate::text::{
    a_text_is_found_where_it_first_stands, ascii_alnum, ascii_lower, chars_of, contains, decimal, has_text, is_ascii_alnum, join2, owned,
    same, spec_ascii_lower, spec_contains, spec_decimal, spec_trim, texts, trim,
};
use vstd::prelude::*;

verus! {

/// What the caller's role lets them act on.
#[derive(Clone, Copy, Debug, PartialEq, Eq, Structural)]
pub struct Powers {
    pub approve_ready: bool,
    pub verify: bool,
    pub review: bool,
}

/// What the inbox reads of a ticket.
#[derive(Clone, Debug)]
pub struct TicketRow {
    pub id: String,
    pub title: String,
    pub status: Status,
    pub priority: Priority,
    pub has_technical_design: bool,
    pub assignee: Option<String>,
}

/// An approval that the machine gave by itself, and how long ago.
#[derive(Clone, Debug)]
pub struct AutoApproval {
    pub ticket: String,
    pub age_secs: Option<u64>,
}

/// A question asked on the board.
#[derive(Clone, Debug)]
pub struct Question {
    pub id: String,
    pub ticket: String,
    pub from: String,
    pub to: String,
    pub body: String,
    pub answer: String,
    pub asked_at: String,
    pub escalated: bool,
    pub deferred: bool,
}

/// A pull request that is held for human eyes.
#[derive(Clone, Debug)]
pub struct Hold {
    pub number: u64,
    pub reason: String,
}

/// An open pull request.
#[derive(Clone, Debug)]
pub struct OpenPr {
    pub number: u64,
    pub title: String,
    pub url: String,
    pub mergeable: bool,
}

#[derive(Clone, Copy, Debug, PartialEq, Eq, Structural)]
pub enum RevertDecision {
    Pending,
    Approved,
    Dismissed,
}

/// Shipped work that seems to have been undone.
#[derive(Clone, Debug)]
pub struct Revert {
    pub sha: String,
    pub ticket: String,
    pub subject: String,
    pub role: String,
    pub reverted_at: String,
    pub decision: RevertDecision,
}

/// A review of a pull request.
#[derive(Clone, Debug)]
pub struct Review {
    pub number: u64,
    pub decision: String,
}

/// What the inbox reads of a project.
#[derive(Clone, Debug)]
pub struct InboxState {
    pub tickets: Vec<TicketRow>,
    pub cost_holds: Vec<String>,
    pub cost_approved: Vec<String>,
    pub evidence: Vec<String>,
    pub hold_reasons: Vec<(String, String)>,
    pub auto_approved: Vec<AutoApproval>,
    pub questions: Vec<Question>,
    pub human_holds: Vec<Hold>,
    pub known_prs: Vec<OpenPr>,
    pub reverts: Vec<Revert>,
    pub reviews: Vec<Review>,
    pub fix_attempts: Vec<(u64, u64)>,
    pub rescues: Vec<(u64, u64)>,
    pub gate_ready: bool,
    pub gate_verify: bool,
    pub undo_window_minutes: u64,
}

/// One thing that waits on a person.
#[derive(Clone, Debug)]
pub enum InboxItem {
    CostApprove { ticket: String, title: String, priority: Priority, can_act: bool },
    ApproveReady { ticket: String, title: String, priority: Priority, can_act: bool },
    Verify { ticket: String, title: String, can_act: bool },
    OnHold { ticket: String, title: String, reason: Option<String>, can_act: bool },
    Assigned { ticket: String, title: String, status: Status },
    AutoApproved { ticket: String, title: String, minutes_left: u64, can_act: bool },
    Asked { question: Question },
    HumanEyes { hold: Hold, known_pr: Option<OpenPr>, can_act: bool },
    RevertedWork { revert: Revert, can_act: bool },
    ReviewPr { pr: OpenPr, held: bool, can_act: bool },
    PrStuck { pr: OpenPr, attempts: u64, can_act: bool },
}

impl InboxItem {
    /// The name of the item's kind.
    pub open spec fn spec_kind(self) -> Seq<char> {
        match self {
            InboxItem::CostApprove { .. } => "cost_approve"@,
            InboxItem::ApproveReady { .. } => "approve_ready"@,
            InboxItem::Verify { .. } => "verify"@,
            InboxItem::OnHold { .. } => "on_hold"@,
            InboxItem::Assigned { .. } => "assigned"@,
            InboxItem::AutoApproved { .. } => "auto_approved"@,
            InboxItem::Asked { .. } => "question"@,
            InboxItem::HumanEyes { .. } => "human_eyes"@,
            InboxItem::RevertedWork { .. } => "reverted_work"@,
            InboxItem::ReviewPr { .. } => "review_pr"@,
            InboxItem::PrStuck { .. } => "pr_stuck"@,
        }
    }

    /// Whom the item is for: a role, the person, or who shipped the work that was undone.
    pub open spec fn spec_role(self) -> Seq<char> {
        match self {
            InboxItem::CostApprove { .. } => "PO"@,
            InboxItem::ApproveReady { .. } => "BA/PO"@,
            InboxItem::Verify { .. } => "QA"@,
            InboxItem::OnHold { .. } => "PO"@,
            InboxItem::Assigned { .. } => "you"@,
            InboxItem::AutoApproved { .. } => "BA/PO"@,
            InboxItem::Asked { .. } => "you"@,
            InboxItem::HumanEyes { .. } => "SA/dev"@,
            InboxItem::RevertedWork { revert, .. } => revert.role@,
            InboxItem::ReviewPr { .. } => "SA/dev"@,
            InboxItem::PrStuck { .. } => "SA/dev"@,
        }
    }

    /// Whether the caller may act on the item: what is addressed to them, they may.
    pub open spec fn spec_can_act(self) -> bool {
        match self {
            InboxItem::CostApprove { can_act, .. } => can_act,
            InboxItem::ApproveReady { can_act, .. } => can_act,
            InboxItem::Verify { can_act, .. } => can_act,
            InboxItem::OnHold { can_act, .. } => can_act,
            InboxItem::Assigned { .. } => true,
            InboxItem::AutoApproved { can_act, .. } => can_act,
            InboxItem::Asked { .. } => true,
            InboxItem::HumanEyes { can_act, .. } => can_act,
            InboxItem::RevertedWork { can_act, .. } => can_act,
            InboxItem::ReviewPr { can_act, .. } => can_act,
            InboxItem::PrStuck { can_act, .. } => can_act,
        }
    }

    pub fn kind(&self) -> (r: &'static str)
        ensures
            r@ == self.spec_kind(),
    {
        match self {
            InboxItem::CostApprove { .. } => "cost_approve",
            InboxItem::ApproveReady { .. } => "approve_ready",
            InboxItem::Verify { .. } => "verify",
            InboxItem::OnHold { .. } => "on_hold",
            InboxItem::Assigned { .. } => "assigned",
            InboxItem::AutoApproved { .. } => "auto_approved",
            InboxItem::Asked { .. } => "question",
            InboxItem::HumanEyes { .. } => "human_eyes",
            InboxItem::RevertedWork { .. } => "reverted_work",
            InboxItem::ReviewPr { .. } => "review_pr",
            InboxItem::PrStuck { .. } => "pr_stuck",
        }
    }

    pub fn role(&self) -> (r: String)
        ensures
            r@ == self.spec_role(),
    {
        match self {
            InboxItem::CostApprove { .. } => owned("PO"),
            InboxItem::ApproveReady { .. } => owned("BA/PO"),
            InboxItem::Verify { .. } => owned("QA"),
            InboxItem::OnHold { .. } => owned("PO"),
            InboxItem::Assigned { .. } => owned("you"),
            InboxItem::AutoApproved { .. } => owned("BA/PO"),
            InboxItem::Asked { .. } => owned("you"),
            InboxItem::HumanEyes { .. } => owned("SA/dev"),
            InboxItem::RevertedWork { revert, .. } => revert.role.clone(),
            InboxItem::ReviewPr { .. } => owned("SA/dev"),
            InboxItem::PrStuck { .. } => owned("SA/dev"),
        }
    }

    pub fn can_act(&self) -> (b: bool)
        ensures
            b == self.spec_can_act(),
    {
        match self {
            InboxItem::CostApprove { can_act, .. } => *can_act,
            InboxItem::ApproveReady { can_act, .. } => *can_act,
            InboxItem::Verify { can_act, .. } => *can_act,
            InboxItem::OnHold { can_act, .. } => *can_act,
            InboxItem::Assigned { .. } => true,
            InboxItem::AutoApproved { can_act, .. } => *can_act,
            InboxItem::Asked { .. } => true,
            InboxItem::HumanEyes { can_act, .. } => *can_act,
            InboxItem::RevertedWork { can_act, .. } => *can_act,
            InboxItem::ReviewPr { can_act, .. } => *can_act,
            InboxItem::PrStuck { can_act, .. } => *can_act,
        }
    }
}

impl Question {
    fn copy(&self) -> (r: Question)
        ensures
            r == *self,
    {
        Question {
            id: self.id.clone(),
            ticket: self.ticket.clone(),
            from: self.from.clone(),
            to: self.to.clone(),
            body: self.body.clone(),
            answer: self.answer.clone(),
            asked_at: self.asked_at.clone(),
            escalated: self.escalated,
            deferred: self.deferred,
        }
    }
}

impl Hold {
    fn copy(&self) -> (r: Hold)
        ensures
            r == *self,
    {
        Hold { number: self.number, reason: self.reason.clone() }
    }
}

impl OpenPr {
    fn copy(&self) -> (r: OpenPr)
        ensures
            r == *self,
    {
        OpenPr {
            number: self.number,
            title: self.title.clone(),
            url: self.url.clone(),
            mergeable: self.mergeable,
        }
    }
}

impl Revert {
    fn copy(&self) -> (r: Revert)
        ensures
            r == *self,
    {
        Revert {
            sha: self.sha.clone(),
            ticket: self.ticket.clone(),
            subject: self.subject.clone(),
            role: self.role.clone(),
            reverted_at: self.reverted_at.clone(),
            decision: self.decision,
        }
    }
}

/// The value paired with a key: that of the first pair that has it.
pub open spec fn text_of(pairs: Seq<(String, String)>, key: Seq<char>) -> Option<String>
    decreases pairs.len(),
{
    if pairs.len() == 0 {
        None
    } else if pairs[0].0@ == key {
        Some(pairs[0].1)
    } else {
        text_of(pairs.skip(1), key)
    }
}

fn text_for(pairs: &Vec<(String, String)>, key: &str) -> (r: Option<String>)
    ensures
        r == text_of(pairs@, key@),
{
    let mut i: usize = 0;
    assert(pairs@.skip(0) =~= pairs@);
    while i < pairs.len()
        invariant
            i <= pairs.len(),
            text_of(pairs@, key@) == text_of(pairs@.skip(i as int), key@),
        decreases pairs.len() - i,
    {
        if same(pairs[i].0.as_str(), key) {
            return Some(pairs[i].1.clone());
        }
        assert(pairs@.skip(i as int).skip(1) =~= pairs@.skip(i + 1));
        i += 1;
    }
    None
}

/// The count kept for a number, 0 where none is kept.
pub open spec fn count_of(pairs: Seq<(u64, u64)>, key: u64) -> u64
    decreases pairs.len(),
{
    if pairs.len() == 0 {
        0
    } else if pairs[0].0 == key {
        pairs[0].1
    } else {
        count_of(pairs.skip(1), key)
    }
}

fn count_for(pairs: &Vec<(u64, u64)>, key: u64) -> (r: u64)
    ensures
        r == count_of(pairs@, key),
{
    let mut i: usize = 0;
    assert(pairs@.skip(0) =~= pairs@);
    while i < pairs.len()
        invariant
            i <= pairs.len(),
            count_of(pairs@, key) == count_of(pairs@.skip(i as int), key),
        decreases pairs.len() - i,
    {
        if pairs[i].0 == key {
            return pairs[i].1;
        }
        assert(pairs@.skip(i as int).skip(1) =~= pairs@.skip(i + 1));
        i += 1;
    }
    0
}

/// What a ticket puts in the inbox of `me`: at most one item. The gates come first, then the
/// hold, then the assignment.
pub open spec fn ticket_item(s: InboxState, me: Seq<char>, p: Powers, t: TicketRow) -> Option<
    InboxItem,
> {
    if texts(s.cost_holds@).contains(t.id@) && (t.status == Status::Pending || t.status
        == Status::Ready) && !texts(s.cost_approved@).contains(t.id@) {
        Some(InboxItem::CostApprove {
            ticket: t.id,
            title: t.title,
            priority: t.priority,
            can_act: p.approve_ready,
        })
    } else if s.gate_ready && t.status == Status::Pending && t.has_technical_design {
        Some(InboxItem::ApproveReady {
            ticket: t.id,
            title: t.title,
            priority: t.priority,
            can_act: p.approve_ready,
        })
    } else if s.gate_verify && t.status == Status::Fixed && texts(s.evidence@).contains(t.id@) {
        Some(InboxItem::Verify { ticket: t.id, title: t.title, can_act: p.verify })
    } else if t.status == Status::OnHold {
        Some(InboxItem::OnHold {
            ticket: t.id,
            title: t.title,
            reason: text_of(s.hold_reasons@, t.id@),
            can_act: p.approve_ready,
        })
    } else if t.assignee is Some && t.assignee->0@ == me {
        Some(InboxItem::Assigned { ticket: t.id, title: t.title, status: t.status })
    } else {
        None
    }
}

pub open spec fn ticket_rule(s: InboxState, me: Seq<char>, p: Powers) -> spec_fn(
    TicketRow,
) -> Option<InboxItem> {
    |t: TicketRow| ticket_item(s, me, p, t)
}

/// Whole minutes, and more than any window where the age is not known.
pub open spec fn age_minutes(age_secs: Option<u64>) -> u64 {
    match age_secs {
        Some(s) => s / 60,
        None => u64::MAX,
    }
}

/// The first ticket with that identifier.
pub open spec fn ticket_of(tickets: Seq<TicketRow>, id: Seq<char>) -> Option<TicketRow>
    decreases tickets.len(),
{
    if tickets.len() == 0 {
        None
    } else if tickets[0].id@ == id {
        Some(tickets[0])
    } else {
        ticket_of(tickets.skip(1), id)
    }
}

fn find_ticket<'a>(tickets: &'a Vec<TicketRow>, id: &str) -> (r: Option<&'a TicketRow>)
    ensures
        (match r {
            Some(t) => Some(*t),
            None => None,
        }) == ticket_of(tickets@, id@),
{
    let mut i: usize = 0;
    assert(tickets@.skip(0) =~= tickets@);
    while i < tickets.len()
        invariant
            i <= tickets.len(),
            ticket_of(tickets@, id@) == ticket_of(tickets@.skip(i as int), id@),
        decreases tickets.len() - i,
    {
        if same(tickets[i].id.as_str(), id) {
            return Some(&tickets[i]);
        }
        assert(tickets@.skip(i as int).skip(1) =~= tickets@.skip(i + 1));
        i += 1;
    }
    None
}

/// What an automatic approval puts in the inbox: an item while its undo window is open.
pub open spec fn auto_item(s: InboxState, p: Powers, a: AutoApproval) -> Option<InboxItem> {
    let age = age_minutes(a.age_secs);
    if age > s.undo_window_minutes {
        None
    } else {
        match ticket_of(s.tickets@, a.ticket@) {
            Some(t) => Some(InboxItem::AutoApproved {
                ticket: a.ticket,
                title: t.title,
                minutes_left: (s.undo_window_minutes - age) as u64,
                can_act: p.approve_ready,
            }),
            None => None,
        }
    }
}

pub open spec fn auto_rule(s: InboxState, p: Powers) -> spec_fn(AutoApproval) -> Option<InboxItem> {
    |a: AutoApproval| auto_item(s, p, a)
}

/// Whether a question is addressed to `me`, by the bare name or with an `@` before it.
pub open spec fn addressed_to(to: Seq<char>, me: Seq<char>) -> bool {
    spec_ascii_lower(to) == spec_ascii_lower(me) || spec_ascii_lower(to) == spec_ascii_lower(
        "@"@ + me,
    )
}

pub open spec fn question_rule(me: Seq<char>) -> spec_fn(Question) -> Option<InboxItem> {
    |q: Question|
        if q.answer@.len() == 0 && addressed_to(q.to@, me) {
            Some(InboxItem::Asked { question: q })
        } else {
            None
        }
}

/// The first known pull request with that number.
pub open spec fn pr_of(prs: Seq<OpenPr>, number: u64) -> Option<OpenPr>
    decreases prs.len(),
{
    if prs.len() == 0 {
        None
    } else if prs[0].number == number {
        Some(prs[0])
    } else {
        pr_of(prs.skip(1), number)
    }
}

fn find_pr(prs: &Vec<OpenPr>, number: u64) -> (r: Option<OpenPr>)
    ensures
        r == pr_of(prs@, number),
{
    let mut i: usize = 0;
    assert(prs@.skip(0) =~= prs@);
    while i < prs.len()
        invariant
            i <= prs.len(),
            pr_of(prs@, number) == pr_of(prs@.skip(i as int), number),
        decreases prs.len() - i,
    {
        if prs[i].number == number {
            return Some(prs[i].copy());
        }
        assert(prs@.skip(i as int).skip(1) =~= prs@.skip(i + 1));
        i += 1;
    }
    None
}

pub open spec fn hold_rule(s: InboxState, p: Powers) -> spec_fn(Hold) -> Option<InboxItem> {
    |h: Hold|
        Some(
            InboxItem::HumanEyes {
                hold: h,
                known_pr: pr_of(s.known_prs@, h.number),
                can_act: p.review,
            },
        )
}

pub open spec fn revert_rule(p: Powers) -> spec_fn(Revert) -> Option<InboxItem> {
    |e: Revert|
        if e.decision == RevertDecision::Pending {
            Some(InboxItem::RevertedWork { revert: e, can_act: p.review })
        } else {
            None
        }
}

/// Whether the pull request is held for human eyes.
pub open spec fn is_held(holds: Seq<Hold>, number: u64) -> bool {
    exists|i: int| 0 <= i < holds.len() && (#[trigger] holds[i]).number == number
}

fn held(holds: &Vec<Hold>, number: u64) -> (b: bool)
    ensures
        b == is_held(holds@, number),
{
    let mut i: usize = 0;
    while i < holds.len()
        invariant
            i <= holds.len(),
            forall|j: int| 0 <= j < i ==> (#[trigger] holds@[j]).number != number,
        decreases holds.len() - i,
    {
        if holds[i].number == number {
            return true;
        }
        i += 1;
    }
    false
}

/// Whether some review approved the pull request.
pub open spec fn is_approved(reviews: Seq<Review>, number: u64) -> bool {
    exists|i: int|
        0 <= i < reviews.len() && (#[trigger] reviews[i]).number == number && reviews[i].decision@
            == "approve"@
}

fn approved(reviews: &Vec<Review>, number: u64) -> (b: bool)
    ensures
        b == is_approved(reviews@, number),
{
    let mut i: usize = 0;
    while i < reviews.len()
        invariant
            i <= reviews.len(),
            forall|j: int|
                0 <= j < i ==> !((#[trigger] reviews@[j]).number == number
                    && reviews@[j].decision@ == "approve"@),
        decreases reviews.len() - i,
    {
        if reviews[i].number == number && same(reviews[i].decision.as_str(), "approve") {
            return true;
        }
        i += 1;
    }
    false
}

/// What an open pull request puts in the inbox. One that was given up on (three fix attempts and
/// a rescue) stays visible until it is gone; one that could land is never silent.
pub open spec fn pr_item(s: InboxState, p: Powers, pr: OpenPr) -> Option<InboxItem> {
    let attempts = count_of(s.fix_attempts@, pr.number);
    if is_held(s.human_holds@, pr.number) {
        None
    } else if is_approved(s.reviews@, pr.number) {
        Some(InboxItem::ReviewPr { pr, held: false, can_act: p.review })
    } else if attempts >= 3 && count_of(s.rescues@, pr.number) >= 1 {
        Some(InboxItem::PrStuck { pr, attempts, can_act: p.review })
    } else if pr.mergeable {
        Some(InboxItem::ReviewPr { pr, held: true, can_act: p.review })
    } else {
        None
    }
}

pub open spec fn pr_rule(s: InboxState, p: Powers) -> spec_fn(OpenPr) -> Option<InboxItem> {
    |pr: OpenPr| pr_item(s, p, pr)
}

/// Everything that waits on `me`, kind after kind. `prs` are the open pull requests where the
/// forge could tell.
pub open spec fn inbox(
    s: InboxState,
    me: Seq<char>,
    p: Powers,
    prs: Option<Vec<OpenPr>>,
) -> Seq<InboxItem> {
    collect(s.tickets@, ticket_rule(s, me, p)) + collect(s.auto_approved@, auto_rule(s, p))
        + collect(s.questions@, question_rule(me)) + collect(s.human_holds@, hold_rule(s, p))
        + collect(s.reverts@, revert_rule(p)) + match prs {
        Some(v) => collect(v@, pr_rule(s, p)),
        None => Seq::empty(),
    }
}

fn ticket_entry(s: &InboxState, me: &str, p: Powers, t: &TicketRow) -> (r: Option<InboxItem>)
    ensures
        r == ticket_item(*s, me@, p, *t),
{
    let id = t.id.as_str();
    if has_text(&s.cost_holds, id) && (t.status == Status::Pending || t.status == Status::Ready)
        && !has_text(&s.cost_approved, id) {
        return Some(
            InboxItem::CostApprove {
                ticket: t.id.clone(),
                title: t.title.clone(),
                priority: t.priority,
                can_act: p.approve_ready,
            },
        );
    }
    if s.gate_ready && t.status == Status::Pending && t.has_technical_design {
        return Some(
            InboxItem::ApproveReady {
                ticket: t.id.clone(),
                title: t.title.clone(),
                priority: t.priority,
                can_act: p.approve_ready,
            },
        );
    }
    if s.gate_verify && t.status == Status::Fixed && has_text(&s.evidence, id) {
        return Some(
            InboxItem::Verify { ticket: t.id.clone(), title: t.title.clone(), can_act: p.verify },
        );
    }
    if t.status == Status::OnHold {
        return Some(
            InboxItem::OnHold {
                ticket: t.id.clone(),
                title: t.title.clone(),
                reason: text_for(&s.hold_reasons, id),
                can_act: p.approve_ready,
            },
        );
    }
    match &t.assignee {
        Some(who) => if same(who.as_str(), me) {
            Some(
                InboxItem::Assigned {
                    ticket: t.id.clone(),
                    title: t.title.clone(),
                    status: t.status,
                },
            )
        } else {
            None
        },
        None => None,
    }
}

fn ticket_entries(s: &InboxState, me: &str, p: Powers) -> (r: Vec<InboxItem>)
    ensures
        r@ == collect(s.tickets@, ticket_rule(*s, me@, p)),
{
    let mut r: Vec<InboxItem> = Vec::new();
    let ghost f = ticket_rule(*s, me@, p);
    let mut i: usize = 0;
    assert(s.tickets@.take(0) =~= Seq::empty());
    while i < s.tickets.len()
        invariant
            i <= s.tickets.len(),
            f == ticket_rule(*s, me@, p),
            r@ == collect(s.tickets@.take(i as int), f),
        decreases s.tickets.len() - i,
    {
        proof {
            collect_step(s.tickets@, f, i as int);
        }
        if let Some(item) = ticket_entry(s, me, p, &s.tickets[i]) {
            r.push(item);
        }
        i += 1;
    }
    assert(s.tickets@.take(s.tickets@.len() as int) =~= s.tickets@);
    r
}

fn auto_entries(s: &InboxState, p: Powers) -> (r: Vec<InboxItem>)
    ensures
        r@ == collect(s.auto_approved@, auto_rule(*s, p)),
{
    let mut r: Vec<InboxItem> = Vec::new();
    let ghost f = auto_rule(*s, p);
    let mut i: usize = 0;
    assert(s.auto_approved@.take(0) =~= Seq::empty());
    while i < s.auto_approved.len()
        invariant
            i <= s.auto_approved.len(),
            f == auto_rule(*s, p),
            r@ == collect(s.auto_approved@.take(i as int), f),
        decreases s.auto_approved.len() - i,
    {
        let a = &s.auto_approved[i];
        proof {
            collect_step(s.auto_approved@, f, i as int);
        }
        let age: u64 = match a.age_secs {
            Some(secs) => secs / 60,
            None => u64::MAX,
        };
        if age <= s.undo_window_minutes {
            if let Some(t) = find_ticket(&s.tickets, a.ticket.as_str()) {
                r.push(
                    InboxItem::AutoApproved {
                        ticket: a.ticket.clone(),
                        title: t.title.clone(),
                        minutes_left: s.undo_window_minutes - age,
                        can_act: p.approve_ready,
                    },
                );
            }
        }
        i += 1;
    }
    assert(s.auto_approved@.take(s.auto_approved@.len() as int) =~= s.auto_approved@);
    r
}

fn question_entries(s: &InboxState, me: &str) -> (r: Vec<InboxItem>)
    ensures
        r@ == collect(s.questions@, question_rule(me@)),
{
    let mut r: Vec<InboxItem> = Vec::new();
    let ghost f = question_rule(me@);
    let bare = ascii_lower(me);
    let at_me = join2("@", me);
    let at = ascii_lower(at_me.as_str());
    let mut i: usize = 0;
    assert(s.questions@.take(0) =~= Seq::empty());
    while i < s.questions.len()
        invariant
            i <= s.questions.len(),
            f == question_rule(me@),
            bare@ == spec_ascii_lower(me@),
            at@ == spec_ascii_lower("@"@ + me@),
            r@ == collect(s.questions@.take(i as int), f),
        decreases s.questions.len() - i,
    {
        let q = &s.questions[i];
        proof {
            collect_step(s.questions@, f, i as int);
        }
        let to = ascii_lower(q.to.as_str());
        if q.answer.as_str().is_empty() && (to == bare || to == at) {
            r.push(InboxItem::Asked { question: q.copy() });
        }
        i += 1;
    }
    assert(s.questions@.take(s.questions@.len() as int) =~= s.questions@);
    r
}

fn hold_entries(s: &InboxState, p: Powers) -> (r: Vec<InboxItem>)
    ensures
        r@ == collect(s.human_holds@, hold_rule(*s, p)),
{
    let mut r: Vec<InboxItem> = Vec::new();
    let ghost f = hold_rule(*s, p);
    let mut i: usize = 0;
    assert(s.human_holds@.take(0) =~= Seq::empty());
    while i < s.human_holds.len()
        invariant
            i <= s.human_holds.len(),
            f == hold_rule(*s, p),
            r@ == collect(s.human_holds@.take(i as int), f),
        decreases s.human_holds.len() - i,
    {
        let h = &s.human_holds[i];
        proof {
            collect_step(s.human_holds@, f, i as int);
        }
        r.push(
            InboxItem::HumanEyes {
                hold: h.copy(),
                known_pr: find_pr(&s.known_prs, h.number),
                can_act: p.review,
            },
        );
        i += 1;
    }
    assert(s.human_holds@.take(s.human_holds@.len() as int) =~= s.human_holds@);
    r
}

fn revert_entries(s: &InboxState, p: Powers) -> (r: Vec<InboxItem>)
    ensures
        r@ == collect(s.reverts@, revert_rule(p)),
{
    let mut r: Vec<InboxItem> = Vec::new();
    let ghost f = revert_rule(p);
    let mut i: usize = 0;
    assert(s.reverts@.take(0) =~= Seq::empty());
    while i < s.reverts.len()
        invariant
            i <= s.reverts.len(),
            f == revert_rule(p),
            r@ == collect(s.reverts@.take(i as int), f),
        decreases s.reverts.len() - i,
    {
        let e = &s.reverts[i];
        proof {
            collect_step(s.reverts@, f, i as int);
        }
        if e.decision == RevertDecision::Pending {
            r.push(InboxItem::RevertedWork { revert: e.copy(), can_act: p.review });
        }
        i += 1;
    }
    assert(s.reverts@.take(s.reverts@.len() as int) =~= s.reverts@);
    r
}

fn pr_entries(s: &InboxState, p: Powers, prs: &Vec<OpenPr>) -> (r: Vec<InboxItem>)
    ensures
        r@ == collect(prs@, pr_rule(*s, p)),
{
    let mut r: Vec<InboxItem> = Vec::new();
    let ghost f = pr_rule(*s, p);
    let mut i: usize = 0;
    assert(prs@.take(0) =~= Seq::empty());
    while i < prs.len()
        invariant
            i <= prs.len(),
            f == pr_rule(*s, p),
            r@ == collect(prs@.take(i as int), f),
        decreases prs.len() - i,
    {
        let pr = &prs[i];
        proof {
            collect_step(prs@, f, i as int);
        }
        if !held(&s.human_holds, pr.number) {
            let attempts: u64 = count_for(&s.fix_attempts, pr.number);
            if approved(&s.reviews, pr.number) {
                r.push(InboxItem::ReviewPr { pr: pr.copy(), held: false, can_act: p.review });
            } else if attempts >= 3 && count_for(&s.rescues, pr.number) >= 1 {
                r.push(InboxItem::PrStuck { pr: pr.copy(), attempts, can_act: p.review });
            } else if pr.mergeable {
                r.push(InboxItem::ReviewPr { pr: pr.copy(), held: true, can_act: p.review });
            }
        }
        i += 1;
    }
    assert(prs@.take(prs@.len() as int) =~= prs@);
    r
}

/// The caller's queue of things that wait for them.
pub fn inbox_items(s: &InboxState, me: &str, p: Powers, prs: &Option<Vec<OpenPr>>) -> (r: Vec<
    InboxItem,
>)
    ensures
        r@ == inbox(*s, me@, p, *prs),
{
    let mut r = ticket_entries(s, me, p);
    let mut autos = auto_entries(s, p);
    r.append(&mut autos);
    let mut questions = question_entries(s, me);
    r.append(&mut questions);
    let mut holds = hold_entries(s, p);
    r.append(&mut holds);
    let mut reverts = revert_entries(s, p);
    r.append(&mut reverts);
    match prs {
        Some(v) => {
            let mut entries = pr_entries(s, p, v);
            r.append(&mut entries);
        },
        None => {
            assert(r@ + Seq::<InboxItem>::empty() =~= r@);
        },
    }
    r
}

/// An item without the mark of who may act on it.
pub open spec fn unmarked(item: InboxItem) -> InboxItem {
    match item {
        InboxItem::CostApprove { ticket, title, priority, can_act } => InboxItem::CostApprove {
            ticket,
            title,
            priority,
            can_act: false,
        },
        InboxItem::ApproveReady { ticket, title, priority, can_act } => InboxItem::ApproveReady {
            ticket,
            title,
            priority,
            can_act: false,
        },
        InboxItem::Verify { ticket, title, can_act } => InboxItem::Verify {
            ticket,
            title,
            can_act: false,
        },
        InboxItem::OnHold { ticket, title, reason, can_act } => InboxItem::OnHold {
            ticket,
            title,
            reason,
            can_act: false,
        },
        InboxItem::Assigned { ticket, title, status } => item,
        InboxItem::AutoApproved { ticket, title, minutes_left, can_act } => InboxItem::AutoApproved {
            ticket,
            title,
            minutes_left,
            can_act: false,
        },
        InboxItem::Asked { question } => item,
        InboxItem::HumanEyes { hold, known_pr, can_act } => InboxItem::HumanEyes {
            hold,
            known_pr,
            can_act: false,
        },
        InboxItem::RevertedWork { revert, can_act } => InboxItem::RevertedWork {
            revert,
            can_act: false,
        },
        InboxItem::ReviewPr { pr, held, can_act } => InboxItem::ReviewPr {
            pr,
            held,
            can_act: false,
        },
        InboxItem::PrStuck { pr, attempts, can_act } => InboxItem::PrStuck {
            pr,
            attempts,
            can_act: false,
        },
    }
}

/// The whole team sees the same queue: a role decides who may act on an item, never whether it
/// is shown.
pub proof fn every_role_sees_the_same_queue(
    s: InboxState,
    me: Seq<char>,
    p: Powers,
    q: Powers,
    prs: Option<Vec<OpenPr>>,
)
    ensures
        inbox(s, me, p, prs).map_values(|i: InboxItem| unmarked(i)) == inbox(
            s,
            me,
            q,
            prs,
        ).map_values(|i: InboxItem| unmarked(i)),
{
    let g = |i: InboxItem| unmarked(i);
    collect_alike(s.tickets@, ticket_rule(s, me, p), ticket_rule(s, me, q), g);
    collect_alike(s.auto_approved@, auto_rule(s, p), auto_rule(s, q), g);
    collect_alike(s.human_holds@, hold_rule(s, p), hold_rule(s, q), g);
    collect_alike(s.reverts@, revert_rule(p), revert_rule(q), g);
    let last_p = match prs {
        Some(v) => collect(v@, pr_rule(s, p)),
        None => Seq::empty(),
    };
    let last_q = match prs {
        Some(v) => collect(v@, pr_rule(s, q)),
        None => Seq::empty(),
    };
    if prs is Some {
        collect_alike(prs->0@, pr_rule(s, p), pr_rule(s, q), g);
    }
    assert(last_p.map_values(g) == last_q.map_values(g));
    let a1 = collect(s.tickets@, ticket_rule(s, me, p));
    let a2 = collect(s.auto_approved@, auto_rule(s, p));
    let a3 = collect(s.questions@, question_rule(me));
    let a4 = collect(s.human_holds@, hold_rule(s, p));
    let a5 = collect(s.reverts@, revert_rule(p));
    let b1 = collect(s.tickets@, ticket_rule(s, me, q));
    let b2 = collect(s.auto_approved@, auto_rule(s, q));
    let b4 = collect(s.human_holds@, hold_rule(s, q));
    let b5 = collect(s.reverts@, revert_rule(q));
    assert((a1 + a2 + a3 + a4 + a5 + last_p).map_values(g) =~= a1.map_values(g) + a2.map_values(g)
        + a3.map_values(g) + a4.map_values(g) + a5.map_values(g) + last_p.map_values(g));
    assert((b1 + b2 + a3 + b4 + b5 + last_q).map_values(g) =~= b1.map_values(g) + b2.map_values(g)
        + a3.map_values(g) + b4.map_values(g) + b5.map_values(g) + last_q.map_values(g));
}

/// Who has no power of decision acts only on what is addressed to them: what was assigned to
/// them and what they were asked.
pub proof fn only_the_right_role_acts(
    s: InboxState,
    me: Seq<char>,
    p: Powers,
    prs: Option<Vec<OpenPr>>,
    k: int,
)
    requires
        !p.approve_ready && !p.verify && !p.review,
        0 <= k < inbox(s, me, p, prs).len(),
    ensures
        inbox(s, me, p, prs)[k].spec_can_act() ==> inbox(s, me, p, prs)[k] is Assigned
            || inbox(s, me, p, prs)[k] is Asked,
{
    let a1 = collect(s.tickets@, ticket_rule(s, me, p));
    let a2 = collect(s.auto_approved@, auto_rule(s, p));
    let a3 = collect(s.questions@, question_rule(me));
    let a4 = collect(s.human_holds@, hold_rule(s, p));
    let a5 = collect(s.reverts@, revert_rule(p));
    let n1 = a1.len() as int;
    let n2 = n1 + a2.len();
    let n3 = n2 + a3.len();
    let n4 = n3 + a4.len();
    let n5 = n4 + a5.len();
    if k < n1 {
        collected_has_source(s.tickets@, ticket_rule(s, me, p), k);
    } else if k < n2 {
        collected_has_source(s.auto_approved@, auto_rule(s, p), k - n1);
    } else if k < n3 {
        collected_has_source(s.questions@, question_rule(me), k - n2);
    } else if k < n4 {
        collected_has_source(s.human_holds@, hold_rule(s, p), k - n3);
    } else if k < n5 {
        collected_has_source(s.reverts@, revert_rule(p), k - n4);
    } else {
        collected_has_source(prs->0@, pr_rule(s, p), k - n5);
    }
}

/// Why a review effort is counted.
#[derive(Clone, Copy, Debug, PartialEq, Eq, Structural)]
pub enum InterventionKind {
    HumanPrReviewed,
    HumanPrDismissed,
    VerifyPass,
    VerifySendBack,
    ReadyApprove,
    UndoAutoApprove,
}

/// What a person decided.
#[derive(Clone, Copy, Debug, PartialEq, Eq, Structural)]
pub enum Verdict {
    Approve,
    Dismiss,
}

/// The refusal of a caller whose role does not reach.
pub open spec fn role_refused(e: Refusal) -> bool {
    e.is(403, "your role may not take this decision"@, false)
}

fn role_refusal() -> (e: Refusal)
    ensures
        role_refused(e),
{
    plain(403, "your role may not take this decision")
}

/// Who takes a gate decision. A hub without accounts has no gate: everyone is the operator.
/// Elsewhere it is the signed-in user, where their role is allowed to.
pub fn gate_principal(accounts: bool, user: &Option<String>, allowed: bool) -> (r: Option<String>)
    ensures
        match r {
            Some(who) => if accounts {
                allowed && user is Some && who == user->0
            } else {
                who@ == "operator"@
            },
            None => accounts && (user is None || !allowed),
        },
{
    if !accounts {
        return Some(owned("operator"));
    }
    match user {
        Some(who) => if allowed {
            Some(who.clone())
        } else {
            None
        },
        None => None,
    }
}

pub open spec fn spec_verdict(action: Seq<char>) -> Option<Verdict> {
    if action == "approve"@ {
        Some(Verdict::Approve)
    } else if action == "dismiss"@ {
        Some(Verdict::Dismiss)
    } else {
        None
    }
}

/// The verdict that an action names.
pub fn verdict_of(action: &str) -> (r: Result<Verdict, Refusal>)
    ensures
        match r {
            Ok(v) => spec_verdict(action@) == Some(v),
            Err(e) => spec_verdict(action@) is None && e.is(
                400,
                "action must be approve or dismiss, got "@ + action@,
                false,
            ),
        },
{
    if same(action, "approve") {
        Ok(Verdict::Approve)
    } else if same(action, "dismiss") {
        Ok(Verdict::Dismiss)
    } else {
        let text = join2("action must be approve or dismiss, got ", action);
        Err(plain(400, text.as_str()))
    }
}

/// Admits a decision on a held pull request. An approval is landed through the forge, so it
/// needs one.
pub fn human_pr_admit(me: &Option<String>, action: &str, has_forge: bool) -> (r: Result<
    Verdict,
    Refusal,
>)
    ensures
        match r {
            Ok(v) => me is Some && spec_verdict(action@) == Some(v) && (v == Verdict::Approve
                ==> has_forge),
            Err(e) => if me is None {
                role_refused(e)
            } else if spec_verdict(action@) is None {
                e.is(400, "action must be approve or dismiss, got "@ + action@, false)
            } else {
                spec_verdict(action@) == Some(Verdict::Approve) && !has_forge && e.is(
                    409,
                    "this hub has no forge access — merge it on the forge directly"@,
                    false,
                )
            },
        },
{
    if me.is_none() {
        return Err(role_refusal());
    }
    match verdict_of(action) {
        Err(e) => Err(e),
        Ok(v) => if v == Verdict::Approve && !has_forge {
            Err(plain(409, "this hub has no forge access — merge it on the forge directly"))
        } else {
            Ok(v)
        },
    }
}

/// The answer when the forge could not land the pull request.
pub fn merge_failed(error: &str) -> (e: Refusal)
    ensures
        e.is(502, "merge failed: "@ + error@, false),
{
    let text = join2("merge failed: ", error);
    plain(502, text.as_str())
}

/// What a settled decision leaves behind.
#[derive(Clone, Debug)]
pub struct Settled {
    pub intervention: Option<InterventionKind>,
    pub activity: Note,
    pub comment: Note,
}

pub open spec fn keep_rule(number: u64) -> spec_fn(Hold) -> Option<Hold> {
    |h: Hold|
        if h.number != number {
            Some(h)
        } else {
            None
        }
}

/// The holds without that pull request.
pub open spec fn without(holds: Seq<Hold>, number: u64) -> Seq<Hold> {
    collect(holds, keep_rule(number))
}

fn clear_hold(holds: &mut Vec<Hold>, number: u64) -> (removed: bool)
    ensures
        removed == is_held(old(holds)@, number),
        final(holds)@ == without(old(holds)@, number),
{
    let removed = held(holds, number);
    let mut kept: Vec<Hold> = Vec::new();
    let ghost f = keep_rule(number);
    let mut i: usize = 0;
    assert(holds@.take(0) =~= Seq::empty());
    while i < holds.len()
        invariant
            i <= holds.len(),
            f == keep_rule(number),
            kept@ == collect(holds@.take(i as int), f),
        decreases holds.len() - i,
    {
        proof {
            collect_step(holds@, f, i as int);
        }
        if holds[i].number != number {
            kept.push(holds[i].copy());
        }
        i += 1;
    }
    assert(holds@.take(holds@.len() as int) =~= holds@);
    *holds = kept;
    removed
}

pub open spec fn verdict_verb(v: Verdict) -> Seq<char> {
    match v {
        Verdict::Approve => "landed"@,
        Verdict::Dismiss => "dismissed the hold on"@,
    }
}

/// Settles a decision on a held pull request: the hold goes. Review effort is counted only
/// where there was a hold to clear, so of two people who decide at once one counts.
pub fn human_pr_settle(holds: &mut Vec<Hold>, v: Verdict, me: &str, number: u64) -> (r: Settled)
    ensures
        final(holds)@ == without(old(holds)@, number),
        r.intervention == (if is_held(old(holds)@, number) {
            Some(
                match v {
                    Verdict::Approve => InterventionKind::HumanPrReviewed,
                    Verdict::Dismiss => InterventionKind::HumanPrDismissed,
                },
            )
        } else {
            None
        }),
        r.activity.is(
            "USER"@,
            me@ + " "@ + verdict_verb(v) + " PR #"@ + spec_decimal(number as nat),
            None,
        ),
        r.comment.is(
            me@,
            "🧑‍⚖️ @"@ + me@ + " "@ + verdict_verb(v) + " PR #"@ + spec_decimal(
                number as nat,
            ) + " (held for human eyes)."@,
            None,
        ),
{
    let removed = clear_hold(holds, number);
    let verb = match v {
        Verdict::Approve => "landed",
        Verdict::Dismiss => "dismissed the hold on",
    };
    let n = decimal(number);
    let mut said = owned(me);
    said.append(" ");
    said.append(verb);
    said.append(" PR #");
    said.append(n.as_str());
    let mut long = owned("🧑‍⚖️ @");
    long.append(me);
    long.append(" ");
    long.append(verb);
    long.append(" PR #");
    long.append(n.as_str());
    long.append(" (held for human eyes).");
    Settled {
        intervention: if removed {
            Some(
                match v {
                    Verdict::Approve => InterventionKind::HumanPrReviewed,
                    Verdict::Dismiss => InterventionKind::HumanPrDismissed,
                },
            )
        } else {
            None
        },
        activity: note("USER", said.as_str()),
        comment: note(me, long.as_str()),
    }
}

/// Once a hold is settled it is gone: deciding the same pull request again counts no effort.
pub proof fn a_settled_hold_is_gone(holds: Seq<Hold>, number: u64)
    ensures
        !is_held(without(holds, number), number),
    decreases holds.len(),
{
    if holds.len() > 0 {
        a_settled_hold_is_gone(holds.drop_last(), number);
    }
}

/// Settling one pull request leaves the holds of the others in place.
pub proof fn settling_keeps_other_holds(holds: Seq<Hold>, number: u64, other: u64)
    requires
        other != number,
    ensures
        is_held(without(holds, number), other) == is_held(holds, other),
    decreases holds.len(),
{
    if holds.len() > 0 {
        let init = holds.drop_last();
        settling_keeps_other_holds(init, number, other);
        let w = without(holds, number);
        let wi = without(init, number);
        if is_held(init, other) {
            let i = choose|i: int| 0 <= i < init.len() && (#[trigger] init[i]).number == other;
            assert(holds[i].number == other);
            let k = choose|k: int| 0 <= k < wi.len() && (#[trigger] wi[k]).number == other;
            assert(w[k].number == other);
        } else if holds.last().number == other {
            assert(holds[holds.len() - 1].number == other);
            assert(w[w.len() - 1].number == other);
        } else {
            assert forall|k: int| 0 <= k < w.len() implies (#[trigger] w[k]).number != other by {
                if k < wi.len() {
                    assert(wi[k].number != other);
                }
            }
            assert forall|i: int| 0 <= i < holds.len() implies (#[trigger] holds[i]).number
                != other by {
                if i < init.len() {
                    assert(init[i].number != other);
                }
            }
        }
    }
}

/// The position of the first pending event with that commit.
pub open spec fn pending_revert(reverts: Seq<Revert>, sha: Seq<char>, i: int) -> Option<int>
    decreases reverts.len() - i,
{
    if i < 0 || i >= reverts.len() {
        None
    } else if reverts[i].sha@ == sha && reverts[i].decision == RevertDecision::Pending {
        Some(i)
    } else {
        pending_revert(reverts, sha, i + 1)
    }
}

/// The ticket of the first event with that commit.
pub open spec fn revert_ticket(reverts: Seq<Revert>, sha: Seq<char>) -> Seq<char>
    decreases reverts.len(),
{
    if reverts.len() == 0 {
        Seq::empty()
    } else if reverts[0].sha@ == sha {
        reverts[0].ticket@
    } else {
        revert_ticket(reverts.skip(1), sha)
    }
}

fn ticket_of_revert(reverts: &Vec<Revert>, sha: &str) -> (r: String)
    ensures
        r@ == revert_ticket(reverts@, sha@),
{
    let mut i: usize = 0;
    assert(reverts@.skip(0) =~= reverts@);
    while i < reverts.len()
        invariant
            i <= reverts.len(),
            revert_ticket(reverts@, sha@) == revert_ticket(reverts@.skip(i as int), sha@),
        decreases reverts.len() - i,
    {
        if same(reverts[i].sha.as_str(), sha) {
            return reverts[i].ticket.clone();
        }
        assert(reverts@.skip(i as int).skip(1) =~= reverts@.skip(i + 1));
        i += 1;
    }
    String::new()
}

pub open spec fn revert_verb(v: Verdict) -> Seq<char> {
    match v {
        Verdict::Approve => "approved"@,
        Verdict::Dismiss => "dismissed"@,
    }
}

/// Records the verdict on an undone piece of work and returns the line for the activity log.
/// A decided event is final: only a pending one changes.
#[verifier::loop_isolation(false)]
pub fn revert_decision(
    reverts: &mut Vec<Revert>,
    me: &Option<String>,
    action: &str,
    sha: &str,
) -> (r: Result<Note, Refusal>)
    ensures
        match r {
            Ok(activity) => me is Some && spec_trim(sha@).len() > 0 && spec_verdict(action@) is Some
                && pending_revert(old(reverts)@, spec_trim(sha@), 0) is Some && {
                let i = pending_revert(old(reverts)@, spec_trim(sha@), 0)->0;
                let ticket = revert_ticket(old(reverts)@, spec_trim(sha@));
                &&& activity.is(
                    "USER"@,
                    me->0@ + " "@ + revert_verb(spec_verdict(action@)->0) + " reverted work "@
                        + ticket,
                    Some(ticket),
                )
                &&& final(reverts)@ == old(reverts)@.update(
                    i,
                    Revert {
                        decision: match spec_verdict(action@)->0 {
                            Verdict::Approve => RevertDecision::Approved,
                            Verdict::Dismiss => RevertDecision::Dismissed,
                        },
                        ..old(reverts)@[i]
                    },
                )
            },
            Err(e) => final(reverts)@ == old(reverts)@ && if me is None {
                role_refused(e)
            } else if spec_verdict(action@) is None {
                e.is(400, "action must be approve or dismiss, got "@ + action@, false)
            } else if spec_trim(sha@).len() == 0 {
                e.is(400, "missing sha"@, false)
            } else {
                pending_revert(old(reverts)@, spec_trim(sha@), 0) is None && e.is(
                    409,
                    "no pending revert with that sha"@,
                    false,
                )
            },
        },
{
    let who = match me {
        None => {
            return Err(role_refusal());
        },
        Some(who) => who,
    };
    let (decision, verb) = match verdict_of(action) {
        Err(e) => {
            return Err(e);
        },
        Ok(Verdict::Approve) => (RevertDecision::Approved, "approved"),
        Ok(Verdict::Dismiss) => (RevertDecision::Dismissed, "dismissed"),
    };
    let commit = trim(sha);
    if commit.as_str().is_empty() {
        return Err(plain(400, "missing sha"));
    }
    let mut i: usize = 0;
    while i < reverts.len()
        invariant
            i <= reverts.len(),
            reverts@ == old(reverts)@,
            pending_revert(reverts@, commit@, 0) == pending_revert(reverts@, commit@, i as int),
        decreases reverts.len() - i,
    {
        if reverts[i].sha == commit && reverts[i].decision == RevertDecision::Pending {
            let ticket = ticket_of_revert(reverts, commit.as_str());
            let mut e = reverts[i].copy();
            e.decision = decision;
            reverts.set(i, e);
            let mut said = owned(who.as_str());
            said.append(" ");
            said.append(verb);
            said.append(" reverted work ");
            said.append(ticket.as_str());
            return Ok(note_on("USER", said.as_str(), ticket.as_str()));
        }
        i += 1;
    }
    Err(plain(409, "no pending revert with that sha"))
}

proof fn pending_revert_is_pending(reverts: Seq<Revert>, sha: Seq<char>, i: int)
    requires
        0 <= i,
        pending_revert(reverts, sha, i) is Some,
    ensures
        i <= pending_revert(reverts, sha, i)->0 < reverts.len(),
        reverts[pending_revert(reverts, sha, i)->0].sha@ == sha,
        reverts[pending_revert(reverts, sha, i)->0].decision == RevertDecision::Pending,
    decreases reverts.len() - i,
{
    if !(reverts[i].sha@ == sha && reverts[i].decision == RevertDecision::Pending) {
        pending_revert_is_pending(reverts, sha, i + 1);
    }
}

/// A decision that was taken never changes: whatever verdict is recorded later, the events that
/// were decided keep theirs.
pub proof fn a_decided_revert_is_final(
    reverts: Seq<Revert>,
    sha: Seq<char>,
    decision: RevertDecision,
    k: int,
)
    requires
        pending_revert(reverts, sha, 0) is Some,
        0 <= k < reverts.len(),
        reverts[k].decision != RevertDecision::Pending,
    ensures
        reverts.update(
            pending_revert(reverts, sha, 0)->0,
            Revert { decision, ..reverts[pending_revert(reverts, sha, 0)->0] },
        )[k] == reverts[k],
{
    pending_revert_is_pending(reverts, sha, 0);
}

/// How the board answered a request to move a ticket.
#[derive(Clone, Debug)]
pub enum Moved {
    NoSuchTicket,
    NotAllowed(String),
    Done,
}

/// What the adaptive gate learns from a decision.
#[derive(Clone, Debug)]
pub struct Sample {
    pub shape: String,
    pub decision: String,
    pub by: String,
    pub reason: String,
}

/// What an approved transition leaves behind.
#[derive(Clone, Debug)]
pub struct TransitionPlan {
    pub record_verified_outcome: bool,
    pub intervention: Option<InterventionKind>,
    pub sample: Sample,
    pub activity: Note,
    pub comment: Note,
}

/// The refusals that a move shares: the role, the load, the ticket, the move itself.
pub open spec fn move_refused(me: Option<String>, loaded: bool, moved: Moved, e: Refusal) -> bool {
    if me is None {
        role_refused(e)
    } else if !loaded {
        e.is(500, "load failed"@, true)
    } else {
        match moved {
            Moved::NoSuchTicket => e.is(404, "no such ticket"@, false),
            Moved::NotAllowed(why) => e.is(409, why@, false),
            Moved::Done => false,
        }
    }
}

fn admit_move(me: &Option<String>, loaded: bool, moved: &Moved) -> (r: Result<String, Refusal>)
    ensures
        match r {
            Ok(who) => me is Some && who == me->0 && loaded && moved is Done,
            Err(e) => move_refused(*me, loaded, *moved, e),
        },
{
    match me {
        None => Err(role_refusal()),
        Some(who) => if !loaded {
            Err(internal_error("load failed"))
        } else {
            match moved {
                Moved::NoSuchTicket => Err(plain(404, "no such ticket")),
                Moved::NotAllowed(why) => Err(plain(409, why.as_str())),
                Moved::Done => Ok(who.clone()),
            }
        },
    }
}

pub open spec fn transition_intervention(to: Status) -> Option<InterventionKind> {
    match to {
        Status::Verified => Some(InterventionKind::VerifyPass),
        Status::Ready => Some(InterventionKind::ReadyApprove),
        _ => None,
    }
}

/// A person moves a ticket to `to`. Only a `Verified` verdict records an outcome, and the effort
/// is counted by where the ticket went. What a person decided is no automatic approval any more.
pub fn human_transition(
    auto_approved: &mut Vec<String>,
    me: &Option<String>,
    loaded: bool,
    moved: &Moved,
    id: &str,
    to: Status,
    shape: &str,
) -> (r: Result<TransitionPlan, Refusal>)
    ensures
        match r {
            Ok(p) => {
                &&& me is Some && loaded && moved is Done
                &&& p.record_verified_outcome == (to == Status::Verified)
                &&& p.intervention == transition_intervention(to)
                &&& p.sample.shape@ == shape@ && p.sample.decision@ == "approve"@ && p.sample.by@
                    == me->0@ && p.sample.reason@ == ""@
                &&& p.activity.is(
                    "USER"@,
                    me->0@ + " moved ticket to "@ + to.spec_label(),
                    Some(id@),
                )
                &&& p.comment.is(
                    "USER"@,
                    "🧑‍⚖️ @"@ + me->0@ + " approved "@ + id@ + " → "@ + to.spec_label() + "."@,
                    Some(id@),
                )
                &&& final(auto_approved)@ == without_text(old(auto_approved)@, id@)
            },
            Err(e) => move_refused(*me, loaded, *moved, e) && final(auto_approved)@ == old(
                auto_approved,
            )@,
        },
{
    let who = match admit_move(me, loaded, moved) {
        Ok(who) => who,
        Err(e) => {
            return Err(e);
        },
    };
    drop_text(auto_approved, id);
    let label = to.label();
    let mut said = owned(who.as_str());
    said.append(" moved ticket to ");
    said.append(label);
    let mut long = owned("🧑‍⚖️ @");
    long.append(who.as_str());
    long.append(" approved ");
    long.append(id);
    long.append(" → ");
    long.append(label);
    long.append(".");
    Ok(
        TransitionPlan {
            record_verified_outcome: to == Status::Verified,
            intervention: match to {
                Status::Verified => Some(InterventionKind::VerifyPass),
                Status::Ready => Some(InterventionKind::ReadyApprove),
                _ => None,
            },
            sample: Sample {
                shape: owned(shape),
                decision: owned("approve"),
                by: who,
                reason: owned(""),
            },
            activity: note_on("USER", said.as_str(), id),
            comment: note_on("USER", long.as_str(), id),
        },
    )
}

pub open spec fn send_back_text(id: Seq<char>, me: Seq<char>, reason: Seq<char>) -> Seq<char> {
    if spec_trim(reason).len() == 0 {
        "↩️ "@ + id + " sent back by @"@ + me + ": the fix is not demonstrated."@
    } else {
        "↩️ "@ + id + " sent back by @"@ + me + ": "@ + spec_trim(reason)
    }
}

/// A person sends a fix back to work. The reason travels with it as a comment.
pub fn send_back(me: &Option<String>, loaded: bool, moved: &Moved, id: &str, reason: &str) -> (r:
    Result<Settled, Refusal>)
    ensures
        match r {
            Ok(s) => {
                &&& me is Some && loaded && moved is Done
                &&& s.intervention == Some(InterventionKind::VerifySendBack)
                &&& s.activity.is("USER"@, "verification refused"@, Some(id@))
                &&& s.comment.is(me->0@, send_back_text(id@, me->0@, reason@), Some(id@))
            },
            Err(e) => move_refused(*me, loaded, *moved, e),
        },
{
    let who = match admit_move(me, loaded, moved) {
        Ok(who) => who,
        Err(e) => {
            return Err(e);
        },
    };
    let reason = trim(reason);
    let mut text = owned("↩️ ");
    text.append(id);
    text.append(" sent back by @");
    text.append(who.as_str());
    if reason.as_str().is_empty() {
        text.append(": the fix is not demonstrated.");
    } else {
        text.append(": ");
        text.append(reason.as_str());
    }
    Ok(
        Settled {
            intervention: Some(InterventionKind::VerifySendBack),
            activity: note_on("USER", "verification refused", id),
            comment: note_on(who.as_str(), text.as_str(), id),
        },
    )
}

/// What is said of an assignment: a blank name hands the ticket back to the agents.
pub open spec fn assignment_text(id: Seq<char>, username: Seq<char>) -> Seq<char> {
    if spec_trim(username).len() == 0 {
        "↩️ "@ + id + " returned to the agent pool."@
    } else {
        "🧑‍💻 "@ + id + " assigned to @"@ + spec_trim(username) + "."@
    }
}

/// The comment that an assignment leaves.
pub fn assignment_note(id: &str, username: &str) -> (n: Note)
    ensures
        n.is("USER"@, assignment_text(id@, username@), Some(id@)),
{
    let who = trim(username);
    if who.as_str().is_empty() {
        let mut text = owned("↩️ ");
        text.append(id);
        text.append(" returned to the agent pool.");
        note_on("USER", text.as_str(), id)
    } else {
        let mut text = owned("🧑‍💻 ");
        text.append(id);
        text.append(" assigned to @");
        text.append(who.as_str());
        text.append(".");
        note_on("USER", text.as_str(), id)
    }
}

/// Routes a ticket to a person: what it leaves in the activity log and as a comment, or that
/// there is no such ticket.
pub fn assign_ticket(loaded: bool, found: bool, id: &str, username: &str) -> (r: Result<
    (Note, Note),
    Refusal,
>)
    ensures
        match r {
            Ok(n) => loaded && found && n.0.is("USER"@, "assignment changed"@, Some(id@))
                && n.1.is("USER"@, assignment_text(id@, username@), Some(id@)),
            Err(e) => if !loaded {
                e.is(500, "load failed"@, true)
            } else {
                !found && e.is(404, "no such ticket"@, false)
            },
        },
{
    if !loaded {
        return Err(internal_error("load failed"));
    }
    if !found {
        return Err(plain(404, "no such ticket"));
    }
    Ok((note_on("USER", "assignment changed", id), assignment_note(id, username)))
}

/// What pulling back an automatic approval leaves behind.
#[derive(Clone, Debug)]
pub struct UndoPlan {
    pub sample: Sample,
    pub intervention: InterventionKind,
    pub activity: Note,
    pub chat: String,
}

/// Pulls an automatically approved ticket back. The shape of the ticket goes back to asking a
/// person, and the approval leaves the undo window, so a second undo is refused.
pub fn undo_approval(
    auto_approved: &mut Vec<String>,
    ask_again: &mut Vec<String>,
    me: &Option<String>,
    loaded: bool,
    moved: &Moved,
    id: &str,
    shape: &str,
) -> (r: Result<UndoPlan, Refusal>)
    ensures
        match r {
            Ok(p) => {
                &&& me is Some && loaded && moved is Done && texts(old(auto_approved)@).contains(
                    id@,
                )
                &&& final(auto_approved)@ == without_text(old(auto_approved)@, id@)
                &&& texts(final(ask_again)@) == if texts(old(ask_again)@).contains(shape@) {
                    texts(old(ask_again)@)
                } else {
                    texts(old(ask_again)@).push(shape@)
                }
                &&& p.sample.shape@ == shape@ && p.sample.decision@ == "undo"@ && p.sample.by@
                    == me->0@ && p.sample.reason@ == "human pulled back an auto-approval"@
                &&& p.intervention == InterventionKind::UndoAutoApprove
                &&& p.activity.is("USER"@, "undid an auto-approval"@, Some(id@))
                &&& p.chat@ == "↩️ @"@ + me->0@ + " undid the auto-approval of "@ + id@ + " — `"@
                    + shape@ + "` goes back to asking a person."@
            },
            Err(e) => {
                &&& final(auto_approved)@ == old(auto_approved)@
                &&& final(ask_again)@ == old(ask_again)@
                &&& if me is Some && loaded && !texts(old(auto_approved)@).contains(id@) {
                    e.is(
                        409,
                        "not an auto-approved ticket (or the undo window has closed)"@,
                        false,
                    )
                } else {
                    move_refused(*me, loaded, *moved, e)
                }
            },
        },
{
    broadcast use crate::text::texts_push;

    if me.is_some() && loaded && !has_text(auto_approved, id) {
        return Err(plain(409, "not an auto-approved ticket (or the undo window has closed)"));
    }
    let who = match admit_move(me, loaded, moved) {
        Ok(who) => who,
        Err(e) => {
            return Err(e);
        },
    };
    if !has_text(ask_again, shape) {
        ask_again.push(owned(shape));
    }
    drop_text(auto_approved, id);
    let mut chat = owned("↩️ @");
    chat.append(who.as_str());
    chat.append(" undid the auto-approval of ");
    chat.append(id);
    chat.append(" — `");
    chat.append(shape);
    chat.append("` goes back to asking a person.");
    Ok(
        UndoPlan {
            sample: Sample {
                shape: owned(shape),
                decision: owned("undo"),
                by: who,
                reason: owned("human pulled back an auto-approval"),
            },
            intervention: InterventionKind::UndoAutoApprove,
            activity: note_on("USER", "undid an auto-approval", id),
            chat,
        },
    )
}

/// An approval that was pulled back has left the undo window: a second undo is refused.
pub proof fn an_undone_approval_is_gone(auto_approved: Seq<String>, id: Seq<char>)
    ensures
        !texts(without_text(auto_approved, id)).contains(id),
{
    dropped_text_is_gone(auto_approved, id);
}

/// A file attached to a ticket.
#[derive(Clone, Debug)]
pub struct Attachment {
    pub name: String,
    pub key: String,
    pub content_type: String,
    pub by: String,
    pub at: String,
}

impl Attachment {
    fn copy(&self) -> (r: Attachment)
        ensures
            r == *self,
    {
        Attachment {
            name: self.name.clone(),
            key: self.key.clone(),
            content_type: self.content_type.clone(),
            by: self.by.clone(),
            at: self.at.clone(),
        }
    }
}

/// Whether a storage key may be asked for: it names something and does not climb.
pub open spec fn good_key(key: Seq<char>) -> bool {
    key.len() > 0 && !spec_contains(key, ".."@)
}

/// Checks a storage key from a request.
pub fn check_key(key: &str) -> (r: Result<(), Refusal>)
    ensures
        match r {
            Ok(_) => good_key(key@),
            Err(e) => !good_key(key@) && e.is(400, "bad key"@, false),
        },
{
    if key.is_empty() || contains(key, "..") {
        Err(plain(400, "bad key"))
    } else {
        Ok(())
    }
}

pub open spec fn type_of(files: Seq<Attachment>, key: Seq<char>) -> Seq<char>
    decreases files.len(),
{
    if files.len() == 0 {
        "application/octet-stream"@
    } else if files[0].key@ == key {
        files[0].content_type@
    } else {
        type_of(files.skip(1), key)
    }
}

/// The content type of a stored file: that of the first record with its key.
pub fn attachment_type(files: &Vec<Attachment>, key: &str) -> (r: String)
    ensures
        r@ == type_of(files@, key@),
{
    let mut i: usize = 0;
    assert(files@.skip(0) =~= files@);
    while i < files.len()
        invariant
            i <= files.len(),
            type_of(files@, key@) == type_of(files@.skip(i as int), key@),
        decreases files.len() - i,
    {
        if same(files[i].key.as_str(), key) {
            return files[i].content_type.clone();
        }
        assert(files@.skip(i as int).skip(1) =~= files@.skip(i + 1));
        i += 1;
    }
    owned("application/octet-stream")
}

pub open spec fn safe_char(c: char) -> char {
    if is_ascii_alnum(c) || c == '.' || c == '-' || c == '_' {
        c
    } else {
        '-'
    }
}

/// A name with every character outside letters, digits, `.`, `-` and `_` made a dash.
pub open spec fn safe_name(s: Seq<char>) -> Seq<char> {
    s.map_values(|c: char| safe_char(c))
}

/// Makes a name safe to stand in a storage key.
pub fn safe(s: &str) -> (r: String)
    ensures
        r@ == safe_name(s@),
{
    let v = chars_of(s);
    let mut r = String::new();
    let mut i: usize = 0;
    while i < v.len()
        invariant
            i <= v.len(),
            r@ =~= safe_name(v@.take(i as int)),
        decreases v.len() - i,
    {
        let c = v[i];
        let kept = if ascii_alnum(c) || c == '.' || c == '-' || c == '_' {
            c
        } else {
            '-'
        };
        r.push(kept);
        i += 1;
    }
    assert(v@.take(v@.len() as int) =~= v@);
    r
}

/// Where an upload goes: its name and its storage key.
#[derive(Clone, Debug)]
pub struct Upload {
    pub name: String,
    pub key: String,
}

/// Admits an upload to a ticket.
pub fn admit_upload(id: &str, name: &str, body_empty: bool, has_storage: bool) -> (r: Result<
    Upload,
    Refusal,
>)
    ensures
        match r {
            Ok(u) => name@.len() > 0 && !body_empty && has_storage && u.name@ == safe_name(name@)
                && u.key@ == "uploads/"@ + safe_name(id@) + "/"@ + safe_name(name@),
            Err(e) => if name@.len() == 0 || body_empty {
                e.is(400, "name query param and a non-empty body are required"@, false)
            } else {
                !has_storage && e.is(409, "no blob storage configured"@, false)
            },
        },
{
    let name = safe(name);
    if name.as_str().is_empty() || body_empty {
        return Err(plain(400, "name query param and a non-empty body are required"));
    }
    if !has_storage {
        return Err(plain(409, "no blob storage configured"));
    }
    let mut key = owned("uploads/");
    let ticket = safe(id);
    key.append(ticket.as_str());
    key.append("/");
    key.append(name.as_str());
    Ok(Upload { name, key })
}

pub open spec fn other_file(key: Seq<char>) -> spec_fn(Attachment) -> Option<Attachment> {
    |a: Attachment|
        if a.key@ != key {
            Some(a)
        } else {
            None
        }
}

/// A ticket's files without the one with that key, or nothing where none is left.
pub fn remove_attachment(files: &Vec<Attachment>, key: &str) -> (r: Option<Vec<Attachment>>)
    ensures
        match r {
            Some(v) => v@ == collect(files@, other_file(key@)) && v@.len() > 0,
            None => collect(files@, other_file(key@)).len() == 0,
        },
{
    let mut kept: Vec<Attachment> = Vec::new();
    let ghost f = other_file(key@);
    let mut i: usize = 0;
    assert(files@.take(0) =~= Seq::empty());
    while i < files.len()
        invariant
            i <= files.len(),
            f == other_file(key@),
            kept@ == collect(files@.take(i as int), f),
        decreases files.len() - i,
    {
        proof {
            collect_step(files@, f, i as int);
        }
        if !same(files[i].key.as_str(), key) {
            kept.push(files[i].copy());
        }
        i += 1;
    }
    assert(files@.take(files@.len() as int) =~= files@);
    if kept.len() == 0 {
        None
    } else {
        Some(kept)
    }
}

/// The position of the first ticket with that identifier, from `i` on.
pub open spec fn entry_at(all: Seq<(String, Vec<Attachment>)>, id: Seq<char>, i: int) -> Option<int>
    decreases all.len() - i,
{
    if i < 0 || i >= all.len() {
        None
    } else if all[i].0@ == id {
        Some(i)
    } else {
        entry_at(all, id, i + 1)
    }
}

/// The files of a ticket, in the order in which they were attached.
pub open spec fn files_of(all: Seq<(String, Vec<Attachment>)>, id: Seq<char>) -> Seq<Attachment> {
    match entry_at(all, id, 0) {
        Some(k) => all[k].1@,
        None => Seq::empty(),
    }
}

/// Each ticket has one list of files.
pub open spec fn one_list_each(all: Seq<(String, Vec<Attachment>)>) -> bool {
    forall|i: int, j: int|
        0 <= i < j < all.len() ==> (#[trigger] all[i]).0@ != (#[trigger] all[j]).0@
}

proof fn entry_found(all: Seq<(String, Vec<Attachment>)>, id: Seq<char>, i: int)
    requires
        0 <= i,
    ensures
        match entry_at(all, id, i) {
            Some(k) => i <= k < all.len() && all[k].0@ == id,
            None => forall|j: int| i <= j < all.len() ==> (#[trigger] all[j]).0@ != id,
        },
    decreases all.len() - i,
{
    if i < all.len() && all[i].0@ != id {
        entry_found(all, id, i + 1);
    }
}

fn find_entry(all: &Vec<(String, Vec<Attachment>)>, id: &str) -> (r: Option<usize>)
    ensures
        match r {
            Some(k) => k < all.len() && entry_at(all@, id@, 0) == Some(k as int) && all@[k as int].0@
                == id@,
            None => entry_at(all@, id@, 0) is None,
        },
{
    let mut i: usize = 0;
    while i < all.len()
        invariant
            i <= all.len(),
            entry_at(all@, id@, 0) == entry_at(all@, id@, i as int),
        decreases all.len() - i,
    {
        if same(all[i].0.as_str(), id) {
            return Some(i);
        }
        i += 1;
    }
    None
}

proof fn same_names_same_entry(
    before: Seq<(String, Vec<Attachment>)>,
    after: Seq<(String, Vec<Attachment>)>,
    id: Seq<char>,
    i: int,
)
    requires
        0 <= i,
        before.len() <= after.len(),
        forall|j: int| 0 <= j < before.len() ==> (#[trigger] after[j]).0@ == before[j].0@,
        forall|j: int| before.len() <= j < after.len() ==> (#[trigger] after[j]).0@ != id,
    ensures
        entry_at(after, id, i) == entry_at(before, id, i),
    decreases after.len() - i,
{
    if i < after.len() {
        same_names_same_entry(before, after, id, i + 1);
    }
}

/// Attaches a file to a ticket. The files of the other tickets stay.
pub fn attach(all: &mut Vec<(String, Vec<Attachment>)>, id: &str, file: Attachment)
    ensures
        one_list_each(old(all)@) ==> one_list_each(final(all)@),
        files_of(final(all)@, id@) == files_of(old(all)@, id@).push(file),
        forall|other: Seq<char>|
            other != id@ ==> #[trigger] files_of(final(all)@, other) == files_of(
                old(all)@,
                other,
            ),
{
    let ghost before = all@;
    match find_entry(all, id) {
        Some(k) => {
            all[k].1.push(file);
            proof {
                a_list_was_changed(before, all@, k as int);
            }
        },
        None => {
            let list = vec![file];
            assert(list@ =~= Seq::<Attachment>::empty().push(file));
            all.push((owned(id), list));
            proof {
                let n = before.len() as int;
                entry_found(before, id@, 0);
                entry_found(all@, id@, 0);
                assert(all@[n].0@ == id@);
                assert forall|i: int| 0 <= i < n implies #[trigger] all@[i] == before[i] by {}
                if one_list_each(before) {
                    assert forall|i: int, j: int| 0 <= i < j < all@.len() implies (
                    #[trigger] all@[i]).0@ != (#[trigger] all@[j]).0@ by {
                        assert(before[i].0@ != id@);
                        if j < n {
                            assert(before[i].0@ != before[j].0@);
                        }
                    }
                }
                assert forall|other: Seq<char>| other != id@ implies #[trigger] files_of(
                    all@,
                    other,
                ) == files_of(before, other) by {
                    same_names_same_entry(before, all@, other, 0);
                    entry_found(before, other, 0);
                }
            }
        },
    }
}

proof fn a_list_was_changed(
    before: Seq<(String, Vec<Attachment>)>,
    after: Seq<(String, Vec<Attachment>)>,
    k: int,
)
    requires
        0 <= k < before.len(),
        after.len() == before.len(),
        after[k].0 == before[k].0,
        entry_at(before, before[k].0@, 0) == Some(k),
        forall|i: int| 0 <= i < before.len() && i != k ==> #[trigger] after[i] == before[i],
    ensures
        one_list_each(before) ==> one_list_each(after),
        entry_at(after, after[k].0@, 0) == Some(k),
        forall|other: Seq<char>|
            other != after[k].0@ ==> #[trigger] files_of(after, other) == files_of(before, other),
{
    if one_list_each(before) {
        assert forall|i: int, j: int| 0 <= i < j < after.len() implies (#[trigger] after[i]).0@
            != (#[trigger] after[j]).0@ by {
            assert(before[i].0@ != before[j].0@);
        }
    }
    same_names_same_entry(before, after, after[k].0@, 0);
    assert forall|other: Seq<char>| other != after[k].0@ implies #[trigger] files_of(after, other)
        == files_of(before, other) by {
        same_names_same_entry(before, after, other, 0);
        entry_found(before, other, 0);
    }
}

/// Removes a file from a ticket, by its key. A ticket without files has no list; the files of
/// the other tickets stay.
pub fn detach(all: &mut Vec<(String, Vec<Attachment>)>, id: &str, key: &str)
    ensures
        one_list_each(old(all)@) ==> {
            &&& one_list_each(final(all)@)
            &&& files_of(final(all)@, id@) == collect(files_of(old(all)@, id@), other_file(key@))
            &&& entry_at(old(all)@, id@, 0) is Some && files_of(final(all)@, id@).len() == 0
                ==> entry_at(final(all)@, id@, 0) is None
        },
        forall|other: Seq<char>|
            other != id@ ==> #[trigger] files_of(final(all)@, other) == files_of(
                old(all)@,
                other,
            ),
{
    let ghost before = all@;
    let k = match find_entry(all, id) {
        None => {
            assert(files_of(before, id@) =~= collect(files_of(before, id@), other_file(key@)));
            return ;
        },
        Some(k) => k,
    };
    match remove_attachment(&all[k].1, key) {
        Some(rest) => {
            all[k].1 = rest;
            proof {
                a_list_was_changed(before, all@, k as int);
            }
        },
        None => {
            let _gone = all.remove(k);
            proof {
                let after = all@;
                assert(after =~= before.remove(k as int));
                if one_list_each(before) {
                    a_list_was_removed(before, k as int);
                    assert(files_of(after, id@) =~= collect(
                        files_of(before, id@),
                        other_file(key@),
                    ));
                }
                assert forall|other: Seq<char>| other != id@ implies #[trigger] files_of(
                    after,
                    other,
                ) == files_of(before, other) by {
                    removal_shifts(before, k as int, other, 0);
                    entry_found(before, other, 0);
                    entry_found(after, other, 0);
                }
            }
        },
    }
}

proof fn a_list_was_removed(before: Seq<(String, Vec<Attachment>)>, k: int)
    requires
        one_list_each(before),
        0 <= k < before.len(),
    ensures
        one_list_each(before.remove(k)),
        entry_at(before.remove(k), before[k].0@, 0) is None,
{
    let after = before.remove(k);
    assert forall|i: int, j: int| 0 <= i < j < after.len() implies (#[trigger] after[i]).0@ != (
    #[trigger] after[j]).0@ by {
        let x = if i < k { i } else { i + 1 };
        let y = if j < k { j } else { j + 1 };
        assert(before[x].0@ != before[y].0@);
    }
    entry_found(after, before[k].0@, 0);
    if let Some(f) = entry_at(after, before[k].0@, 0) {
        if f < k {
            assert(before[f].0@ != before[k].0@);
        } else {
            assert(before[k].0@ != before[f + 1].0@);
        }
    }
}

/// Where a ticket's list is found once another was removed.
proof fn removal_shifts(before: Seq<(String, Vec<Attachment>)>, k: int, id: Seq<char>, i: int)
    requires
        0 <= i <= k < before.len() || k < i,
        0 <= k < before.len(),
        before[k].0@ != id,
    ensures
        i <= k ==> entry_at(before.remove(k), id, i) == match entry_at(before, id, i) {
            Some(f) => Some(if f < k { f } else { f - 1 }),
            None => None,
        },
        i > k ==> entry_at(before.remove(k), id, i - 1) == match entry_at(before, id, i) {
            Some(f) => Some(f - 1),
            None => None,
        },
    decreases before.len() - i,
{
    let after = before.remove(k);
    if i < k {
        assert(after[i] == before[i]);
        removal_shifts(before, k, id, i + 1);
        entry_found(before, id, i + 1);
    } else if i == k {
        removal_shifts(before, k, id, i + 1);
        entry_found(before, id, i + 1);
    } else if i < before.len() {
        assert(after[i - 1] == before[i]);
        removal_shifts(before, k, id, i + 1);
    }
}

/// A file that was attached under a new key and removed again leaves the ticket as it was.
pub proof fn a_removed_file_leaves_no_trace(files: Seq<Attachment>, file: Attachment)
    requires
        forall|i: int| 0 <= i < files.len() ==> (#[trigger] files[i]).key@ != file.key@,
    ensures
        collect(files.push(file), other_file(file.key@)) == files,
{
    assert(files.push(file).drop_last() =~= files);
    keeping_all_keeps_all(files, file.key@);
}

proof fn keeping_all_keeps_all(files: Seq<Attachment>, key: Seq<char>)
    requires
        forall|i: int| 0 <= i < files.len() ==> (#[trigger] files[i]).key@ != key,
    ensures
        collect(files, other_file(key)) == files,
    decreases files.len(),
{
    if files.len() > 0 {
        let init = files.drop_last();
        assert forall|i: int| 0 <= i < init.len() implies (#[trigger] init[i]).key@ != key by {
            assert(init[i] == files[i]);
        }
        keeping_all_keeps_all(init, key);
        assert(init.push(files.last()) =~= files);
    } else {
        assert(collect(files, other_file(key)) =~= files);
    }
}

proof fn text_of_is_first(pairs: Seq<(String, String)>, key: Seq<char>)
    ensures
        match text_of(pairs, key) {
            Some(v) => exists|i: int|
                0 <= i < pairs.len() && (#[trigger] pairs[i]).0@ == key && pairs[i].1 == v && (
                forall|j: int| 0 <= j < i ==> (#[trigger] pairs[j]).0@ != key),
            None => forall|j: int| 0 <= j < pairs.len() ==> (#[trigger] pairs[j]).0@ != key,
        },
    decreases pairs.len(),
{
    if pairs.len() > 0 {
        let rest = pairs.skip(1);
        text_of_is_first(rest, key);
        assert(forall|j: int| 0 <= j < rest.len() ==> #[trigger] rest[j] == pairs[j + 1]);
        assert(forall|j: int| 1 <= j < pairs.len() ==> #[trigger] pairs[j] == rest[j - 1]);
        if pairs[0].0@ != key && text_of(rest, key) is Some {
            let i = choose|i: int|
                0 <= i < rest.len() && (#[trigger] rest[i]).0@ == key && rest[i].1 == text_of(
                    rest,
                    key,
                )->0 && (forall|j: int| 0 <= j < i ==> (#[trigger] rest[j]).0@ != key);
            assert(pairs[i + 1].0@ == key);
        }
    }
}

proof fn count_of_is_first(pairs: Seq<(u64, u64)>, key: u64)
    ensures
        (exists|i: int|
            0 <= i < pairs.len() && (#[trigger] pairs[i]).0 == key && pairs[i].1 == count_of(
                pairs,
                key,
            ) && (forall|j: int| 0 <= j < i ==> (#[trigger] pairs[j]).0 != key)) || (count_of(
            pairs,
            key,
        ) == 0 && forall|j: int| 0 <= j < pairs.len() ==> (#[trigger] pairs[j]).0 != key),
    decreases pairs.len(),
{
    if pairs.len() > 0 {
        let rest = pairs.skip(1);
        count_of_is_first(rest, key);
        assert(forall|j: int| 0 <= j < rest.len() ==> #[trigger] rest[j] == pairs[j + 1]);
        assert(forall|j: int| 1 <= j < pairs.len() ==> #[trigger] pairs[j] == rest[j - 1]);
        if pairs[0].0 != key {
            if exists|i: int|
                0 <= i < rest.len() && (#[trigger] rest[i]).0 == key && rest[i].1 == count_of(
                    rest,
                    key,
                ) && (forall|j: int| 0 <= j < i ==> (#[trigger] rest[j]).0 != key) {
                let i = choose|i: int|
                    0 <= i < rest.len() && (#[trigger] rest[i]).0 == key && rest[i].1 == count_of(
                        rest,
                        key,
                    ) && (forall|j: int| 0 <= j < i ==> (#[trigger] rest[j]).0 != key);
                assert(pairs[i + 1].0 == key);
            }
        }
    }
}

proof fn pr_of_is_first(prs: Seq<OpenPr>, number: u64)
    ensures
        match pr_of(prs, number) {
            Some(v) => exists|i: int|
                0 <= i < prs.len() && (#[trigger] prs[i]).number == number && prs[i] == v && (
                forall|j: int| 0 <= j < i ==> (#[trigger] prs[j]).number != number),
            None => forall|j: int| 0 <= j < prs.len() ==> (#[trigger] prs[j]).number != number,
        },
    decreases prs.len(),
{
    if prs.len() > 0 {
        let rest = prs.skip(1);
        pr_of_is_first(rest, number);
        assert(forall|j: int| 0 <= j < rest.len() ==> #[trigger] rest[j] == prs[j + 1]);
        assert(forall|j: int| 1 <= j < prs.len() ==> #[trigger] prs[j] == rest[j - 1]);
        if prs[0].number != number && pr_of(rest, number) is Some {
            let i = choose|i: int|
                0 <= i < rest.len() && (#[trigger] rest[i]).number == number && rest[i] == pr_of(
                    rest,
                    number,
                )->0 && (forall|j: int| 0 <= j < i ==> (#[trigger] rest[j]).number != number);
            assert(prs[i + 1].number == number);
        }
    }
}

proof fn ticket_of_is_first(tickets: Seq<TicketRow>, id: Seq<char>)
    ensures
        match ticket_of(tickets, id) {
            Some(v) => exists|i: int|
                0 <= i < tickets.len() && (#[trigger] tickets[i]).id@ == id && tickets[i] == v && (
                forall|j: int| 0 <= j < i ==> (#[trigger] tickets[j]).id@ != id),
            None => forall|j: int| 0 <= j < tickets.len() ==> (#[trigger] tickets[j]).id@ != id,
        },
    decreases tickets.len(),
{
    if tickets.len() > 0 {
        let rest = tickets.skip(1);
        ticket_of_is_first(rest, id);
        assert(forall|j: int| 0 <= j < rest.len() ==> #[trigger] rest[j] == tickets[j + 1]);
        assert(forall|j: int| 1 <= j < tickets.len() ==> #[trigger] tickets[j] == rest[j - 1]);
        if tickets[0].id@ != id && ticket_of(rest, id) is Some {
            let i = choose|i: int|
                0 <= i < rest.len() && (#[trigger] rest[i]).id@ == id && rest[i] == ticket_of(
                    rest,
                    id,
                )->0 && (forall|j: int| 0 <= j < i ==> (#[trigger] rest[j]).id@ != id);
            assert(tickets[i + 1].id@ == id);
        }
    }
}

/// Which list an item of the queue comes from.
proof fn item_has_source(
    s: InboxState,
    me: Seq<char>,
    p: Powers,
    prs: Option<Vec<OpenPr>>,
    k: int,
)
    requires
        0 <= k < inbox(s, me, p, prs).len(),
    ensures
        ({
            let item = inbox(s, me, p, prs)[k];
            ||| exists|i: int|
                0 <= i < s.tickets@.len() && ticket_item(s, me, p, #[trigger] s.tickets@[i])
                    == Some(item)
            ||| exists|i: int|
                0 <= i < s.auto_approved@.len() && auto_item(s, p, #[trigger] s.auto_approved@[i])
                    == Some(item)
            ||| exists|i: int|
                0 <= i < s.questions@.len() && question_rule(me)(#[trigger] s.questions@[i])
                    == Some(item)
            ||| exists|i: int|
                0 <= i < s.human_holds@.len() && hold_rule(s, p)(#[trigger] s.human_holds@[i])
                    == Some(item)
            ||| exists|i: int|
                0 <= i < s.reverts@.len() && revert_rule(p)(#[trigger] s.reverts@[i]) == Some(item)
            ||| prs is Some && exists|i: int|
                0 <= i < prs->0@.len() && pr_item(s, p, #[trigger] prs->0@[i]) == Some(item)
        }),
{
    let a1 = collect(s.tickets@, ticket_rule(s, me, p));
    let a2 = collect(s.auto_approved@, auto_rule(s, p));
    let a3 = collect(s.questions@, question_rule(me));
    let a4 = collect(s.human_holds@, hold_rule(s, p));
    let a5 = collect(s.reverts@, revert_rule(p));
    let n1 = a1.len() as int;
    let n2 = n1 + a2.len();
    let n3 = n2 + a3.len();
    let n4 = n3 + a4.len();
    let n5 = n4 + a5.len();
    let item = inbox(s, me, p, prs)[k];
    if k < n1 {
        collected_has_source(s.tickets@, ticket_rule(s, me, p), k);
        let i = choose|i: int|
            0 <= i < s.tickets@.len() && ticket_rule(s, me, p)(#[trigger] s.tickets@[i]) == Some(
                a1[k],
            );
        assert(ticket_item(s, me, p, s.tickets@[i]) == Some(item));
    } else if k < n2 {
        collected_has_source(s.auto_approved@, auto_rule(s, p), k - n1);
        let i = choose|i: int|
            0 <= i < s.auto_approved@.len() && auto_rule(s, p)(#[trigger] s.auto_approved@[i])
                == Some(a2[k - n1]);
        assert(auto_item(s, p, s.auto_approved@[i]) == Some(item));
    } else if k < n3 {
        collected_has_source(s.questions@, question_rule(me), k - n2);
    } else if k < n4 {
        collected_has_source(s.human_holds@, hold_rule(s, p), k - n3);
    } else if k < n5 {
        collected_has_source(s.reverts@, revert_rule(p), k - n4);
    } else {
        collected_has_source(prs->0@, pr_rule(s, p), k - n5);
        let i = choose|i: int|
            0 <= i < prs->0@.len() && pr_rule(s, p)(#[trigger] prs->0@[i]) == Some(
                collect(prs->0@, pr_rule(s, p))[k - n5],
            );
        assert(pr_item(s, p, prs->0@[i]) == Some(item));
    }
}

/// What a list puts in the queue is in the queue.
proof fn part_is_in_the_queue(
    s: InboxState,
    me: Seq<char>,
    p: Powers,
    prs: Option<Vec<OpenPr>>,
    item: InboxItem,
)
    requires
        collect(s.tickets@, ticket_rule(s, me, p)).contains(item) || collect(
            s.auto_approved@,
            auto_rule(s, p),
        ).contains(item) || collect(s.questions@, question_rule(me)).contains(item) || collect(
            s.human_holds@,
            hold_rule(s, p),
        ).contains(item) || collect(s.reverts@, revert_rule(p)).contains(item) || (prs is Some
            && collect(prs->0@, pr_rule(s, p)).contains(item)),
    ensures
        inbox(s, me, p, prs).contains(item),
{
    let a1 = collect(s.tickets@, ticket_rule(s, me, p));
    let a2 = collect(s.auto_approved@, auto_rule(s, p));
    let a3 = collect(s.questions@, question_rule(me));
    let a4 = collect(s.human_holds@, hold_rule(s, p));
    let a5 = collect(s.reverts@, revert_rule(p));
    let n1 = a1.len() as int;
    let n2 = n1 + a2.len();
    let n3 = n2 + a3.len();
    let n4 = n3 + a4.len();
    let n5 = n4 + a5.len();
    let all = inbox(s, me, p, prs);
    if a1.contains(item) {
        let k = choose|k: int| 0 <= k < a1.len() && a1[k] == item;
        assert(all[k] == item);
    } else if a2.contains(item) {
        let k = choose|k: int| 0 <= k < a2.len() && a2[k] == item;
        assert(all[n1 + k] == item);
    } else if a3.contains(item) {
        let k = choose|k: int| 0 <= k < a3.len() && a3[k] == item;
        assert(all[n2 + k] == item);
    } else if a4.contains(item) {
        let k = choose|k: int| 0 <= k < a4.len() && a4[k] == item;
        assert(all[n3 + k] == item);
    } else if a5.contains(item) {
        let k = choose|k: int| 0 <= k < a5.len() && a5[k] == item;
        assert(all[n4 + k] == item);
    } else {
        let a6 = collect(prs->0@, pr_rule(s, p));
        let k = choose|k: int| 0 <= k < a6.len() && a6[k] == item;
        assert(all[n5 + k] == item);
    }
}

/// An item about a ticket tells the truth about it: a spend waits for approval only while the
/// ticket is held for its cost, waits for work and nobody approved it; a design waits only where
/// people approve designs, a fix only with evidence; a hold only while the ticket is parked; and
/// what is shown as assigned is assigned to the caller.
pub proof fn a_ticket_waits_for_a_reason(
    s: InboxState,
    me: Seq<char>,
    p: Powers,
    prs: Option<Vec<OpenPr>>,
    k: int,
)
    requires
        0 <= k < inbox(s, me, p, prs).len(),
    ensures
        match inbox(s, me, p, prs)[k] {
            InboxItem::CostApprove { ticket, title, priority, can_act } => {
                &&& can_act == p.approve_ready
                &&& texts(s.cost_holds@).contains(ticket@)
                &&& !texts(s.cost_approved@).contains(ticket@)
                &&& exists|i: int|
                    0 <= i < s.tickets@.len() && (#[trigger] s.tickets@[i]).id == ticket
                        && s.tickets@[i].title == title && s.tickets@[i].priority == priority && (
                    s.tickets@[i].status == Status::Pending || s.tickets@[i].status
                        == Status::Ready)
            },
            InboxItem::ApproveReady { ticket, title, priority, can_act } => {
                &&& can_act == p.approve_ready
                &&& s.gate_ready
                &&& texts(s.cost_holds@).contains(ticket@) ==> texts(s.cost_approved@).contains(
                    ticket@,
                )
                &&& exists|i: int|
                    0 <= i < s.tickets@.len() && (#[trigger] s.tickets@[i]).id == ticket
                        && s.tickets@[i].title == title && s.tickets@[i].priority == priority
                        && s.tickets@[i].status == Status::Pending
                        && s.tickets@[i].has_technical_design
            },
            InboxItem::Verify { ticket, title, can_act } => {
                &&& can_act == p.verify
                &&& s.gate_verify
                &&& texts(s.evidence@).contains(ticket@)
                &&& exists|i: int|
                    0 <= i < s.tickets@.len() && (#[trigger] s.tickets@[i]).id == ticket
                        && s.tickets@[i].title == title && s.tickets@[i].status == Status::Fixed
            },
            InboxItem::OnHold { ticket, title, reason, can_act } => {
                &&& can_act == p.approve_ready
                &&& match reason {
                    Some(why) => exists|i: int|
                        0 <= i < s.hold_reasons@.len() && (#[trigger] s.hold_reasons@[i]).0@
                            == ticket@ && s.hold_reasons@[i].1 == why && forall|j: int|
                            0 <= j < i ==> (#[trigger] s.hold_reasons@[j]).0@ != ticket@,
                    None => forall|j: int|
                        0 <= j < s.hold_reasons@.len() ==> (#[trigger] s.hold_reasons@[j]).0@
                            != ticket@,
                }
                &&& exists|i: int|
                    0 <= i < s.tickets@.len() && (#[trigger] s.tickets@[i]).id == ticket
                        && s.tickets@[i].title == title && s.tickets@[i].status == Status::OnHold
            },
            InboxItem::Assigned { ticket, title, status } => {
                &&& status != Status::OnHold
                &&& exists|i: int|
                    0 <= i < s.tickets@.len() && (#[trigger] s.tickets@[i]).id == ticket
                        && s.tickets@[i].title == title && s.tickets@[i].status == status
                        && s.tickets@[i].assignee is Some && s.tickets@[i].assignee->0@ == me
            },
            _ => true,
        },
{
    let item = inbox(s, me, p, prs)[k];
    item_has_source(s, me, p, prs, k);
    if exists|i: int|
        0 <= i < s.tickets@.len() && ticket_item(s, me, p, #[trigger] s.tickets@[i]) == Some(item) {
        let i = choose|i: int|
            0 <= i < s.tickets@.len() && ticket_item(s, me, p, #[trigger] s.tickets@[i]) == Some(
                item,
            );
        text_of_is_first(s.hold_reasons@, s.tickets@[i].id@);
        assert(s.tickets@[i].id == s.tickets@[i].id);
    }
}

/// Nothing that waits on a ticket is missing from the queue. A spend that is held shows until
/// somebody approves it; a designed ticket shows where people approve designs; a fix with evidence
/// shows for its verdict; a parked ticket shows; and a ticket that is assigned to the caller always
/// shows in one of these forms.
pub proof fn no_ticket_waits_unseen(
    s: InboxState,
    me: Seq<char>,
    p: Powers,
    prs: Option<Vec<OpenPr>>,
    i: int,
)
    requires
        0 <= i < s.tickets@.len(),
    ensures
        ({
            let t = s.tickets@[i];
            let all = inbox(s, me, p, prs);
            let held = texts(s.cost_holds@).contains(t.id@) && !texts(
                s.cost_approved@,
            ).contains(t.id@);
            &&& held && (t.status == Status::Pending || t.status == Status::Ready) ==> all.contains(
                InboxItem::CostApprove {
                    ticket: t.id,
                    title: t.title,
                    priority: t.priority,
                    can_act: p.approve_ready,
                },
            )
            &&& !held && s.gate_ready && t.status == Status::Pending && t.has_technical_design
                ==> all.contains(
                InboxItem::ApproveReady {
                    ticket: t.id,
                    title: t.title,
                    priority: t.priority,
                    can_act: p.approve_ready,
                },
            )
            &&& s.gate_verify && t.status == Status::Fixed && texts(s.evidence@).contains(t.id@)
                ==> all.contains(
                InboxItem::Verify { ticket: t.id, title: t.title, can_act: p.verify },
            )
            &&& t.status == Status::OnHold ==> exists|reason: Option<String>|
                all.contains(
                    #[trigger] parked_item(t, reason, p.approve_ready),
                )
            &&& t.assignee is Some && t.assignee->0@ == me && !all.contains(
                InboxItem::Assigned { ticket: t.id, title: t.title, status: t.status },
            ) ==> (t.status == Status::OnHold || (s.gate_verify && t.status == Status::Fixed
                && texts(s.evidence@).contains(t.id@)) || (s.gate_ready && t.status
                == Status::Pending && t.has_technical_design) || (held && (t.status
                == Status::Pending || t.status == Status::Ready)))
        }),
{
    let t = s.tickets@[i];
    let f = ticket_rule(s, me, p);
    if f(t) is Some {
        source_is_collected(s.tickets@, f, i);
        part_is_in_the_queue(s, me, p, prs, f(t)->0);
        if t.status == Status::OnHold {
            assert(f(t)->0 == parked_item(t, text_of(s.hold_reasons@, t.id@), p.approve_ready));
        }
    }
}

/// The item of a parked ticket.
pub open spec fn parked_item(t: TicketRow, reason: Option<String>, can_act: bool) -> InboxItem {
    InboxItem::OnHold { ticket: t.id, title: t.title, reason, can_act }
}

/// An approval that the machine gave can be pulled back exactly while its window is open: the
/// minutes that are left and those that have passed make up the window, and a ticket that is gone
/// has no approval to pull back.
pub proof fn an_approval_shows_while_it_can_be_undone(
    s: InboxState,
    me: Seq<char>,
    p: Powers,
    prs: Option<Vec<OpenPr>>,
)
    ensures
        forall|k: int|
            0 <= k < inbox(s, me, p, prs).len() && (#[trigger] inbox(s, me, p, prs)[k]) is AutoApproved
                ==> exists|i: int|
                {
                    &&& 0 <= i < s.auto_approved@.len()
                    &&& inbox(s, me, p, prs)[k]->AutoApproved_ticket == (
                    #[trigger] s.auto_approved@[i]).ticket
                    &&& inbox(s, me, p, prs)[k]->AutoApproved_can_act == p.approve_ready
                    &&& match s.auto_approved@[i].age_secs {
                        Some(age) => inbox(s, me, p, prs)[k]->minutes_left + age / 60
                            == s.undo_window_minutes,
                        None => s.undo_window_minutes == u64::MAX && inbox(
                            s,
                            me,
                            p,
                            prs,
                        )[k]->minutes_left == 0,
                    }
                    &&& exists|j: int|
                        0 <= j < s.tickets@.len() && (#[trigger] s.tickets@[j]).id@
                            == s.auto_approved@[i].ticket@ && s.tickets@[j].title == inbox(
                            s,
                            me,
                            p,
                            prs,
                        )[k]->AutoApproved_title
                },
        forall|i: int, j: int|
            0 <= i < s.auto_approved@.len() && 0 <= j < s.tickets@.len() && (
            #[trigger] s.auto_approved@[i]).age_secs is Some && s.auto_approved@[i].age_secs->0 / 60
                <= s.undo_window_minutes && (#[trigger] s.tickets@[j]).id@
                == s.auto_approved@[i].ticket@ ==> exists|k: int|
                0 <= k < inbox(s, me, p, prs).len() && (#[trigger] inbox(
                    s,
                    me,
                    p,
                    prs,
                )[k]) is AutoApproved && inbox(s, me, p, prs)[k]->AutoApproved_ticket
                    == s.auto_approved@[i].ticket,
{
    let all = inbox(s, me, p, prs);
    assert forall|k: int| 0 <= k < all.len() && (#[trigger] all[k]) is AutoApproved implies exists|
        i: int,
    |
        {
            &&& 0 <= i < s.auto_approved@.len()
            &&& all[k]->AutoApproved_ticket == (#[trigger] s.auto_approved@[i]).ticket
            &&& all[k]->AutoApproved_can_act == p.approve_ready
            &&& match s.auto_approved@[i].age_secs {
                Some(age) => all[k]->minutes_left + age / 60 == s.undo_window_minutes,
                None => s.undo_window_minutes == u64::MAX && all[k]->minutes_left == 0,
            }
            &&& exists|j: int|
                0 <= j < s.tickets@.len() && (#[trigger] s.tickets@[j]).id@
                    == s.auto_approved@[i].ticket@ && s.tickets@[j].title
                    == all[k]->AutoApproved_title
        } by {
        item_has_source(s, me, p, prs, k);
        let i = choose|i: int|
            0 <= i < s.auto_approved@.len() && auto_item(s, p, #[trigger] s.auto_approved@[i])
                == Some(all[k]);
        ticket_of_is_first(s.tickets@, s.auto_approved@[i].ticket@);
        assert(all[k]->AutoApproved_ticket == s.auto_approved@[i].ticket);
    }
    assert forall|i: int, j: int|
        0 <= i < s.auto_approved@.len() && 0 <= j < s.tickets@.len() && (
        #[trigger] s.auto_approved@[i]).age_secs is Some && s.auto_approved@[i].age_secs->0 / 60
            <= s.undo_window_minutes && (#[trigger] s.tickets@[j]).id@
            == s.auto_approved@[i].ticket@ implies exists|k: int|
        0 <= k < all.len() && (#[trigger] all[k]) is AutoApproved && all[k]->AutoApproved_ticket
            == s.auto_approved@[i].ticket by {
        let a = s.auto_approved@[i];
        ticket_of_is_first(s.tickets@, a.ticket@);
        let f = auto_rule(s, p);
        source_is_collected(s.auto_approved@, f, i);
        part_is_in_the_queue(s, me, p, prs, f(a)->0);
        let k = choose|k: int| 0 <= k < all.len() && all[k] == f(a)->0;
        assert(all[k] is AutoApproved);
    }
}

/// A question waits on the caller exactly while it has no answer and is addressed to them, by
/// their bare name or with an `@` before it, in whatever case.
pub proof fn a_question_waits_until_it_is_answered(
    s: InboxState,
    me: Seq<char>,
    p: Powers,
    prs: Option<Vec<OpenPr>>,
    q: Question,
)
    ensures
        inbox(s, me, p, prs).contains(InboxItem::Asked { question: q }) <==> s.questions@.contains(q)
            && q.answer@.len() == 0 && (spec_ascii_lower(q.to@) == spec_ascii_lower(me)
            || spec_ascii_lower(q.to@) == spec_ascii_lower("@"@ + me)),
{
    let all = inbox(s, me, p, prs);
    let item = InboxItem::Asked { question: q };
    if all.contains(item) {
        let k = choose|k: int| 0 <= k < all.len() && all[k] == item;
        item_has_source(s, me, p, prs, k);
        let i = choose|i: int|
            0 <= i < s.questions@.len() && question_rule(me)(#[trigger] s.questions@[i]) == Some(
                item,
            );
        assert(s.questions@[i] == q);
    }
    if s.questions@.contains(q) && q.answer@.len() == 0 && (spec_ascii_lower(q.to@)
        == spec_ascii_lower(me) || spec_ascii_lower(q.to@) == spec_ascii_lower("@"@ + me)) {
        let i = choose|i: int| 0 <= i < s.questions@.len() && s.questions@[i] == q;
        source_is_collected(s.questions@, question_rule(me), i);
        part_is_in_the_queue(s, me, p, prs, item);
    }
}

/// Every pull request that is held for human eyes waits, with what is known of it, and every
/// suspicion of undone work waits until it is decided.
pub proof fn holds_and_suspicions_wait(
    s: InboxState,
    me: Seq<char>,
    p: Powers,
    prs: Option<Vec<OpenPr>>,
    h: Hold,
    known: Option<OpenPr>,
    e: Revert,
    can_act: bool,
)
    ensures
        inbox(s, me, p, prs).contains(InboxItem::HumanEyes { hold: h, known_pr: known, can_act })
            <==> s.human_holds@.contains(h) && can_act == p.review && match known {
            Some(pr) => exists|i: int|
                0 <= i < s.known_prs@.len() && #[trigger] s.known_prs@[i] == pr && pr.number
                    == h.number && forall|j: int|
                    0 <= j < i ==> (#[trigger] s.known_prs@[j]).number != h.number,
            None => forall|j: int|
                0 <= j < s.known_prs@.len() ==> (#[trigger] s.known_prs@[j]).number != h.number,
        },
        inbox(s, me, p, prs).contains(InboxItem::RevertedWork { revert: e, can_act })
            <==> s.reverts@.contains(e) && e.decision == RevertDecision::Pending && can_act
            == p.review,
{
    let all = inbox(s, me, p, prs);
    pr_of_is_first(s.known_prs@, h.number);
    let eyes = InboxItem::HumanEyes { hold: h, known_pr: known, can_act };
    if all.contains(eyes) {
        let k = choose|k: int| 0 <= k < all.len() && all[k] == eyes;
        item_has_source(s, me, p, prs, k);
        let i = choose|i: int|
            0 <= i < s.human_holds@.len() && hold_rule(s, p)(#[trigger] s.human_holds@[i]) == Some(
                eyes,
            );
        assert(s.human_holds@[i] == h);
        assert(known == pr_of(s.known_prs@, h.number));
    }
    if s.human_holds@.contains(h) && can_act == p.review {
        let i = choose|i: int| 0 <= i < s.human_holds@.len() && s.human_holds@[i] == h;
        source_is_collected(s.human_holds@, hold_rule(s, p), i);
        part_is_in_the_queue(s, me, p, prs, hold_rule(s, p)(h)->0);
        if known is Some && pr_of(s.known_prs@, h.number) is Some {
            if exists|i: int|
                0 <= i < s.known_prs@.len() && #[trigger] s.known_prs@[i] == known->0
                    && known->0.number == h.number && forall|j: int|
                    0 <= j < i ==> (#[trigger] s.known_prs@[j]).number != h.number {
                let a = choose|i: int|
                    0 <= i < s.known_prs@.len() && #[trigger] s.known_prs@[i] == known->0
                        && known->0.number == h.number && forall|j: int|
                        0 <= j < i ==> (#[trigger] s.known_prs@[j]).number != h.number;
                let b = choose|i: int|
                    0 <= i < s.known_prs@.len() && (#[trigger] s.known_prs@[i]).number == h.number
                        && s.known_prs@[i] == pr_of(s.known_prs@, h.number)->0 && (forall|j: int|
                        0 <= j < i ==> (#[trigger] s.known_prs@[j]).number != h.number);
                assert(a == b) by {
                    if a < b {
                        assert(s.known_prs@[a].number != h.number);
                    } else if b < a {
                        assert(s.known_prs@[b].number != h.number);
                    }
                }
            }
        }
    }
    let undone = InboxItem::RevertedWork { revert: e, can_act };
    if all.contains(undone) {
        let k = choose|k: int| 0 <= k < all.len() && all[k] == undone;
        item_has_source(s, me, p, prs, k);
        let i = choose|i: int|
            0 <= i < s.reverts@.len() && revert_rule(p)(#[trigger] s.reverts@[i]) == Some(undone);
        assert(s.reverts@[i] == e);
    }
    if s.reverts@.contains(e) && e.decision == RevertDecision::Pending && can_act == p.review {
        let i = choose|i: int| 0 <= i < s.reverts@.len() && s.reverts@[i] == e;
        source_is_collected(s.reverts@, revert_rule(p), i);
        part_is_in_the_queue(s, me, p, prs, undone);
    }
}

/// An open pull request shows once at most, and never beside its own hold. One that a review
/// approved shows as ready; one that was given up on after three fixes and a rescue shows as
/// stuck; any other shows as held where it could land. Where the forge did not answer, none shows.
pub proof fn an_open_pull_request_is_never_silent(
    s: InboxState,
    me: Seq<char>,
    p: Powers,
    prs: Option<Vec<OpenPr>>,
    pr: OpenPr,
)
    ensures
        ({
            let all = inbox(s, me, p, prs);
            let open = prs is Some && prs->0@.contains(pr);
            let eyes = exists|i: int|
                0 <= i < s.human_holds@.len() && (#[trigger] s.human_holds@[i]).number == pr.number;
            let yes = exists|i: int|
                0 <= i < s.reviews@.len() && (#[trigger] s.reviews@[i]).number == pr.number
                    && s.reviews@[i].decision@ == "approve"@;
            let ready = InboxItem::ReviewPr { pr, held: false, can_act: p.review };
            let waiting = InboxItem::ReviewPr { pr, held: true, can_act: p.review };
            let tried = count_of(s.fix_attempts@, pr.number);
            let stuck = InboxItem::PrStuck { pr, attempts: tried, can_act: p.review };
            let given_up = tried >= 3 && count_of(s.rescues@, pr.number) >= 1;
            &&& all.contains(ready) <==> open && !eyes && yes
            &&& all.contains(stuck) <==> open && !eyes && !yes && given_up
            &&& all.contains(waiting) <==> open && !eyes && !yes && !given_up && pr.mergeable
        }),
        (exists|i: int|
            0 <= i < s.fix_attempts@.len() && (#[trigger] s.fix_attempts@[i]).0 == pr.number
                && s.fix_attempts@[i].1 == count_of(s.fix_attempts@, pr.number) && (forall|j: int|
                0 <= j < i ==> (#[trigger] s.fix_attempts@[j]).0 != pr.number)) || (count_of(
            s.fix_attempts@,
            pr.number,
        ) == 0 && forall|j: int|
            0 <= j < s.fix_attempts@.len() ==> (#[trigger] s.fix_attempts@[j]).0 != pr.number),
{
    let all = inbox(s, me, p, prs);
    count_of_is_first(s.fix_attempts@, pr.number);
    let ready = InboxItem::ReviewPr { pr, held: false, can_act: p.review };
    let waiting = InboxItem::ReviewPr { pr, held: true, can_act: p.review };
    let stuck = InboxItem::PrStuck {
        pr,
        attempts: count_of(s.fix_attempts@, pr.number),
        can_act: p.review,
    };
    pr_shown_is_open(s, me, p, prs, ready, pr);
    pr_shown_is_open(s, me, p, prs, waiting, pr);
    pr_shown_is_open(s, me, p, prs, stuck, pr);
    if prs is Some && prs->0@.contains(pr) && pr_item(s, p, pr) is Some {
        let i = choose|i: int| 0 <= i < prs->0@.len() && prs->0@[i] == pr;
        source_is_collected(prs->0@, pr_rule(s, p), i);
        part_is_in_the_queue(s, me, p, prs, pr_item(s, p, pr)->0);
    }
}

proof fn pr_shown_is_open(
    s: InboxState,
    me: Seq<char>,
    p: Powers,
    prs: Option<Vec<OpenPr>>,
    item: InboxItem,
    pr: OpenPr,
)
    requires
        match item {
            InboxItem::ReviewPr { pr: x, .. } => x == pr,
            InboxItem::PrStuck { pr: x, .. } => x == pr,
            _ => false,
        },
    ensures
        inbox(s, me, p, prs).contains(item) ==> prs is Some && prs->0@.contains(pr) && pr_item(
            s,
            p,
            pr,
        ) == Some(item),
{
    let all = inbox(s, me, p, prs);
    if all.contains(item) {
        let k = choose|k: int| 0 <= k < all.len() && all[k] == item;
        item_has_source(s, me, p, prs, k);
        let i = choose|i: int|
            0 <= i < prs->0@.len() && pr_item(s, p, #[trigger] prs->0@[i]) == Some(item);
        assert(prs->0@[i] == pr);
    }
}

/// Where a kind of item stands in the queue.
pub open spec fn section_of(item: InboxItem) -> int {
    match item {
        InboxItem::AutoApproved { .. } => 1,
        InboxItem::Asked { .. } => 2,
        InboxItem::HumanEyes { .. } => 3,
        InboxItem::RevertedWork { .. } => 4,
        InboxItem::ReviewPr { .. } | InboxItem::PrStuck { .. } => 5,
        _ => 0,
    }
}

/// The queue is read from top to bottom: first what waits on tickets, in the order of the board,
/// then what can be undone, what was asked, what is held, what was undone, and the open pull
/// requests.
pub proof fn the_queue_keeps_its_order(
    s: InboxState,
    me: Seq<char>,
    p: Powers,
    prs: Option<Vec<OpenPr>>,
    k: int,
    l: int,
)
    requires
        0 <= k < l < inbox(s, me, p, prs).len(),
    ensures
        section_of(inbox(s, me, p, prs)[k]) <= section_of(inbox(s, me, p, prs)[l]),
        inbox(s, me, p, prs)[k] is Asked && inbox(s, me, p, prs)[l] is Asked ==> exists|
            i: int,
            j: int,
        |
            0 <= i < j < s.questions@.len() && #[trigger] s.questions@[i] == inbox(
                s,
                me,
                p,
                prs,
            )[k]->question && #[trigger] s.questions@[j] == inbox(s, me, p, prs)[l]->question,
        section_of(inbox(s, me, p, prs)[l]) == 0 ==> exists|i: int, j: int|
            0 <= i < j < s.tickets@.len() && ticket_item(s, me, p, #[trigger] s.tickets@[i])
                == Some(inbox(s, me, p, prs)[k]) && ticket_item(
                s,
                me,
                p,
                #[trigger] s.tickets@[j],
            ) == Some(inbox(s, me, p, prs)[l]),
{
    let a1 = collect(s.tickets@, ticket_rule(s, me, p));
    let a2 = collect(s.auto_approved@, auto_rule(s, p));
    let a3 = collect(s.questions@, question_rule(me));
    let a4 = collect(s.human_holds@, hold_rule(s, p));
    let a5 = collect(s.reverts@, revert_rule(p));
    let n1 = a1.len() as int;
    let n2 = n1 + a2.len();
    let n3 = n2 + a3.len();
    let n4 = n3 + a4.len();
    let n5 = n4 + a5.len();
    let all = inbox(s, me, p, prs);
    section_by_position(s, me, p, prs, k);
    section_by_position(s, me, p, prs, l);
    if l < n1 {
        collected_in_order(s.tickets@, ticket_rule(s, me, p), k, l);
        let (i, j) = choose|i: int, j: int|
            0 <= i < j < s.tickets@.len() && ticket_rule(s, me, p)(#[trigger] s.tickets@[i])
                == Some(a1[k]) && ticket_rule(s, me, p)(#[trigger] s.tickets@[j]) == Some(a1[l]);
        assert(ticket_item(s, me, p, s.tickets@[i]) == Some(all[k]));
        assert(ticket_item(s, me, p, s.tickets@[j]) == Some(all[l]));
    }
    if all[k] is Asked && all[l] is Asked {
        collected_in_order(s.questions@, question_rule(me), k - n2, l - n2);
        let (i, j) = choose|i: int, j: int|
            0 <= i < j < s.questions@.len() && question_rule(me)(#[trigger] s.questions@[i])
                == Some(a3[k - n2]) && question_rule(me)(#[trigger] s.questions@[j]) == Some(
                a3[l - n2],
            );
        assert(s.questions@[i] == all[k]->question);
        assert(s.questions@[j] == all[l]->question);
    }
}

proof fn section_by_position(
    s: InboxState,
    me: Seq<char>,
    p: Powers,
    prs: Option<Vec<OpenPr>>,
    k: int,
)
    requires
        0 <= k < inbox(s, me, p, prs).len(),
    ensures
        ({
            let n1 = collect(s.tickets@, ticket_rule(s, me, p)).len() as int;
            let n2 = n1 + collect(s.auto_approved@, auto_rule(s, p)).len();
            let n3 = n2 + collect(s.questions@, question_rule(me)).len();
            let n4 = n3 + collect(s.human_holds@, hold_rule(s, p)).len();
            let n5 = n4 + collect(s.reverts@, revert_rule(p)).len();
            section_of(inbox(s, me, p, prs)[k]) == if k < n1 {
                0int
            } else if k < n2 {
                1
            } else if k < n3 {
                2
            } else if k < n4 {
                3
            } else if k < n5 {
                4
            } else {
                5
            }
        }),
{
    let n1 = collect(s.tickets@, ticket_rule(s, me, p)).len() as int;
    let n2 = n1 + collect(s.auto_approved@, auto_rule(s, p)).len();
    let n3 = n2 + collect(s.questions@, question_rule(me)).len();
    let n4 = n3 + collect(s.human_holds@, hold_rule(s, p)).len();
    let n5 = n4 + collect(s.reverts@, revert_rule(p)).len();
    if k < n1 {
        collected_has_source(s.tickets@, ticket_rule(s, me, p), k);
    } else if k < n2 {
        collected_has_source(s.auto_approved@, auto_rule(s, p), k - n1);
    } else if k < n3 {
        collected_has_source(s.questions@, question_rule(me), k - n2);
    } else if k < n4 {
        collected_has_source(s.human_holds@, hold_rule(s, p), k - n3);
    } else if k < n5 {
        collected_has_source(s.reverts@, revert_rule(p), k - n4);
    } else {
        collected_has_source(prs->0@, pr_rule(s, p), k - n5);
    }
}

/// A verdict on undone work goes to the first event of that commit that is still pending.
pub proof fn the_first_pending_revert_is_decided(reverts: Seq<Revert>, sha: Seq<char>, i: int)
    requires
        0 <= i,
    ensures
        match pending_revert(reverts, sha, i) {
            Some(v) => i <= v < reverts.len() && reverts[v].sha@ == sha && reverts[v].decision
                == RevertDecision::Pending && (forall|j: int|
                i <= j < v ==> !((#[trigger] reverts[j]).sha@ == sha && reverts[j].decision == RevertDecision::Pending)),
            None => forall|j: int| i <= j < reverts.len() ==> !((#[trigger] reverts[j]).sha@ == sha && reverts[j].decision == RevertDecision::Pending),
        },
    decreases reverts.len() - i,
{
    if i < reverts.len() && !(reverts[i].sha@ == sha && reverts[i].decision == RevertDecision::Pending) {
        the_first_pending_revert_is_decided(reverts, sha, i + 1);
    }
}

/// Undone work is told by the ticket of the first event of its commit.
pub proof fn undone_work_is_told_by_its_ticket(reverts: Seq<Revert>, sha: Seq<char>, k: int)
    ensures
        0 <= k < reverts.len() && reverts[k].sha@ == sha && (forall|j: int|
            0 <= j < k ==> !((#[trigger] reverts[j]).sha@ == sha)) ==> revert_ticket(reverts, sha) == reverts[k].ticket@,
        (forall|j: int| 0 <= j < reverts.len() ==> !((#[trigger] reverts[j]).sha@ == sha)) ==> revert_ticket(reverts, sha) == Seq::<char>::empty(),
    decreases reverts.len(),
{
    if reverts.len() > 0 {
        let rest = reverts.skip(1);
        undone_work_is_told_by_its_ticket(rest, sha, k - 1);
        assert(forall|j: int| 0 <= j < rest.len() ==> #[trigger] rest[j] == reverts[j + 1]);
    }
}

/// A stored file has the type of the first record of its key, and is a mere row of bytes without one.
pub proof fn a_stored_file_has_the_type_of_its_record(files: Seq<Attachment>, key: Seq<char>, k: int)
    ensures
        0 <= k < files.len() && files[k].key@ == key && (forall|j: int|
            0 <= j < k ==> !((#[trigger] files[j]).key@ == key)) ==> type_of(files, key) == files[k].content_type@,
        (forall|j: int| 0 <= j < files.len() ==> !((#[trigger] files[j]).key@ == key)) ==> type_of(files, key) == "application/octet-stream"@,
    decreases files.len(),
{
    if files.len() > 0 {
        let rest = files.skip(1);
        a_stored_file_has_the_type_of_its_record(rest, key, k - 1);
        assert(forall|j: int| 0 <= j < rest.len() ==> #[trigger] rest[j] == files[j + 1]);
    }
}

/// The reason of a hold is the first that was given for its ticket.
pub proof fn a_hold_has_the_reason_given_first(pairs: Seq<(String, String)>, key: Seq<char>, k: int)
    ensures
        0 <= k < pairs.len() && pairs[k].0@ == key && (forall|j: int|
            0 <= j < k ==> !((#[trigger] pairs[j]).0@ == key)) ==> text_of(pairs, key) == Some(pairs[k].1),
        (forall|j: int| 0 <= j < pairs.len() ==> !((#[trigger] pairs[j]).0@ == key)) ==> text_of(pairs, key) == None::<String>,
    decreases pairs.len(),
{
    if pairs.len() > 0 {
        let rest = pairs.skip(1);
        a_hold_has_the_reason_given_first(rest, key, k - 1);
        assert(forall|j: int| 0 <= j < rest.len() ==> #[trigger] rest[j] == pairs[j + 1]);
    }
}

/// A count is the first that is kept for its number, and none is kept as nothing.
pub proof fn a_count_is_kept_by_its_number(pairs: Seq<(u64, u64)>, key: u64, k: int)
    ensures
        0 <= k < pairs.len() && pairs[k].0 == key && (forall|j: int|
            0 <= j < k ==> !((#[trigger] pairs[j]).0 == key)) ==> count_of(pairs, key) == pairs[k].1,
        (forall|j: int| 0 <= j < pairs.len() ==> !((#[trigger] pairs[j]).0 == key)) ==> count_of(pairs, key) == 0,
    decreases pairs.len(),
{
    if pairs.len() > 0 {
        let rest = pairs.skip(1);
        a_count_is_kept_by_its_number(rest, key, k - 1);
        assert(forall|j: int| 0 <= j < rest.len() ==> #[trigger] rest[j] == pairs[j + 1]);
    }
}

/// The files of a ticket stand in the first list that bears its identifier.
pub proof fn the_files_of_a_ticket_stand_in_its_first_list(all: Seq<(String, Vec<Attachment>)>, id: Seq<char>, i: int)
    requires
        0 <= i,
    ensures
        match entry_at(all, id, i) {
            Some(v) => i <= v < all.len() && all[v].0@ == id && (forall|j: int|
                i <= j < v ==> !((#[trigger] all[j]).0@ == id)),
            None => forall|j: int| i <= j < all.len() ==> !((#[trigger] all[j]).0@ == id),
        },
    decreases all.len() - i,
{
    if i < all.len() && !(all[i].0@ == id) {
        the_files_of_a_ticket_stand_in_its_first_list(all, id, i + 1);
    }
}

/// The files of a ticket are those of its list; a ticket without a list has none.
pub proof fn a_ticket_has_the_files_of_its_list(
    all: Seq<(String, Vec<Attachment>)>,
    k: int,
    id: Seq<char>,
)
    requires
        one_list_each(all),
    ensures
        0 <= k < all.len() ==> files_of(all, all[k].0@) == all[k].1@,
        (forall|j: int| 0 <= j < all.len() ==> (#[trigger] all[j]).0@ != id) ==> files_of(
            all,
            id,
        ).len() == 0,
{
    if 0 <= k < all.len() {
        entry_found(all, all[k].0@, 0);
        let found = entry_at(all, all[k].0@, 0);
        assert(found is Some);
        let m = found->0;
        if m < k {
            assert(all[m].0@ != all[k].0@);
        }
        if k < m {
            assert(all[k].0@ != all[m].0@);
        }
    }
    entry_found(all, id, 0);
}

/// Removing a file leaves the others, all of them and in their order.
pub proof fn the_other_files_stay(files: Seq<Attachment>, key: Seq<char>)
    ensures
        collect(files, other_file(key)) == files.filter(|a: Attachment| a.key@ != key),
{
    kept_is_filtered(files, other_file(key), |a: Attachment| a.key@ != key);
}

/// Settling a pull request leaves the other holds, all of them and in their order.
pub proof fn the_other_holds_stay(holds: Seq<Hold>, number: u64)
    ensures
        without(holds, number) == holds.filter(|h: Hold| h.number != number),
        is_held(holds, number) <==> exists|i: int|
            0 <= i < holds.len() && (#[trigger] holds[i]).number == number,
{
    kept_is_filtered(holds, keep_rule(number), |h: Hold| h.number != number);
}

/// A verdict is told by its name: what is neither of the two is no verdict.
pub proof fn a_verdict_is_told_by_its_name(action: Seq<char>)
    ensures
        spec_verdict(action) == Some(Verdict::Approve) <==> action == "approve"@,
        spec_verdict(action) == Some(Verdict::Dismiss) <==> action == "dismiss"@,
{
    reveal_strlit("approve");
    reveal_strlit("dismiss");
    assert("approve"@[0] == 'a' && "dismiss"@[0] == 'd');
}

/// Effort is counted by where a ticket went: a fix that was verified, a ticket that was made ready,
/// and nothing else.
pub proof fn effort_is_counted_by_where_a_ticket_went(to: Status)
    ensures
        transition_intervention(to) == Some(InterventionKind::VerifyPass) <==> to
            == Status::Verified,
        transition_intervention(to) == Some(InterventionKind::ReadyApprove) <==> to == Status::Ready,
        transition_intervention(to) is None <==> to != Status::Verified && to != Status::Ready,
{
}

/// A name that stands in a storage key is as long as the one that was given, keeps its letters,
/// digits, dots, dashes and underscores, and never parts the key.
pub proof fn a_safe_name_parts_no_key(s: Seq<char>, i: int)
    requires
        0 <= i < s.len(),
    ensures
        safe_name(s).len() == s.len(),
        ({
            let c = s[i];
            let kept = 'a' <= c <= 'z' || 'A' <= c <= 'Z' || '0' <= c <= '9' || c == '.' || c == '-'
                || c == '_';
            &&& kept ==> safe_name(s)[i] == c
            &&& !kept ==> safe_name(s)[i] == '-'
        }),
        !safe_name(s).contains('/'),
{
}

/// A storage key is taken exactly where it names something and never climbs.
pub proof fn a_key_never_climbs(key: Seq<char>)
    ensures
        good_key(key) <==> key.len() > 0 && forall|i: int|
            0 <= i < key.len() - 1 ==> !(#[trigger] key[i] == '.' && key[i + 1] == '.'),
{
    reveal_strlit("..");
    let dots = ".."@;
    a_text_is_found_where_it_first_stands(key, dots);
    if spec_contains(key, dots) {
        let j = choose|j: int|
            0 <= j && j + dots.len() <= key.len() && #[trigger] key.subrange(j, j + dots.len())
                == dots;
        let part = key.subrange(j, j + dots.len());
        assert(part[0] == key[j] && part[1] == key[j + 1]);
        assert(key[j] == '.' && key[j + 1] == '.');
    }
    if exists|i: int| 0 <= i < key.len() - 1 && #[trigger] key[i] == '.' && key[i + 1] == '.' {
        let i = choose|i: int| 0 <= i < key.len() - 1 && #[trigger] key[i] == '.' && key[i + 1] == '.';
        assert(key.subrange(i, i + dots.len()) =~= dots);
    }
}

/// The reason travels with a fix that is sent back, and so does who sent it.
pub proof fn the_reason_travels_with_the_fix(id: Seq<char>, me: Seq<char>, reason: Seq<char>)
    ensures
        spec_trim(reason).len() > 0 ==> exists|before: Seq<char>|
            send_back_text(id, me, reason) == #[trigger] (before + spec_trim(reason)),
        exists|before: Seq<char>, after: Seq<char>|
            send_back_text(id, me, reason) == #[trigger] (before + me + after),
        exists|before: Seq<char>, after: Seq<char>|
            send_back_text(id, me, reason) == #[trigger] (before + id + after),
{
    let text = send_back_text(id, me, reason);
    let lead = "↩️ "@ + id + " sent back by @"@;
    let end = if spec_trim(reason).len() == 0 {
        ": the fix is not demonstrated."@
    } else {
        ": "@ + spec_trim(reason)
    };
    assert(text =~= lead + me + end);
    assert(text =~= "↩️ "@ + id + (" sent back by @"@ + me + end));
    if spec_trim(reason).len() > 0 {
        assert(text =~= (lead + me + ": "@) + spec_trim(reason));
    }
}

/// An assignment names whom the ticket goes to; a blank name hands it back to the agents.
pub proof fn an_assignment_names_the_person(id: Seq<char>, username: Seq<char>)
    ensures
        spec_trim(username).len() > 0 ==> exists|before: Seq<char>|
            assignment_text(id, username) == #[trigger] (before + spec_trim(username) + "."@),
        spec_trim(username).len() == 0 ==> exists|before: Seq<char>|
            assignment_text(id, username) == #[trigger] (before + " returned to the agent pool."@),
{
    let text = assignment_text(id, username);
    if spec_trim(username).len() > 0 {
        assert(text =~= ("🧑‍💻 "@ + id + " assigned to @"@) + spec_trim(username) + "."@);
    } else {
        assert(text =~= ("↩️ "@ + id) + " returned to the agent pool."@);
    }
}

/// A move is refused for the role first, then for the load, then for the ticket and the board's own
/// rule; one that was made is refused for nothing.
pub proof fn a_refused_move_says_why(me: Option<String>, loaded: bool, moved: Moved, e: Refusal)
    requires
        move_refused(me, loaded, moved, e),
    ensures
        me is None || !loaded || !(moved is Done),
        e.status == 403 <==> me is None,
        e.status == 500 <==> me is Some && !loaded,
        e.status == 404 <==> me is Some && loaded && moved is NoSuchTicket,
        e.status == 409 <==> me is Some && loaded && moved is NotAllowed,
{
}

} // verus!
