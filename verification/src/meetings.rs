//! Meetings: booking, joining, ringing, and the watch that starts them.

use crate::clock::{parse_rfc3339, rfc3339_nanos, DAY, MINUTE};
use crate::lists::{
    collect, collect_step, collected_has_source, keep_marked, kept_is_filtered, marked_is_collected,
    source_is_collected,
};
use crate::order::{
    sort, sorted, sorting_adds_nothing, sorting_orders_and_keeps, text_le, text_le_is_an_order,
    text_leq, Ordered,
};
use crate::reply::{plain, Refusal};
use crate::text::{
    dedup, has_text, hex_fixed, join2, owned, same, spec_hex, spec_trim, texts, trim,
    without_repeats,
};
use vstd::prelude::*;

verus! {

/// A booked meeting. `start` is an RFC 3339 text.
#[derive(Clone, Debug)]
pub struct Meeting {
    pub id: String,
    pub title: String,
    pub start: String,
    pub duration_min: u32,
    pub created_by: String,
    pub participants: Vec<String>,
    /// Minutes before the start at which to remind; 0 means not at all.
    pub remind_min: u32,
    pub joined: Vec<String>,
    pub reminded: bool,
    pub start_announced: bool,
    pub auto_rang: bool,
    pub cancelled: bool,
    pub agenda: String,
}

/// What a person is told about a meeting.
#[derive(Clone, Copy, Debug, PartialEq, Eq, Structural)]
pub enum FrameKind {
    Invite,
    Remind,
    Start,
    Ring,
    Cancel,
}

impl FrameKind {
    pub open spec fn spec_label(self) -> Seq<char> {
        match self {
            FrameKind::Invite => "meeting-invite"@,
            FrameKind::Remind => "meeting-remind"@,
            FrameKind::Start => "meeting-start"@,
            FrameKind::Ring => "meeting-ring"@,
            FrameKind::Cancel => "meeting-cancel"@,
        }
    }

    /// The name of the kind on the wire.
    pub fn label(self) -> (r: &'static str)
        ensures
            r@ == self.spec_label(),
    {
        match self {
            FrameKind::Invite => "meeting-invite",
            FrameKind::Remind => "meeting-remind",
            FrameKind::Start => "meeting-start",
            FrameKind::Ring => "meeting-ring",
            FrameKind::Cancel => "meeting-cancel",
        }
    }
}

/// A message to one person about the meeting at position `at`.
#[derive(Clone, Debug)]
pub struct Frame {
    pub kind: FrameKind,
    pub to: String,
    pub at: usize,
}

/// The end of a meeting that starts at `start`.
pub open spec fn end_of(m: Meeting, start: i128) -> int {
    start + m.duration_min * MINUTE
}

/// Whether a meeting is still kept: until a day after its end, or while its start cannot be read.
pub open spec fn is_kept(m: Meeting, now: i128) -> bool {
    match rfc3339_nanos(m.start@) {
        None => true,
        Some(start) => now < end_of(m, start) + DAY,
    }
}

pub open spec fn kept_rule(now: i128) -> spec_fn(Meeting) -> Option<Meeting> {
    |m: Meeting|
        if is_kept(m, now) {
            Some(m)
        } else {
            None
        }
}

/// Whether the reminder is due now.
pub open spec fn remind_due(m: Meeting, now: i128) -> bool {
    match rfc3339_nanos(m.start@) {
        None => false,
        Some(start) => !m.cancelled && m.remind_min > 0 && !m.reminded && now >= start
            - m.remind_min * MINUTE && now < start,
    }
}

/// Whether the start is to be announced now.
pub open spec fn start_due(m: Meeting, now: i128) -> bool {
    match rfc3339_nanos(m.start@) {
        None => false,
        Some(start) => !m.cancelled && !m.start_announced && now >= start && now < end_of(m, start),
    }
}

/// Whether those who are missing are to be rung now: a minute in, once.
pub open spec fn ring_due(m: Meeting, now: i128) -> bool {
    match rfc3339_nanos(m.start@) {
        None => false,
        Some(start) => !m.cancelled && !m.auto_rang && now >= start + MINUTE && now < end_of(
            m,
            start,
        ),
    }
}

/// The meeting after a pass of the watch.
pub open spec fn watched(m: Meeting, now: i128) -> Meeting {
    Meeting {
        reminded: m.reminded || remind_due(m, now),
        start_announced: m.start_announced || start_due(m, now),
        auto_rang: m.auto_rang || ring_due(m, now),
        ..m
    }
}

/// A message of a kind to each of the first `n` people.
pub open spec fn frames_to(people: Seq<String>, n: int, kind: FrameKind, at: usize) -> Seq<Frame>
    decreases n,
{
    if n <= 0 {
        Seq::empty()
    } else {
        frames_to(people, n - 1, kind, at).push(Frame { kind, to: people[n - 1], at })
    }
}

/// A ring of each of the first `n` participants that have not joined.
pub open spec fn rings_to(m: Meeting, n: int, at: usize) -> Seq<Frame>
    decreases n,
{
    if n <= 0 {
        Seq::empty()
    } else {
        let init = rings_to(m, n - 1, at);
        if texts(m.joined@).contains(m.participants@[n - 1]@) {
            init
        } else {
            init.push(Frame { kind: FrameKind::Ring, to: m.participants@[n - 1], at })
        }
    }
}

/// What a pass sends about one meeting.
pub open spec fn watch_frames(m: Meeting, now: i128, at: usize) -> Seq<Frame> {
    let n = m.participants@.len() as int;
    (if remind_due(m, now) {
        frames_to(m.participants@, n, FrameKind::Remind, at)
    } else {
        Seq::empty()
    }) + (if start_due(m, now) {
        frames_to(m.participants@, n, FrameKind::Start, at)
    } else {
        Seq::empty()
    }) + (if ring_due(m, now) {
        rings_to(m, n, at)
    } else {
        Seq::empty()
    })
}

/// What a pass sends about the first `n` meetings.
pub open spec fn all_frames(meetings: Seq<Meeting>, n: int, now: i128) -> Seq<Frame>
    decreases n,
{
    if n <= 0 {
        Seq::empty()
    } else {
        all_frames(meetings, n - 1, now) + watch_frames(meetings[n - 1], now, (n - 1) as usize)
    }
}

fn send_all(people: &Vec<String>, kind: FrameKind, at: usize) -> (r: Vec<Frame>)
    ensures
        r@ == frames_to(people@, people@.len() as int, kind, at),
{
    let mut r: Vec<Frame> = Vec::new();
    let mut i: usize = 0;
    while i < people.len()
        invariant
            i <= people.len(),
            r@ == frames_to(people@, i as int, kind, at),
        decreases people.len() - i,
    {
        r.push(Frame { kind, to: people[i].clone(), at });
        i += 1;
    }
    r
}

fn ring_missing(m: &Meeting, at: usize) -> (r: Vec<Frame>)
    ensures
        r@ == rings_to(*m, m.participants@.len() as int, at),
{
    let mut r: Vec<Frame> = Vec::new();
    let mut i: usize = 0;
    while i < m.participants.len()
        invariant
            i <= m.participants.len(),
            r@ == rings_to(*m, i as int, at),
        decreases m.participants.len() - i,
    {
        if !has_text(&m.joined, m.participants[i].as_str()) {
            r.push(Frame { kind: FrameKind::Ring, to: m.participants[i].clone(), at });
        }
        i += 1;
    }
    r
}

/// What is due for a meeting.
struct Due {
    remind: bool,
    start: bool,
    ring: bool,
}

fn due(m: &Meeting, now: i128) -> (d: Due)
    ensures
        d.remind == remind_due(*m, now),
        d.start == start_due(*m, now),
        d.ring == ring_due(*m, now),
{
    match parse_rfc3339(m.start.as_str()) {
        None => Due { remind: false, start: false, ring: false },
        Some(start) => {
            let end: i128 = start + m.duration_min as i128 * MINUTE;
            let remind_at: i128 = start - m.remind_min as i128 * MINUTE;
            Due {
                remind: !m.cancelled && m.remind_min > 0 && !m.reminded && now >= remind_at && now
                    < start,
                start: !m.cancelled && !m.start_announced && now >= start && now < end,
                ring: !m.cancelled && !m.auto_rang && now >= start + MINUTE && now < end,
            }
        },
    }
}

fn still_kept(m: &Meeting, now: i128) -> (b: bool)
    ensures
        b == is_kept(*m, now),
{
    match parse_rfc3339(m.start.as_str()) {
        None => true,
        Some(start) => {
            let end: i128 = start + m.duration_min as i128 * MINUTE;
            now < end + DAY
        },
    }
}

fn prune(meetings: &mut Vec<Meeting>, now: i128) -> (changed: bool)
    ensures
        final(meetings)@ == collect(old(meetings)@, kept_rule(now)),
        changed == exists|j: int|
            0 <= j < old(meetings)@.len() && !is_kept(#[trigger] old(meetings)@[j], now),
{
    let ghost f = kept_rule(now);
    let mut keep: Vec<bool> = Vec::new();
    let mut changed = false;
    let mut i: usize = 0;
    while i < meetings.len()
        invariant
            i <= meetings.len(),
            keep.len() == i,
            meetings@ == old(meetings)@,
            forall|j: int| 0 <= j < i ==> keep@[j] == is_kept(#[trigger] meetings@[j], now),
            changed == exists|j: int| 0 <= j < i && !is_kept(#[trigger] meetings@[j], now),
        decreases meetings.len() - i,
    {
        let ghost before = changed;
        let k = still_kept(&meetings[i], now);
        keep.push(k);
        if !k {
            assert(!is_kept(meetings@[i as int], now));
            changed = true;
        }
        i += 1;
    }
    proof {
        marked_is_collected(meetings@, keep@, f);
    }
    keep_marked(meetings, &keep);
    changed
}

/// One pass of the watch: what is a day past its end goes; each meeting that is not cancelled
/// reminds before its start, announces its start, and rings once those who have not joined a
/// minute in. Tells what to send and whether anything changed.
pub fn watch_meetings(meetings: &mut Vec<Meeting>, now: i128) -> (r: (Vec<Frame>, bool))
    ensures
        ({
            let kept = collect(old(meetings)@, kept_rule(now));
            &&& final(meetings)@.len() == kept.len()
            &&& forall|j: int|
                0 <= j < kept.len() ==> #[trigger] final(meetings)@[j] == watched(kept[j], now)
            &&& r.0@ == all_frames(kept, kept.len() as int, now)
            &&& r.1 == ((exists|j: int|
                0 <= j < old(meetings)@.len() && !is_kept(#[trigger] old(meetings)@[j], now)) || (
            exists|j: int|
                0 <= j < kept.len() && (remind_due(#[trigger] kept[j], now) || start_due(
                    kept[j],
                    now,
                ) || ring_due(kept[j], now))))
        }),
{
    let pruned = prune(meetings, now);
    let ghost kept = meetings@;
    let mut frames: Vec<Frame> = Vec::new();
    let mut dirty = false;
    let mut i: usize = 0;
    while i < meetings.len()
        invariant
            i <= meetings.len(),
            meetings@.len() == kept.len(),
            forall|j: int| 0 <= j < i ==> #[trigger] meetings@[j] == watched(kept[j], now),
            forall|j: int| i <= j < kept.len() ==> #[trigger] meetings@[j] == kept[j],
            frames@ == all_frames(kept, i as int, now),
            dirty == exists|j: int|
                0 <= j < i && (remind_due(#[trigger] kept[j], now) || start_due(kept[j], now)
                    || ring_due(kept[j], now)),
        decreases meetings.len() - i,
    {
        assert(meetings@[i as int] == kept[i as int]);
        let d = due(&meetings[i], now);
        let ghost start_frames = frames@;
        let ghost m = kept[i as int];
        let mut batch: Vec<Frame> = Vec::new();
        if d.remind {
            let mut more = send_all(&meetings[i].participants, FrameKind::Remind, i);
            batch.append(&mut more);
        }
        if d.start {
            let mut more = send_all(&meetings[i].participants, FrameKind::Start, i);
            batch.append(&mut more);
        }
        if d.ring {
            let mut more = ring_missing(&meetings[i], i);
            batch.append(&mut more);
        }
        assert(batch@ =~= watch_frames(m, now, i));
        frames.append(&mut batch);
        if d.remind {
            meetings[i].reminded = true;
        }
        if d.start {
            meetings[i].start_announced = true;
        }
        if d.ring {
            meetings[i].auto_rang = true;
        }
        if d.remind || d.start || d.ring {
            assert(remind_due(kept[i as int], now) || start_due(kept[i as int], now) || ring_due(
                kept[i as int],
                now,
            ));
            dirty = true;
        }
        i += 1;
    }
    (frames, pruned || dirty)
}

/// Each message is sent once: after a pass, no later pass reminds, announces or rings again,
/// whenever it comes.
pub proof fn each_message_is_sent_once(m: Meeting, now: i128, later: i128)
    ensures
        remind_due(m, now) ==> !remind_due(watched(m, now), later),
        start_due(m, now) ==> !start_due(watched(m, now), later),
        ring_due(m, now) ==> !ring_due(watched(m, now), later),
{
}

/// A cancelled meeting is silent.
pub proof fn a_cancelled_meeting_is_silent(m: Meeting, now: i128, at: usize)
    requires
        m.cancelled,
    ensures
        watch_frames(m, now, at) == Seq::<Frame>::empty(),
        watched(m, now) == m,
{
    assert(watch_frames(m, now, at) =~= Seq::empty());
}

/// A meeting in a list that is sorted by its start.
#[derive(Clone, Debug)]
pub struct MeetingRef {
    pub start: String,
    /// The instant that the start names, where it names one.
    pub instant: Option<i128>,
    pub at: usize,
}

/// The sooner comes first; a start that names no instant comes last, by its text.
impl Ordered for MeetingRef {
    open spec fn le(self, other: MeetingRef) -> bool {
        match (self.instant, other.instant) {
            (Some(a), Some(b)) => a <= b,
            (Some(_), None) => true,
            (None, Some(_)) => false,
            (None, None) => text_le(self.start@, other.start@),
        }
    }

    fn leq(&self, other: &MeetingRef) -> (r: bool) {
        match (self.instant, other.instant) {
            (Some(a), Some(b)) => a <= b,
            (Some(_), None) => true,
            (None, Some(_)) => false,
            (None, None) => text_leq(self.start.as_str(), other.start.as_str()),
        }
    }

    proof fn total(a: MeetingRef, b: MeetingRef) {
        text_le_is_an_order(a.start@, b.start@, a.start@);
    }

    proof fn transitive(a: MeetingRef, b: MeetingRef, c: MeetingRef) {
        text_le_is_an_order(a.start@, b.start@, c.start@);
    }
}

/// Whether a person is in the meeting, as its organiser or a participant.
pub open spec fn takes_part(m: Meeting, user: Seq<char>) -> bool {
    m.created_by@ == user || texts(m.participants@).contains(user)
}

fn is_in(m: &Meeting, user: &str) -> (b: bool)
    ensures
        b == takes_part(*m, user@),
{
    same(m.created_by.as_str(), user) || has_text(&m.participants, user)
}

/// The meetings of a person among the first `n`.
pub open spec fn meetings_of(meetings: Seq<Meeting>, n: int, user: Seq<char>) -> Seq<MeetingRef>
    decreases n,
{
    if n <= 0 {
        Seq::empty()
    } else {
        let init = meetings_of(meetings, n - 1, user);
        let m = meetings[n - 1];
        if !m.cancelled && takes_part(m, user) {
            init.push(
                MeetingRef {
                    start: m.start,
                    instant: rfc3339_nanos(m.start@),
                    at: (n - 1) as usize,
                },
            )
        } else {
            init
        }
    }
}

/// The meetings that a person is part of, soonest first.
pub fn list_meetings(meetings: &Vec<Meeting>, user: &Option<String>) -> (r: Result<
    Vec<MeetingRef>,
    Refusal,
>)
    ensures
        match r {
            Ok(v) => user is Some && v@ == sorted(
                meetings_of(meetings@, meetings@.len() as int, user->0@),
            ),
            Err(e) => user is None && e.v() == (401u16, "sign in first"@, false),
        },
{
    let me = match user {
        None => {
            return Err(plain(401, "sign in first"));
        },
        Some(u) => u,
    };
    let mut r: Vec<MeetingRef> = Vec::new();
    let mut i: usize = 0;
    while i < meetings.len()
        invariant
            i <= meetings.len(),
            r@ == meetings_of(meetings@, i as int, me@),
        decreases meetings.len() - i,
    {
        if !meetings[i].cancelled && is_in(&meetings[i], me.as_str()) {
            r.push(
                MeetingRef {
                    start: meetings[i].start.clone(),
                    instant: parse_rfc3339(meetings[i].start.as_str()),
                    at: i,
                },
            );
        }
        i += 1;
    }
    Ok(sort(r))
}

pub open spec fn name_rule() -> spec_fn(Seq<char>) -> Option<Seq<char>> {
    |p: Seq<char>|
        if spec_trim(p).len() > 0 {
            Some(spec_trim(p))
        } else {
            None
        }
}

/// Who takes part: the names that are not blank, trimmed, the organiser among them.
pub open spec fn invited(names: Seq<Seq<char>>, organiser: Seq<char>) -> Seq<Seq<char>> {
    let kept = collect(names, name_rule());
    without_repeats(
        if kept.contains(organiser) {
            kept
        } else {
            kept.push(organiser)
        },
    )
}

fn trimmed_names(names: &Vec<String>) -> (r: Vec<String>)
    ensures
        texts(r@) == collect(texts(names@), name_rule()),
{
    broadcast use crate::text::texts_push, crate::text::texts_empty;

    let ghost all = texts(names@);
    let ghost f = name_rule();
    let mut r: Vec<String> = Vec::new();
    let mut i: usize = 0;
    assert(all.take(0) =~= Seq::empty());
    while i < names.len()
        invariant
            i <= names.len(),
            all == texts(names@),
            f == name_rule(),
            texts(r@) == collect(all.take(i as int), f),
        decreases names.len() - i,
    {
        proof {
            collect_step(all, f, i as int);
        }
        let t = trim(names[i].as_str());
        assert(t@ == spec_trim(all[i as int]));
        if !t.as_str().is_empty() {
            r.push(t);
        }
        i += 1;
    }
    assert(all.take(all.len() as int) =~= all);
    r
}

fn invitees(names: &Vec<String>, organiser: &str) -> (r: Vec<String>)
    ensures
        texts(r@) == invited(texts(names@), organiser@),
{
    broadcast use crate::text::texts_push;

    let mut kept = trimmed_names(names);
    if !has_text(&kept, organiser) {
        kept.push(owned(organiser));
    }
    dedup(&kept)
}

/// A request to book a meeting.
#[derive(Clone, Debug)]
pub struct MeetingReq {
    pub title: String,
    pub start: String,
    pub duration_min: Option<u32>,
    pub participants: Vec<String>,
    pub remind_min: Option<u32>,
    pub agenda: Option<String>,
}

/// A length in minutes within bounds.
pub open spec fn bounded(n: u32, low: u32, high: u32) -> u32 {
    if n < low {
        low
    } else if n > high {
        high
    } else {
        n
    }
}

fn clamp(n: u32, low: u32, high: u32) -> (r: u32)
    ensures
        r == bounded(n, low, high),
{
    if n < low {
        low
    } else if n > high {
        high
    } else {
        n
    }
}

/// Why a booking is refused.
pub open spec fn booking_refusal(req: MeetingReq, user: Option<String>, now: i128) -> Option<
    (u16, Seq<char>, bool),
> {
    let title = spec_trim(req.title@);
    if user is None {
        Some((401, "sign in first"@, false))
    } else if title.len() == 0 || title.len() > 120 {
        Some((400, "title is required (≤120 chars)"@, false))
    } else {
        match rfc3339_nanos(req.start@) {
            None => Some((400, "start must be RFC3339"@, false)),
            Some(start) => if start + MINUTE < now {
                Some((400, "start is in the past"@, false))
            } else {
                None
            },
        }
    }
}

/// Books a meeting: the organiser always takes part. `random` makes the identifier.
pub fn book_meeting(req: &MeetingReq, user: &Option<String>, now: i128, random: u32) -> (r: Result<
    Meeting,
    Refusal,
>)
    ensures
        match r {
            Err(e) => booking_refusal(*req, *user, now) == Some(e.v()),
            Ok(m) => {
                &&& booking_refusal(*req, *user, now) is None
                &&& m.id@ == "mtg-"@ + spec_hex(random as nat, 8)
                &&& m.title@ == spec_trim(req.title@)
                &&& m.start == req.start
                &&& m.duration_min == bounded(
                    match req.duration_min {
                        Some(d) => d,
                        None => 30,
                    },
                    5,
                    480,
                )
                &&& m.created_by == user->0
                &&& texts(m.participants@) == invited(texts(req.participants@), user->0@)
                &&& m.remind_min == bounded(
                    match req.remind_min {
                        Some(d) => d,
                        None => 10,
                    },
                    0,
                    1440,
                )
                &&& m.joined@.len() == 0
                &&& !m.reminded && !m.start_announced && !m.auto_rang && !m.cancelled
                &&& m.agenda@ == match req.agenda {
                    Some(a) => a@,
                    None => Seq::empty(),
                }
            },
        },
{
    let me = match user {
        None => {
            return Err(plain(401, "sign in first"));
        },
        Some(u) => u,
    };
    let title = trim(req.title.as_str());
    let len: usize = title.as_str().unicode_len();
    if len == 0 || len > 120 {
        return Err(plain(400, "title is required (≤120 chars)"));
    }
    match parse_rfc3339(req.start.as_str()) {
        None => {
            return Err(plain(400, "start must be RFC3339"));
        },
        Some(start) => {
            if start + MINUTE < now {
                return Err(plain(400, "start is in the past"));
            }
        },
    }
    let digits = hex_fixed(random as u64, 8);
    let duration: u32 = match req.duration_min {
        Some(d) => d,
        None => 30,
    };
    let remind: u32 = match req.remind_min {
        Some(d) => d,
        None => 10,
    };
    Ok(
        Meeting {
            id: join2("mtg-", digits.as_str()),
            title,
            start: req.start.clone(),
            duration_min: clamp(duration, 5, 480),
            created_by: me.clone(),
            participants: invitees(&req.participants, me.as_str()),
            remind_min: clamp(remind, 0, 1440),
            joined: Vec::new(),
            reminded: false,
            start_announced: false,
            auto_rang: false,
            cancelled: false,
            agenda: match &req.agenda {
                Some(a) => a.clone(),
                None => String::new(),
            },
        },
    )
}

/// The position of the first meeting with that identifier.
pub open spec fn meeting_index(meetings: Seq<Meeting>, id: Seq<char>, i: int) -> Option<int>
    decreases meetings.len() - i,
{
    if i < 0 || i >= meetings.len() {
        None
    } else if meetings[i].id@ == id {
        Some(i)
    } else {
        meeting_index(meetings, id, i + 1)
    }
}

fn find_meeting(meetings: &Vec<Meeting>, id: &str) -> (r: Option<usize>)
    ensures
        match r {
            Some(i) => i < meetings.len() && meeting_index(meetings@, id@, 0) == Some(i as int),
            None => meeting_index(meetings@, id@, 0) is None,
        },
{
    let mut i: usize = 0;
    while i < meetings.len()
        invariant
            i <= meetings.len(),
            meeting_index(meetings@, id@, 0) == meeting_index(meetings@, id@, i as int),
        decreases meetings.len() - i,
    {
        if same(meetings[i].id.as_str(), id) {
            return Some(i);
        }
        i += 1;
    }
    None
}

/// A change to a meeting.
#[derive(Clone, Debug)]
pub struct MeetingPatch {
    pub cancel: Option<bool>,
    pub title: Option<String>,
    pub start: Option<String>,
    pub duration_min: Option<u32>,
    pub participants: Option<Vec<String>>,
    pub agenda: Option<String>,
}

/// Whether a change moves the meeting: to a start that can be read.
pub open spec fn moves(p: MeetingPatch) -> bool {
    p.start is Some && rfc3339_nanos(p.start->0@) is Some
}

/// Whether the meeting after is what the change makes of the one before. A cancellation changes
/// nothing else; a meeting that moves reminds, announces and rings again.
pub open spec fn patched(was: Meeting, p: MeetingPatch, m: Meeting) -> bool {
    if p.cancel == Some(true) {
        m == (Meeting { cancelled: true, ..was })
    } else {
        &&& m.id == was.id && m.created_by == was.created_by && m.remind_min == was.remind_min
            && m.joined == was.joined && m.cancelled == was.cancelled
        &&& m.title@ == if p.title is Some && spec_trim(p.title->0@).len() > 0 {
            spec_trim(p.title->0@)
        } else {
            was.title@
        }
        &&& m.start@ == if moves(p) {
            p.start->0@
        } else {
            was.start@
        }
        &&& m.reminded == (was.reminded && !moves(p))
        &&& m.start_announced == (was.start_announced && !moves(p))
        &&& m.auto_rang == (was.auto_rang && !moves(p))
        &&& m.duration_min == match p.duration_min {
            Some(d) => bounded(d, 5, 480),
            None => was.duration_min,
        }
        &&& match p.participants {
            Some(names) => texts(m.participants@) == invited(texts(names@), was.created_by@),
            None => m.participants == was.participants,
        }
        &&& match p.agenda {
            Some(a) => m.agenda@ == a@,
            None => m.agenda == was.agenda,
        }
    }
}

/// Who asks for a change.
#[derive(Clone, Debug)]
pub struct Caller {
    pub username: String,
    pub may_manage: bool,
}

/// Why a change is refused.
pub open spec fn patch_refusal(
    meetings: Seq<Meeting>,
    accounts: bool,
    caller: Option<Caller>,
    id: Seq<char>,
) -> Option<(u16, Seq<char>, bool)> {
    if !accounts {
        Some((501, "auth not configured"@, false))
    } else if caller is None {
        Some((401, "sign in first"@, false))
    } else {
        match meeting_index(meetings, id, 0) {
            None => Some((404, "no such meeting"@, false)),
            Some(i) => if meetings[i].created_by@ != caller->0.username@ && !caller->0.may_manage {
                Some((403, "only the organiser can change this"@, false))
            } else {
                None
            },
        }
    }
}

/// Changes or cancels a meeting: its organiser may, and who manages. Returns its position.
pub fn patch_meeting(
    meetings: &mut Vec<Meeting>,
    accounts: bool,
    caller: &Option<Caller>,
    id: &str,
    p: &MeetingPatch,
) -> (r: Result<usize, Refusal>)
    ensures
        match r {
            Err(e) => final(meetings)@ == old(meetings)@ && patch_refusal(
                old(meetings)@,
                accounts,
                *caller,
                id@,
            ) == Some(e.v()),
            Ok(i) => {
                &&& patch_refusal(old(meetings)@, accounts, *caller, id@) is None
                &&& meeting_index(old(meetings)@, id@, 0) == Some(i as int)
                &&& final(meetings)@.len() == old(meetings)@.len()
                &&& forall|j: int|
                    0 <= j < old(meetings)@.len() && j != i ==> final(meetings)@[j] == old(
                        meetings,
                    )@[j]
                &&& patched(old(meetings)@[i as int], *p, final(meetings)@[i as int])
            },
        },
{
    if !accounts {
        return Err(plain(501, "auth not configured"));
    }
    let who = match caller {
        None => {
            return Err(plain(401, "sign in first"));
        },
        Some(c) => c,
    };
    let i = match find_meeting(meetings, id) {
        None => {
            return Err(plain(404, "no such meeting"));
        },
        Some(i) => i,
    };
    if !same(meetings[i].created_by.as_str(), who.username.as_str()) && !who.may_manage {
        return Err(plain(403, "only the organiser can change this"));
    }
    let cancel = match p.cancel {
        Some(c) => c,
        None => false,
    };
    if cancel {
        meetings[i].cancelled = true;
        return Ok(i);
    }
    if let Some(t) = &p.title {
        let t = trim(t.as_str());
        if !t.as_str().is_empty() {
            meetings[i].title = t;
        }
    }
    if let Some(s) = &p.start {
        if parse_rfc3339(s.as_str()).is_some() {
            meetings[i].start = s.clone();
            meetings[i].reminded = false;
            meetings[i].start_announced = false;
            meetings[i].auto_rang = false;
        }
    }
    if let Some(d) = p.duration_min {
        meetings[i].duration_min = clamp(d, 5, 480);
    }
    if let Some(names) = &p.participants {
        let list = invitees(names, meetings[i].created_by.as_str());
        meetings[i].participants = list;
    }
    if let Some(a) = &p.agenda {
        meetings[i].agenda = a.clone();
    }
    Ok(i)
}

/// A meeting that moves is announced again at its new time: nothing of what was sent before
/// keeps it silent.
pub proof fn a_moved_meeting_is_announced_again(
    was: Meeting,
    p: MeetingPatch,
    m: Meeting,
    now: i128,
)
    requires
        patched(was, p, m),
        p.cancel != Some(true),
        moves(p),
        !was.cancelled,
        rfc3339_nanos(p.start->0@)->0 <= now < end_of(m, rfc3339_nanos(p.start->0@)->0),
    ensures
        start_due(m, now),
{
}

/// What entering a meeting takes.
pub open spec fn entry_refusal(meetings: Seq<Meeting>, user: Option<String>, id: Seq<char>) -> Option<
    (u16, Seq<char>, bool),
> {
    if user is None {
        Some((401, "sign in first"@, false))
    } else {
        match meeting_index(meetings, id, 0) {
            None => Some((404, "no such meeting"@, false)),
            Some(i) => if !takes_part(meetings[i], user->0@) {
                Some((403, "not invited"@, false))
            } else {
                None
            },
        }
    }
}

fn admit_entry(meetings: &Vec<Meeting>, user: &Option<String>, id: &str) -> (r: Result<
    usize,
    Refusal,
>)
    ensures
        match r {
            Err(e) => entry_refusal(meetings@, *user, id@) == Some(e.v()),
            Ok(i) => entry_refusal(meetings@, *user, id@) is None && user is Some && i
                < meetings.len() && meeting_index(meetings@, id@, 0) == Some(i as int),
        },
{
    let me = match user {
        None => {
            return Err(plain(401, "sign in first"));
        },
        Some(u) => u,
    };
    match find_meeting(meetings, id) {
        None => Err(plain(404, "no such meeting")),
        Some(i) => if !is_in(&meetings[i], me.as_str()) {
            Err(plain(403, "not invited"))
        } else {
            Ok(i)
        },
    }
}

/// Enters a meeting: the caller counts as joined, once. Returns its position.
pub fn join_meeting(meetings: &mut Vec<Meeting>, user: &Option<String>, id: &str) -> (r: Result<
    usize,
    Refusal,
>)
    ensures
        match r {
            Err(e) => final(meetings)@ == old(meetings)@ && entry_refusal(
                old(meetings)@,
                *user,
                id@,
            ) == Some(e.v()),
            Ok(i) => {
                &&& entry_refusal(old(meetings)@, *user, id@) is None
                &&& meeting_index(old(meetings)@, id@, 0) == Some(i as int)
                &&& final(meetings)@.len() == old(meetings)@.len()
                &&& forall|j: int|
                    0 <= j < old(meetings)@.len() && j != i ==> final(meetings)@[j] == old(
                        meetings,
                    )@[j]
                &&& final(meetings)@[i as int] == (Meeting {
                    joined: final(meetings)@[i as int].joined,
                    ..old(meetings)@[i as int]
                })
                &&& texts(final(meetings)@[i as int].joined@) == if texts(
                    old(meetings)@[i as int].joined@,
                ).contains(user->0@) {
                    texts(old(meetings)@[i as int].joined@)
                } else {
                    texts(old(meetings)@[i as int].joined@).push(user->0@)
                }
            },
        },
{
    broadcast use crate::text::texts_push;

    let i = match admit_entry(meetings, user, id) {
        Err(e) => {
            return Err(e);
        },
        Ok(i) => i,
    };
    if let Some(me) = user {
        if !has_text(&meetings[i].joined, me.as_str()) {
            let name = me.clone();
            meetings[i].joined.push(name);
        }
    }
    Ok(i)
}

/// Rings one participant: anyone in the meeting may, and only those invited can be rung.
pub fn ring_participant(
    meetings: &Vec<Meeting>,
    user: &Option<String>,
    id: &str,
    target: &str,
) -> (r: Result<Frame, Refusal>)
    ensures
        match r {
            Ok(f) => entry_refusal(meetings@, *user, id@) is None && meeting_index(
                meetings@,
                id@,
                0,
            ) == Some(f.at as int) && texts(meetings@[f.at as int].participants@).contains(target@)
                && f.kind == FrameKind::Ring && f.to@ == target@,
            Err(e) => if entry_refusal(meetings@, *user, id@) is Some {
                entry_refusal(meetings@, *user, id@) == Some(e.v())
            } else {
                !texts(
                    meetings@[meeting_index(meetings@, id@, 0)->0].participants@,
                ).contains(target@) && e.v() == (400u16, "target is not a participant"@, false)
            },
        },
{
    let i = match admit_entry(meetings, user, id) {
        Err(e) => {
            return Err(e);
        },
        Ok(i) => i,
    };
    if !has_text(&meetings[i].participants, target) {
        return Err(plain(400, "target is not a participant"));
    }
    Ok(Frame { kind: FrameKind::Ring, to: owned(target), at: i })
}

/// The invitations that a booking sends: to everyone but the organiser.
pub open spec fn invitations(people: Seq<String>, n: int, organiser: Seq<char>, at: usize) -> Seq<Frame>
    decreases n,
{
    if n <= 0 {
        Seq::empty()
    } else {
        let init = invitations(people, n - 1, organiser, at);
        if people[n - 1]@ == organiser {
            init
        } else {
            init.push(Frame { kind: FrameKind::Invite, to: people[n - 1], at })
        }
    }
}

/// Invites everyone but the organiser to the meeting at a position.
pub fn invite_all(m: &Meeting, at: usize) -> (r: Vec<Frame>)
    ensures
        r@ == invitations(m.participants@, m.participants@.len() as int, m.created_by@, at),
{
    let mut r: Vec<Frame> = Vec::new();
    let mut i: usize = 0;
    while i < m.participants.len()
        invariant
            i <= m.participants.len(),
            r@ == invitations(m.participants@, i as int, m.created_by@, at),
        decreases m.participants.len() - i,
    {
        if !same(m.participants[i].as_str(), m.created_by.as_str()) {
            r.push(Frame { kind: FrameKind::Invite, to: m.participants[i].clone(), at });
        }
        i += 1;
    }
    r
}

/// Tells every participant that the meeting at a position is cancelled.
pub fn cancel_frames(m: &Meeting, at: usize) -> (r: Vec<Frame>)
    ensures
        r@ == frames_to(m.participants@, m.participants@.len() as int, FrameKind::Cancel, at),
{
    send_all(&m.participants, FrameKind::Cancel, at)
}

/// What a change of the meeting at a position sends: a cancellation is told to every participant,
/// another change to nobody.
pub fn patch_frames(m: &Meeting, at: usize, p: &MeetingPatch) -> (r: Vec<Frame>)
    ensures
        r@ == if p.cancel == Some(true) {
            frames_to(m.participants@, m.participants@.len() as int, FrameKind::Cancel, at)
        } else {
            Seq::empty()
        },
{
    match p.cancel {
        Some(true) => cancel_frames(m, at),
        _ => Vec::new(),
    }
}

/// When those who are missing are rung, a ring goes to each participant who has not joined, and to
/// nobody else.
pub proof fn only_the_missing_are_rung(m: Meeting, at: usize)
    ensures
        rings_to(m, m.participants@.len() as int, at) == m.participants@.filter(
            |p: String| !texts(m.joined@).contains(p@),
        ).map_values(|p: String| Frame { kind: FrameKind::Ring, to: p, at }),
{
    rings_are_filtered(m, m.participants@.len() as int, at);
    assert(m.participants@.take(m.participants@.len() as int) =~= m.participants@);
}

proof fn rings_are_filtered(m: Meeting, n: int, at: usize)
    requires
        0 <= n <= m.participants@.len(),
    ensures
        rings_to(m, n, at) == m.participants@.take(n).filter(
            |p: String| !texts(m.joined@).contains(p@),
        ).map_values(|p: String| Frame { kind: FrameKind::Ring, to: p, at }),
    decreases n,
{
    reveal(Seq::filter);
    let keep = |p: String| !texts(m.joined@).contains(p@);
    let make = |p: String| Frame { kind: FrameKind::Ring, to: p, at };
    let now = m.participants@.take(n);
    if n == 0 {
        assert(rings_to(m, n, at) =~= now.filter(keep).map_values(make));
    } else {
        rings_are_filtered(m, n - 1, at);
        assert(now.drop_last() =~= m.participants@.take(n - 1));
        let init = m.participants@.take(n - 1).filter(keep);
        assert(init.push(now.last()).map_values(make) =~= init.map_values(make).push(
            make(now.last()),
        ));
    }
}

proof fn frames_are_mapped(people: Seq<String>, n: int, kind: FrameKind, at: usize)
    requires
        0 <= n <= people.len(),
    ensures
        frames_to(people, n, kind, at) == people.take(n).map_values(
            |p: String| Frame { kind, to: p, at },
        ),
    decreases n,
{
    let make = |p: String| Frame { kind, to: p, at };
    if n > 0 {
        frames_are_mapped(people, n - 1, kind, at);
    }
    assert(frames_to(people, n, kind, at) =~= people.take(n).map_values(make));
}

/// Whether a pass tells a person of a meeting, and what: a reminder in the minutes before the
/// start that the meeting asks for, the start while the meeting runs, a ring from a minute in
/// while it runs. Each goes out once, to participants alone, the ring to those who have not
/// joined; a meeting that was cancelled or whose start cannot be read sends nothing.
pub proof fn each_person_is_told_in_time(m: Meeting, now: i128, at: usize, f: Frame)
    ensures
        watch_frames(m, now, at).contains(f) <==> {
            &&& f.at == at
            &&& m.participants@.contains(f.to)
            &&& !m.cancelled
            &&& rfc3339_nanos(m.start@) is Some
            &&& match f.kind {
                FrameKind::Remind => {
                    &&& m.remind_min > 0 && !m.reminded
                    &&& rfc3339_nanos(m.start@)->0 - m.remind_min * 60_000_000_000 <= now
                        < rfc3339_nanos(m.start@)->0
                },
                FrameKind::Start => {
                    &&& !m.start_announced
                    &&& rfc3339_nanos(m.start@)->0 <= now < rfc3339_nanos(m.start@)->0
                        + m.duration_min * 60_000_000_000
                },
                FrameKind::Ring => {
                    &&& !m.auto_rang
                    &&& rfc3339_nanos(m.start@)->0 + 60_000_000_000 <= now < rfc3339_nanos(
                        m.start@,
                    )->0 + m.duration_min * 60_000_000_000
                    &&& !texts(m.joined@).contains(f.to@)
                },
                _ => false,
            }
        },
{
    let n = m.participants@.len() as int;
    let all = watch_frames(m, now, at);
    let a = if remind_due(m, now) {
        frames_to(m.participants@, n, FrameKind::Remind, at)
    } else {
        Seq::empty()
    };
    let b = if start_due(m, now) {
        frames_to(m.participants@, n, FrameKind::Start, at)
    } else {
        Seq::empty()
    };
    let c = if ring_due(m, now) {
        rings_to(m, n, at)
    } else {
        Seq::empty()
    };
    assert(all == a + b + c);
    assert(m.participants@.take(n) =~= m.participants@);
    frames_are_mapped(m.participants@, n, FrameKind::Remind, at);
    frames_are_mapped(m.participants@, n, FrameKind::Start, at);
    ring_is_to_the_missing(m, n, at, f);
    if all.contains(f) {
        let k = choose|k: int| 0 <= k < all.len() && all[k] == f;
        if k < a.len() {
            assert(a[k] == f && m.participants@[k] == f.to);
        } else if k < a.len() + b.len() {
            assert(b[k - a.len()] == f && m.participants@[k - a.len()] == f.to);
        } else {
            assert(c[k - a.len() - b.len()] == f);
            assert(c.contains(f));
        }
    }
    if f.at == at && m.participants@.contains(f.to) {
        let i = choose|i: int| 0 <= i < m.participants@.len() && m.participants@[i] == f.to;
        if remind_due(m, now) && f.kind == FrameKind::Remind {
            assert(a[i] == f);
            assert(all[i] == f);
        }
        if start_due(m, now) && f.kind == FrameKind::Start {
            assert(b[i] == f);
            assert(all[a.len() + i] == f);
        }
        if ring_due(m, now) && f.kind == FrameKind::Ring && !texts(m.joined@).contains(f.to@) {
            let k = choose|k: int| 0 <= k < c.len() && c[k] == f;
            assert(all[a.len() + b.len() + k] == f);
        }
    }
}

proof fn ring_is_to_the_missing(m: Meeting, n: int, at: usize, f: Frame)
    requires
        0 <= n <= m.participants@.len(),
    ensures
        rings_to(m, n, at).contains(f) <==> f.kind == FrameKind::Ring && f.at == at
            && m.participants@.take(n).contains(f.to) && !texts(m.joined@).contains(f.to@),
    decreases n,
{
    let now = m.participants@.take(n);
    if n > 0 {
        ring_is_to_the_missing(m, n - 1, at, f);
        let before = m.participants@.take(n - 1);
        let init = rings_to(m, n - 1, at);
        let r = rings_to(m, n, at);
        assert(now =~= before.push(m.participants@[n - 1]));
        if init.contains(f) {
            let k = choose|k: int| 0 <= k < init.len() && init[k] == f;
            assert(r[k] == f);
        }
        if before.contains(f.to) {
            let k = choose|k: int| 0 <= k < before.len() && before[k] == f.to;
            assert(now[k] == f.to);
        }
        assert(now[n - 1] == m.participants@[n - 1]);
        if r.contains(f) && !init.contains(f) {
            let k = choose|k: int| 0 <= k < r.len() && r[k] == f;
            if k < init.len() {
                assert(init[k] == f);
            }
        }
        if now.contains(f.to) && !before.contains(f.to) {
            let k = choose|k: int| 0 <= k < now.len() && now[k] == f.to;
            if k < n - 1 {
                assert(before[k] == f.to);
            }
            if f.kind == FrameKind::Ring && f.at == at && !texts(m.joined@).contains(f.to@) {
                assert(r.last() == f);
                assert(r[r.len() - 1] == f);
            }
        }
    }
}

/// A pass tells of every meeting what is due for it, and of nothing else.
pub proof fn every_meeting_is_watched(meetings: Seq<Meeting>, now: i128, f: Frame)
    requires
        meetings.len() <= usize::MAX,
    ensures
        all_frames(meetings, meetings.len() as int, now).contains(f) <==> f.at < meetings.len()
            && watch_frames(meetings[f.at as int], now, f.at).contains(f),
{
    frames_of_the_first(meetings, meetings.len() as int, now, f);
}

proof fn frames_of_the_first(meetings: Seq<Meeting>, n: int, now: i128, f: Frame)
    requires
        0 <= n <= meetings.len() <= usize::MAX,
    ensures
        all_frames(meetings, n, now).contains(f) <==> f.at < n && watch_frames(
            meetings[f.at as int],
            now,
            f.at,
        ).contains(f),
    decreases n,
{
    if n > 0 {
        frames_of_the_first(meetings, n - 1, now, f);
        let a = all_frames(meetings, n - 1, now);
        let at = (n - 1) as usize;
        let b = watch_frames(meetings[n - 1], now, at);
        each_person_is_told_in_time(meetings[n - 1], now, at, f);
        let r = all_frames(meetings, n, now);
        assert(r == a + b);
        if a.contains(f) {
            let k = choose|k: int| 0 <= k < a.len() && a[k] == f;
            assert(r[k] == f);
        }
        if b.contains(f) {
            let k = choose|k: int| 0 <= k < b.len() && b[k] == f;
            assert(r[a.len() + k] == f);
        }
        if r.contains(f) {
            let k = choose|k: int| 0 <= k < r.len() && r[k] == f;
            if k < a.len() {
                assert(a[k] == f);
            } else {
                assert(b[k - a.len()] == f);
            }
        }
    }
}

/// A pass marks what it sent, and changes nothing else of a meeting: who has somebody to tell is
/// marked as told.
pub proof fn a_pass_marks_what_it_sent(m: Meeting, now: i128, at: usize, f: Frame)
    requires
        watch_frames(m, now, at).contains(f),
    ensures
        f.kind == FrameKind::Remind ==> watched(m, now).reminded && !m.reminded,
        f.kind == FrameKind::Start ==> watched(m, now).start_announced && !m.start_announced,
        f.kind == FrameKind::Ring ==> watched(m, now).auto_rang && !m.auto_rang,
        watched(m, now) == (Meeting {
            reminded: watched(m, now).reminded,
            start_announced: watched(m, now).start_announced,
            auto_rang: watched(m, now).auto_rang,
            ..m
        }),
{
    each_person_is_told_in_time(m, now, at, f);
}

/// What was not due stays as it was: before the reminder's time a pass marks nothing, and what was
/// marked stays marked.
pub proof fn nothing_is_marked_too_early(m: Meeting, now: i128)
    ensures
        m.reminded ==> watched(m, now).reminded,
        m.start_announced ==> watched(m, now).start_announced,
        m.auto_rang ==> watched(m, now).auto_rang,
        rfc3339_nanos(m.start@) is Some && now < rfc3339_nanos(m.start@)->0 - m.remind_min
            * 60_000_000_000 ==> watched(m, now) == m,
        rfc3339_nanos(m.start@) is Some && now < rfc3339_nanos(m.start@)->0 ==> watched(
            m,
            now,
        ).start_announced == m.start_announced && watched(m, now).auto_rang == m.auto_rang,
        rfc3339_nanos(m.start@) is Some && now < rfc3339_nanos(m.start@)->0 + 60_000_000_000
            ==> watched(m, now).auto_rang == m.auto_rang,
        rfc3339_nanos(m.start@) is None ==> watched(m, now) == m,
{
}

/// A meeting is kept until a day after its end, and as long as its start cannot be read; the
/// others go, and the order stays.
pub proof fn a_past_meeting_is_kept_for_a_day(meetings: Seq<Meeting>, now: i128)
    ensures
        collect(meetings, kept_rule(now)) == meetings.filter(
            |m: Meeting|
                rfc3339_nanos(m.start@) is None || now < rfc3339_nanos(m.start@)->0
                    + m.duration_min * 60_000_000_000 + 24 * 3600 * 1_000_000_000,
        ),
{
    let keep = |m: Meeting|
        rfc3339_nanos(m.start@) is None || now < rfc3339_nanos(m.start@)->0 + m.duration_min
            * 60_000_000_000 + 24 * 3600 * 1_000_000_000;
    kept_is_filtered(meetings, kept_rule(now), keep);
}

/// A person's list holds the meetings that they organise or take part in and that are not
/// cancelled, each once, and a sooner one stands before a later one.
pub proof fn a_person_sees_their_meetings(meetings: Seq<Meeting>, user: Seq<char>, i: int)
    requires
        0 <= i < meetings.len() <= usize::MAX,
    ensures
        ({
            let list = sorted(meetings_of(meetings, meetings.len() as int, user));
            &&& (exists|k: int| 0 <= k < list.len() && (#[trigger] list[k]).at == i)
                <==> !meetings[i].cancelled && (meetings[i].created_by@ == user || texts(
                meetings[i].participants@,
            ).contains(user))
            &&& forall|k: int|
                0 <= k < list.len() ==> (#[trigger] list[k]).at < meetings.len() && list[k].start
                    == meetings[list[k].at as int].start && list[k].instant == rfc3339_nanos(
                    list[k].start@,
                )
            &&& forall|k: int, l: int|
                0 <= k < l < list.len() ==> match (
                    (#[trigger] list[k]).instant,
                    (#[trigger] list[l]).instant,
                ) {
                    (Some(a), Some(b)) => a <= b,
                    (None, Some(_)) => false,
                    _ => true,
                }
            &&& list.len() == meetings.filter(
                |m: Meeting|
                    !m.cancelled && (m.created_by@ == user || texts(
                        m.participants@,
                    ).contains(user)),
            ).len()
        }),
{
    let n = meetings.len() as int;
    let refs = meetings_of(meetings, n, user);
    let list = sorted(refs);
    sorting_orders_and_keeps(refs);
    assert(meetings.take(n) =~= meetings);
    refs_of_the_first(meetings, n, user);
    assert forall|k: int| 0 <= k < list.len() implies (#[trigger] list[k]).at < meetings.len()
        && list[k].start == meetings[list[k].at as int].start && list[k].instant == rfc3339_nanos(
        list[k].start@,
    ) by {
        sorting_adds_nothing(refs, list[k]);
        let j = choose|j: int| 0 <= j < refs.len() && refs[j] == list[k];
        assert(refs[j].at < n);
    }
    let mine = !meetings[i].cancelled && (meetings[i].created_by@ == user || texts(
        meetings[i].participants@,
    ).contains(user));
    if exists|k: int| 0 <= k < list.len() && (#[trigger] list[k]).at == i {
        let k = choose|k: int| 0 <= k < list.len() && (#[trigger] list[k]).at == i;
        sorting_adds_nothing(refs, list[k]);
        let j = choose|j: int| 0 <= j < refs.len() && refs[j] == list[k];
        assert(refs[j].at == i);
    }
    if mine {
        let j = choose|j: int| 0 <= j < refs.len() && (#[trigger] refs[j]).at == i;
        sorting_adds_nothing(refs, refs[j]);
        assert(list.contains(refs[j]));
        let k = choose|k: int| 0 <= k < list.len() && list[k] == refs[j];
        assert(list[k].at == i);
    }
}

proof fn refs_of_the_first(meetings: Seq<Meeting>, n: int, user: Seq<char>)
    requires
        0 <= n <= meetings.len() <= usize::MAX,
    ensures
        ({
            let refs = meetings_of(meetings, n, user);
            &&& forall|j: int|
                0 <= j < refs.len() ==> (#[trigger] refs[j]).at < n && refs[j].start
                    == meetings[refs[j].at as int].start && refs[j].instant == rfc3339_nanos(
                    refs[j].start@,
                ) && !meetings[refs[j].at as int].cancelled && takes_part(
                    meetings[refs[j].at as int],
                    user,
                )
            &&& forall|i: int|
                0 <= i < n && !(#[trigger] meetings[i]).cancelled && (meetings[i].created_by@
                    == user || texts(meetings[i].participants@).contains(user)) ==> exists|j: int|
                    0 <= j < refs.len() && (#[trigger] refs[j]).at == i
            &&& refs.len() == meetings.take(n).filter(
                |m: Meeting|
                    !m.cancelled && (m.created_by@ == user || texts(
                        m.participants@,
                    ).contains(user)),
            ).len()
        }),
    decreases n,
{
    reveal(Seq::filter);
    let refs = meetings_of(meetings, n, user);
    if n > 0 {
        refs_of_the_first(meetings, n - 1, user);
        let before = meetings_of(meetings, n - 1, user);
        assert(meetings.take(n).drop_last() =~= meetings.take(n - 1));
        assert forall|i: int|
            0 <= i < n && !(#[trigger] meetings[i]).cancelled && (meetings[i].created_by@ == user
                || texts(meetings[i].participants@).contains(user)) implies exists|j: int|
            0 <= j < refs.len() && (#[trigger] refs[j]).at == i by {
            if i < n - 1 {
                let j = choose|j: int| 0 <= j < before.len() && (#[trigger] before[j]).at == i;
                assert(refs[j].at == i);
            } else {
                assert(refs[refs.len() - 1].at == i);
            }
        }
    }
}

/// A booking is taken exactly where somebody signed in gives it a title of one to a hundred and
/// twenty characters and a start that can be read and is not over by more than a minute.
pub proof fn a_good_booking_is_taken(req: MeetingReq, user: Option<String>, now: i128)
    ensures
        booking_refusal(req, user, now) is None <==> {
            &&& user is Some
            &&& 1 <= spec_trim(req.title@).len() <= 120
            &&& rfc3339_nanos(req.start@) is Some
            &&& rfc3339_nanos(req.start@)->0 + 60_000_000_000 >= now
        },
        match booking_refusal(req, user, now) {
            Some((status, _, _)) => status == if user is None {
                401u16
            } else {
                400u16
            },
            None => true,
        },
{
}

/// A length is kept within its bounds, and one within them is taken as it is.
pub proof fn a_length_stays_within_bounds(n: u32, low: u32, high: u32)
    requires
        low <= high,
    ensures
        low <= bounded(n, low, high) <= high,
        low <= n <= high ==> bounded(n, low, high) == n,
        n < low ==> bounded(n, low, high) == low,
        n > high ==> bounded(n, low, high) == high,
{
}

/// Who was named takes part, and so does the organiser; nobody else does. Names are trimmed, and
/// a blank one names nobody.
pub proof fn the_organiser_always_takes_part(
    names: Seq<Seq<char>>,
    organiser: Seq<char>,
    who: Seq<char>,
)
    ensures
        invited(names, organiser).contains(organiser),
        invited(names, organiser).contains(who) <==> who == organiser || (who.len() > 0 && exists|
            i: int,
        |
            0 <= i < names.len() && spec_trim(#[trigger] names[i]) == who),
        forall|i: int|
            0 <= i < invited(names, organiser).len() - 1 ==> #[trigger] invited(names, organiser)[i]
                != invited(names, organiser)[i + 1],
{
    let kept = collect(names, name_rule());
    let all = if kept.contains(organiser) {
        kept
    } else {
        kept.push(organiser)
    };
    repeats_go(all, who);
    repeats_go(all, organiser);
    if !kept.contains(organiser) {
        assert(all[kept.len() as int] == organiser);
    }
    if who.len() > 0 && exists|i: int| 0 <= i < names.len() && spec_trim(#[trigger] names[i])
        == who {
        let i = choose|i: int| 0 <= i < names.len() && spec_trim(#[trigger] names[i]) == who;
        source_is_collected(names, name_rule(), i);
        let k = choose|k: int| 0 <= k < kept.len() && kept[k] == who;
        assert(all[k] == who);
    }
    if all.contains(who) && who != organiser {
        let k = choose|k: int| 0 <= k < all.len() && all[k] == who;
        collected_has_source(names, name_rule(), k);
        let i = choose|i: int|
            0 <= i < names.len() && name_rule()(#[trigger] names[i]) == Some(kept[k]);
        assert(spec_trim(names[i]) == who);
    }
}

proof fn repeats_go(s: Seq<Seq<char>>, x: Seq<char>)
    ensures
        without_repeats(s).contains(x) <==> s.contains(x),
        s.len() > 0 ==> without_repeats(s).len() > 0 && without_repeats(s).last() == s.last(),
        forall|i: int|
            0 <= i < without_repeats(s).len() - 1 ==> #[trigger] without_repeats(s)[i]
                != without_repeats(s)[i + 1],
    decreases s.len(),
{
    if s.len() > 0 {
        let init = s.drop_last();
        repeats_go(init, x);
        let before = without_repeats(init);
        let r = without_repeats(s);
        if before.contains(x) {
            let k = choose|k: int| 0 <= k < before.len() && before[k] == x;
            assert(r[k] == x);
        }
        if init.contains(x) {
            let k = choose|k: int| 0 <= k < init.len() && init[k] == x;
            assert(s[k] == x);
        }
        assert(s[s.len() - 1] == s.last());
        assert(r.last() == s.last()) by {
            if s.len() > 1 && s[s.len() - 2] == s.last() {
                assert(init.last() == s[s.len() - 2]);
            }
        }
        assert(r[r.len() - 1] == s.last());
        if s.contains(x) && !init.contains(x) {
            let k = choose|k: int| 0 <= k < s.len() && s[k] == x;
            if k < init.len() {
                assert(init[k] == x);
            }
        }
        if r.contains(x) && !before.contains(x) {
            let k = choose|k: int| 0 <= k < r.len() && r[k] == x;
            if k < before.len() {
                assert(before[k] == x);
            }
        }
        if s.len() > 1 {
            assert(init.last() == s[s.len() - 2]);
        }
    }
}

/// A meeting is found by its identifier: the first one that has it, and none only where none has.
pub proof fn a_meeting_is_found_by_its_id(meetings: Seq<Meeting>, id: Seq<char>, i: int)
    requires
        0 <= i,
    ensures
        match meeting_index(meetings, id, i) {
            Some(k) => i <= k < meetings.len() && meetings[k].id@ == id && forall|j: int|
                i <= j < k ==> (#[trigger] meetings[j]).id@ != id,
            None => forall|j: int| i <= j < meetings.len() ==> (#[trigger] meetings[j]).id@ != id,
        },
    decreases meetings.len() - i,
{
    if i < meetings.len() && meetings[i].id@ != id {
        a_meeting_is_found_by_its_id(meetings, id, i + 1);
    }
}

/// A meeting is changed by its organiser or by who manages, and entered by its organiser or a
/// participant; nobody else gets that far.
pub proof fn only_its_people_touch_a_meeting(
    meetings: Seq<Meeting>,
    accounts: bool,
    caller: Option<Caller>,
    user: Option<String>,
    id: Seq<char>,
)
    ensures
        patch_refusal(meetings, accounts, caller, id) is None ==> accounts && caller is Some
            && exists|i: int|
            0 <= i < meetings.len() && (#[trigger] meetings[i]).id@ == id && (meetings[i].created_by@
                == caller->0.username@ || caller->0.may_manage),
        accounts && caller is Some && caller->0.may_manage && (exists|i: int|
            0 <= i < meetings.len() && (#[trigger] meetings[i]).id@ == id) ==> patch_refusal(
            meetings,
            accounts,
            caller,
            id,
        ) is None,
        entry_refusal(meetings, user, id) is None ==> user is Some && exists|i: int|
            0 <= i < meetings.len() && (#[trigger] meetings[i]).id@ == id && (meetings[i].created_by@
                == user->0@ || texts(meetings[i].participants@).contains(user->0@)),
        forall|i: int|
            0 <= i < meetings.len() && (#[trigger] meetings[i]).id@ == id && (forall|j: int|
                0 <= j < i ==> (#[trigger] meetings[j]).id@ != id) ==> {
                &&& accounts && caller is Some && meetings[i].created_by@ == caller->0.username@
                    ==> patch_refusal(meetings, accounts, caller, id) is None
                &&& user is Some && (meetings[i].created_by@ == user->0@ || texts(
                    meetings[i].participants@,
                ).contains(user->0@)) ==> entry_refusal(meetings, user, id) is None
            },
{
    a_meeting_is_found_by_its_id(meetings, id, 0);
    if let Some(k) = meeting_index(meetings, id, 0) {
        assert(meetings[k].id@ == id);
        assert forall|i: int|
            0 <= i < meetings.len() && (#[trigger] meetings[i]).id@ == id && (forall|j: int|
                0 <= j < i ==> (#[trigger] meetings[j]).id@ != id) implies i == k by {
            if k < i {
                assert(meetings[k].id@ != id);
            }
        }
    }
}

/// A change that says nothing changes nothing that can be read, and a change never touches who
/// organised the meeting, its identifier or who has joined.
pub proof fn a_change_changes_what_it_says(was: Meeting, p: MeetingPatch, m: Meeting)
    requires
        patched(was, p, m),
    ensures
        m.id == was.id && m.created_by == was.created_by && m.joined == was.joined && m.remind_min
            == was.remind_min,
        p.cancel == Some(true) ==> m.cancelled,
        p.cancel != Some(true) ==> m.cancelled == was.cancelled,
        p.cancel == Some(true) ==> m.title == was.title && m.start == was.start && m.participants
            == was.participants && m.duration_min == was.duration_min && m.agenda == was.agenda,
        p.title is None ==> m.title@ == was.title@,
        p.start is None ==> m.start@ == was.start@ && m.reminded == was.reminded
            && m.start_announced == was.start_announced && m.auto_rang == was.auto_rang,
        p.duration_min is None ==> m.duration_min == was.duration_min,
        p.participants is None ==> m.participants == was.participants,
        p.agenda is None ==> m.agenda == was.agenda,
        p.cancel != Some(true) && p.title is Some && spec_trim(p.title->0@).len() > 0 ==> m.title@
            == spec_trim(p.title->0@),
        p.cancel != Some(true) && p.start is Some && rfc3339_nanos(p.start->0@) is Some ==> m.start@
            == p.start->0@ && !m.reminded && !m.start_announced && !m.auto_rang,
        p.cancel != Some(true) && p.duration_min is Some && 5 <= p.duration_min->0 <= 480
            ==> m.duration_min == p.duration_min->0,
        p.cancel != Some(true) && p.participants is Some ==> texts(m.participants@).contains(
            was.created_by@,
        ),
        p.cancel != Some(true) && p.agenda is Some ==> m.agenda@ == p.agenda->0@,
{
    if p.participants is Some {
        the_organiser_always_takes_part(
            texts(p.participants->0@),
            was.created_by@,
            was.created_by@,
        );
    }
}

/// An invitation goes to each participant but the organiser, a cancellation to each participant.
pub proof fn everyone_concerned_is_told(m: Meeting, at: usize)
    ensures
        invitations(m.participants@, m.participants@.len() as int, m.created_by@, at)
            == m.participants@.filter(|p: String| p@ != m.created_by@).map_values(
            |p: String| Frame { kind: FrameKind::Invite, to: p, at },
        ),
        frames_to(m.participants@, m.participants@.len() as int, FrameKind::Cancel, at)
            == m.participants@.map_values(|p: String| Frame { kind: FrameKind::Cancel, to: p, at }),
{
    let n = m.participants@.len() as int;
    assert(m.participants@.take(n) =~= m.participants@);
    frames_are_mapped(m.participants@, n, FrameKind::Cancel, at);
    invitations_are_filtered(m, n, at);
    assert(m.participants@.map_values(|p: String| Frame { kind: FrameKind::Cancel, to: p, at })
        =~= frames_to(m.participants@, n, FrameKind::Cancel, at));
}

proof fn invitations_are_filtered(m: Meeting, n: int, at: usize)
    requires
        0 <= n <= m.participants@.len(),
    ensures
        invitations(m.participants@, n, m.created_by@, at) == m.participants@.take(n).filter(
            |p: String| p@ != m.created_by@,
        ).map_values(|p: String| Frame { kind: FrameKind::Invite, to: p, at }),
    decreases n,
{
    reveal(Seq::filter);
    let keep = |p: String| p@ != m.created_by@;
    let make = |p: String| Frame { kind: FrameKind::Invite, to: p, at };
    let now = m.participants@.take(n);
    if n == 0 {
        assert(invitations(m.participants@, n, m.created_by@, at) =~= now.filter(keep).map_values(make));
    } else {
        invitations_are_filtered(m, n - 1, at);
        assert(now.drop_last() =~= m.participants@.take(n - 1));
        let init = m.participants@.take(n - 1).filter(keep);
        assert(init.push(now.last()).map_values(make) =~= init.map_values(make).push(
            make(now.last()),
        ));
    }
}

} // verus!
