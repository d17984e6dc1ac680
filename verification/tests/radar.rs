//! The radar for duplicate tickets.

use coxagent_presentation::board::Status;
use coxagent_presentation::duplicate_radar::{
    admit_dupe_action, allow_pair, pair_key, radar_active, radar_rows, retire_duplicate,
    scope_snippet, DupeActionReq, DupeVerdict, RadarTicket,
};
use coxagent_presentation::inbox::Moved;

#[test]
fn active_pool_matches_the_add_ticket_gate() {
    for status in [
        Status::Done,
        Status::Documented,
        Status::Verified,
        Status::Rejected,
    ] {
        assert!(!radar_active(status), "{status:?} must be out of the pool");
    }
    for status in [
        Status::Pending,
        Status::Ready,
        Status::InProgress,
        Status::OnHold,
        Status::Open,
        Status::Fixed,
    ] {
        assert!(radar_active(status), "{status:?} stays in the pool");
    }
}

#[test]
fn scope_snippet_trims_and_caps_but_never_truncates_mid_nothing() {
    assert_eq!(scope_snippet("  hello  "), "hello");
    let long = "x".repeat(500);
    let cut = scope_snippet(&long);
    assert_eq!(cut.chars().count(), 201, "200 chars + the ellipsis");
    assert!(cut.ends_with('…'));
    assert_eq!(scope_snippet(""), "");
}

#[test]
fn a_scope_of_exactly_two_hundred_is_kept_whole() {
    let full = "y".repeat(200);
    assert_eq!(scope_snippet(&full), full);
    assert_eq!(scope_snippet(&"y".repeat(201)), format!("{full}…"));
}

fn ticket(id: &str, status: Status) -> RadarTicket {
    RadarTicket {
        id: id.to_owned(),
        title: "t".to_owned(),
        description: "  d  ".to_owned(),
        service_tag: None,
        status,
    }
}

#[test]
fn only_live_tickets_cross_projects() {
    let rows = radar_rows(&vec![
        ticket("T-1", Status::Ready),
        ticket("T-2", Status::Done),
        ticket("T-3", Status::Open),
    ]);
    assert_eq!(rows.len(), 2);
    assert_eq!(rows[0].ticket_id, "T-1");
    assert_eq!(rows[0].scope, "d");
    assert_eq!(rows[1].ticket_id, "T-3");
}

#[test]
fn a_pair_has_one_key_whichever_side_is_the_duplicate() {
    assert_eq!(pair_key(("p1", "T-1"), ("p2", "T-2")), "p1/T-1|p2/T-2");
    assert_eq!(pair_key(("p2", "T-2"), ("p1", "T-1")), "p1/T-1|p2/T-2");
}

#[test]
fn allowing_a_pair_twice_records_it_once() {
    let mut list = Vec::new();
    allow_pair(&mut list, "p1/T-1|p2/T-2", "op", "2026-08-31T00:00:00Z");
    allow_pair(&mut list, "p1/T-1|p2/T-2", "other", "2026-09-01T00:00:00Z");
    assert_eq!(list.len(), 1);
    assert_eq!(list[0].by, "op");
    allow_pair(&mut list, "p1/T-1|p3/T-9", "op", "2026-09-01T00:00:00Z");
    assert_eq!(list.len(), 2);
}

fn req(action: &str) -> DupeActionReq {
    DupeActionReq {
        action: action.to_owned(),
        home_project_id: "p1".to_owned(),
        home_ticket_id: "T-1".to_owned(),
        dup_project_id: "p2".to_owned(),
        dup_ticket_id: "T-2".to_owned(),
    }
}

#[test]
fn a_decision_takes_a_person_who_sees_both_sides() {
    let me = Some("op".to_owned());
    let both = vec!["p1".to_owned(), "p2".to_owned()];
    let one = vec!["p1".to_owned()];
    assert_eq!(admit_dupe_action(&me, &both, &req("allow")).ok(), Some(DupeVerdict::Allow));
    assert_eq!(
        admit_dupe_action(&me, &both, &req("redirect")).ok(),
        Some(DupeVerdict::Redirect)
    );
    assert_eq!(admit_dupe_action(&me, &both, &req("reject")).ok(), Some(DupeVerdict::Reject));
    let e = admit_dupe_action(&me, &both, &req("merge")).err().expect("unknown");
    assert_eq!((e.status, e.text.as_str()), (400, "unknown action: merge"));
    let e = admit_dupe_action(&me, &one, &req("allow")).err().expect("hidden side");
    assert_eq!(e.status, 403);
    assert_eq!(e.text, "one side of this pair is not visible to you");
    let e = admit_dupe_action(&None, &both, &req("allow")).err().expect("no gate");
    assert_eq!(e.text, "your role may not take this decision");
}

#[test]
fn a_retired_duplicate_names_its_home() {
    let t = retire_duplicate(true, true, &Moved::Done, &req("redirect"), true).ok().expect("moved");
    assert_eq!(
        t.activity.text,
        "redirected to p1/T-1 (cross-project duplicate radar)"
    );
    assert_eq!(t.activity.ticket.as_deref(), Some("T-2"));
    assert_eq!(t.audit, "dupe-radar redirect p2/T-2");
    let t = retire_duplicate(true, true, &Moved::Done, &req("reject"), false).ok().expect("moved");
    assert_eq!(t.activity.text, "rejected as cross-project duplicate of p1/T-1");
    assert_eq!(t.audit, "dupe-radar reject p2/T-2");
    let refused = |exists, loaded, moved: &Moved| {
        let e = retire_duplicate(exists, loaded, moved, &req("reject"), false)
            .err()
            .expect("refused");
        (e.status, e.text)
    };
    assert_eq!(refused(false, true, &Moved::Done), (404, "no such project".to_owned()));
    assert_eq!(refused(true, false, &Moved::Done), (500, "load failed".to_owned()));
    assert_eq!(refused(true, true, &Moved::NoSuchTicket), (404, "no such ticket".to_owned()));
    assert_eq!(
        refused(true, true, &Moved::NotAllowed("in progress".to_owned())),
        (409, "in progress".to_owned())
    );
}
