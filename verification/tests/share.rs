//! Share links and the page behind them.

use coxagent_presentation::board::{Priority, Status, TicketType};
use coxagent_presentation::share_link::{
    admit_links, create_link, mint_share_token, resolve_token, revoke_link, SHARE_PAGE_CSP,
};
use coxagent_presentation::share_page::{
    age_phrase, degraded_banner, degraded_warnings, heartbeat_age, render_share_page,
    sanitized_digest, share_snapshot, Deploy, Heartbeat, ShareState, ShareTicket, WorkerEntry,
    HEARTBEAT_STALE_SECS,
};
use std::collections::HashSet;

const NOW: i64 = 1_800_000_000;

fn rfc3339_from(secs: i64) -> String {
    time::OffsetDateTime::from_unix_timestamp(secs)
        .unwrap()
        .format(&time::format_description::well_known::Rfc3339)
        .unwrap()
}

fn ticket(id: &str, ticket_type: TicketType, status: Status, priority: Priority) -> ShareTicket {
    ShareTicket {
        id: id.to_owned(),
        ticket_type,
        status,
        priority,
    }
}

fn worker(at: &str) -> WorkerEntry {
    WorkerEntry {
        worker: "op@mac".to_owned(),
        role: "dev_feature".to_owned(),
        ticket: "F001".to_owned(),
        at: at.to_owned(),
    }
}

fn state() -> ShareState {
    ShareState {
        cycle: 0,
        tickets: Vec::new(),
        open_prs: Vec::new(),
        history: Vec::new(),
        fail_attempts: Vec::new(),
        cost_holds: Vec::new(),
        human_holds: Vec::new(),
        deploy_ok: None,
        digest: String::new(),
        last_activity: None,
        display_name: None,
    }
}

fn deploy(at: &str) -> Deploy {
    Deploy {
        version: "1.2.3".to_owned(),
        ticket: "F001".to_owned(),
        title: "login page".to_owned(),
        at: at.to_owned(),
    }
}

#[test]
fn snapshot_sanitizes_away_spend_and_internal_fields() {
    let mut s = state();
    s.digest = "# Digest\n- Shipped: 1\n- Spend: $123.45 over 42 runs\n- Bugs: 1".to_owned();
    s.tickets.push(ticket("B001", TicketType::Bug, Status::Open, Priority::High));
    s.history.push(deploy("2026-08-01T00:00:00Z"));
    let snap = share_snapshot(&s, &Vec::new(), NOW);
    let rendered: String = snap.digest.join("\n");
    assert!(
        !rendered.contains("Spend") && !rendered.contains('$'),
        "spend must never reach the public digest: {rendered}"
    );
    assert_eq!(snap.bugs.high, 1);
    assert_eq!(snap.shipped.len(), 1);
    let html = render_share_page(&s, "Demo", &snap, "2026-08-02T00:00:00Z");
    assert!(!html.contains("design") && !html.contains("estimate"));
}

#[test]
fn heartbeat_badge_tracks_freshness_threshold() {
    let fresh = worker(&rfc3339_from(NOW - 60));
    assert_eq!(heartbeat_age(&vec![fresh], NOW), Heartbeat::Fresh(60));

    let stale = worker(&rfc3339_from(NOW - HEARTBEAT_STALE_SECS - 1));
    assert!(matches!(heartbeat_age(&vec![stale], NOW), Heartbeat::Stale(_)));

    assert_eq!(heartbeat_age(&Vec::new(), NOW), Heartbeat::Missing);
    let garbage = worker("not-a-timestamp");
    assert_eq!(heartbeat_age(&vec![garbage], NOW), Heartbeat::Missing);
}

#[test]
fn degraded_flags_stale_heartbeat_failed_deploy_and_stalled_deploys() {
    let mut s = state();
    s.cycle = 5;
    let warnings = degraded_warnings(&s, Heartbeat::Stale(9_000), NOW);
    assert!(warnings.iter().any(|w| w.contains("stale")), "{warnings:?}");

    s.deploy_ok = Some(false);
    let warnings = degraded_warnings(&s, Heartbeat::Fresh(10), NOW);
    assert!(
        warnings.iter().any(|w| w.contains("deploy attempt failed")),
        "{warnings:?}"
    );

    s.deploy_ok = None;
    s.tickets.push(ticket("F001", TicketType::Feature, Status::InProgress, Priority::Medium));
    let warnings = degraded_warnings(&s, Heartbeat::Fresh(10), NOW);
    assert!(warnings.iter().any(|w| w.contains("7 days")), "{warnings:?}");
    s.history.push(deploy(&rfc3339_from(NOW - 60)));
    let warnings = degraded_warnings(&s, Heartbeat::Fresh(10), NOW);
    assert!(!warnings.iter().any(|w| w.contains("7 days")), "{warnings:?}");
}

#[test]
fn waiting_on_human_lists_parked_cost_and_hold_ids() {
    let mut s = state();
    s.fail_attempts.push(("CXC-B001".to_owned(), 3));
    s.cost_holds.push("CXC-F002".to_owned());
    s.tickets.push(ticket("CXC-F003", TicketType::Feature, Status::OnHold, Priority::Low));
    s.human_holds.push(7);
    let snap = share_snapshot(&s, &Vec::new(), NOW);
    assert_eq!(snap.parked, vec!["CXC-B001"]);
    assert_eq!(snap.cost_holds, vec!["CXC-F002"]);
    assert_eq!(snap.on_hold, vec!["CXC-F003"]);
    assert_eq!(snap.human_holds, vec![7]);
}

#[test]
fn rendered_page_escapes_names_and_never_shows_spend() {
    let mut s = state();
    s.digest = "- Spend: $99.00".to_owned();
    s.tickets.push(ticket("F001", TicketType::Feature, Status::InProgress, Priority::Medium));
    let snap = share_snapshot(&s, &Vec::new(), NOW);
    let html = render_share_page(&s, "Demo <b>project</b>", &snap, "2026-08-02T00:00:00Z");
    assert!(!html.contains("Spend") && !html.contains("$99"), "spend leaked");
    assert!(
        !html.contains("<b>"),
        "project name must be HTML-escaped: {}",
        &html[..200.min(html.len())]
    );
    assert!(html.contains("Demo &lt;b&gt;project&lt;/b&gt;"));
    assert!(!html.contains("<script"), "share page must be script-free");
}

#[test]
fn no_script_gets_onto_the_page() {
    let bait = "<script>alert(1)</script>";
    let mut s = state();
    s.display_name = Some(bait.to_owned());
    s.digest = bait.to_owned();
    s.last_activity = Some((bait.to_owned(), bait.to_owned()));
    s.fail_attempts = vec![(bait.to_owned(), 3)];
    s.history.push(deploy("2026-08-01T00:00:00Z"));
    s.history[0].title = bait.to_owned();
    let mut w = worker(&rfc3339_from(NOW));
    w.ticket = bait.to_owned();
    let snap = share_snapshot(&s, &vec![w], NOW);
    let html = render_share_page(&s, bait, &snap, bait);
    assert!(!html.contains("<script"));
    assert_eq!(html.matches("&lt;script&gt;").count(), 9);
}

#[test]
fn a_display_name_goes_before_the_registered_one() {
    let mut s = state();
    s.display_name = Some("Shown".to_owned());
    let snap = share_snapshot(&s, &Vec::new(), NOW);
    let html = render_share_page(&s, "Registered", &snap, "2026-08-02T00:00:00Z");
    assert!(html.contains("Shown") && !html.contains("Registered"));
}

#[test]
fn a_banner_stands_only_where_something_is_wrong() {
    let mut s = state();
    let calm = share_snapshot(&s, &Vec::new(), NOW);
    assert_eq!(degraded_banner(&calm), "");
    s.deploy_ok = Some(false);
    let sick = share_snapshot(&s, &Vec::new(), NOW);
    assert!(degraded_banner(&sick).contains("deploy attempt failed"));
}

#[test]
fn ages_are_told_in_words() {
    assert_eq!(age_phrase(59), age_phrase(0));
    assert_ne!(age_phrase(60), age_phrase(3600));
    assert!(age_phrase(7200).contains('2'));
    assert!(sanitized_digest("").is_empty());
}

#[test]
fn share_tokens_are_cryptographically_random_and_unique() {
    let mut seen = HashSet::new();
    for _ in 0..1000 {
        let t = mint_share_token();
        assert_eq!(t.len(), 32, "v4 uuid simple form is 32 hex chars");
        assert!(
            t.chars().all(|c| c.is_ascii_hexdigit()),
            "URL-safe hex only, got {t}"
        );
        assert!(seen.insert(t), "a repeated CSPRNG token is a collision");
    }
}

#[test]
fn a_minted_link_unlocks_its_project() {
    let mut links = Vec::new();
    let token = mint_share_token();
    create_link(&mut links, &token, "demo", &Some("ACME stakeholder".to_owned()), "alice", "now");
    assert_eq!(links[0].name, "ACME stakeholder", "the label round-trips");
    assert!(!links[0].revoked);
    assert_eq!(resolve_token(&links, &token).ok(), Some("demo".to_owned()));
    assert!(SHARE_PAGE_CSP.contains("default-src 'none'"));
    assert!(SHARE_PAGE_CSP.contains("frame-ancestors 'none'"));
    create_link(&mut links, "t2", "demo", &None, "alice", "now");
    assert_eq!(links[1].name, "", "name defaults to empty");
}

#[test]
fn a_revoked_link_answers_404_and_stays_listed() {
    let mut links = Vec::new();
    create_link(&mut links, "t1", "demo", &None, "alice", "now");
    assert!(revoke_link(&mut links, "t1", "demo").is_ok());
    assert_eq!(resolve_token(&links, "t1").expect_err("revoked").status, 404);
    assert_eq!(links.len(), 1, "the record stays for the audit trail");
    assert!(links[0].revoked);
}

#[test]
fn unknown_and_foreign_tokens_answer_404() {
    let mut links = Vec::new();
    assert_eq!(
        resolve_token(&links, "deadbeefdeadbeefdeadbeefdeadbeef").expect_err("unknown").status,
        404
    );
    create_link(&mut links, "t1", "demo", &None, "alice", "now");
    assert_eq!(revoke_link(&mut links, "t1", "elsewhere").expect_err("foreign").status, 404);
    assert_eq!(revoke_link(&mut links, "never-minted", "demo").expect_err("unknown").status, 404);
    assert_eq!(resolve_token(&links, "t1").ok(), Some("demo".to_owned()));
}

#[test]
fn links_are_a_managers_business() {
    assert!(admit_links(true, true).is_ok());
    assert_eq!(admit_links(false, true).expect_err("member").status, 403);
    assert_eq!(admit_links(true, false).expect_err("unknown pid").status, 404);
}
