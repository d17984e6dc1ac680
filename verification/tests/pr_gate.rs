//! Who may run a review action, and who may write.

use coxagent_presentation::guards::{
    cookie_value, hub_role_of, is_pr_review_path, is_super, pick_principal, principal_name,
    resolve_user_caps, resolve_username, role_guard, user_can_manage, write_gate_ok, AuthRole,
    AuthUser, HubRole,
};

const PR_ACTIONS: [&str; 6] = [
    "merge",
    "request-changes",
    "close",
    "preview",
    "preview-stop",
    "force-merge",
];

fn pr_path(action: &str) -> String {
    format!("/api/projects/acme/prs/42/{action}")
}

const MEMBER_TIER: [AuthRole; 7] = [
    AuthRole::Ba,
    AuthRole::Fe,
    AuthRole::Be,
    AuthRole::Aie,
    AuthRole::Ds,
    AuthRole::Da,
    AuthRole::De,
];

const REVIEWER_TIER: [AuthRole; 8] = [
    AuthRole::Super,
    AuthRole::Admin,
    AuthRole::Reviewer,
    AuthRole::Director,
    AuthRole::Manager,
    AuthRole::TechLead,
    AuthRole::DsLead,
    AuthRole::DaLead,
];

fn user(role: AuthRole, projects: &[&str]) -> AuthUser {
    AuthUser {
        username: "op".to_owned(),
        name: String::new(),
        email: String::new(),
        role,
        projects: projects.iter().map(|p| (*p).to_owned()).collect(),
    }
}

#[test]
fn member_tier_cannot_run_any_pr_review_action() {
    for role in MEMBER_TIER {
        for action in PR_ACTIONS {
            assert!(
                !write_gate_ok(role, &pr_path(action)),
                "{role:?} must be refused /prs/{action}"
            );
        }
    }
}

#[test]
fn admin_leads_and_reviewer_keep_every_pr_review_action() {
    for role in REVIEWER_TIER {
        for action in PR_ACTIONS {
            assert!(
                write_gate_ok(role, &pr_path(action)),
                "{role:?} must keep access to /prs/{action}"
            );
        }
    }
}

#[test]
fn member_tier_still_writes_everything_that_is_not_a_pr_action() {
    let ordinary_writes = [
        "/api/projects/acme/tickets",
        "/api/projects/acme/tickets/CXC-B001/transition",
        "/api/projects/acme/run",
        "/api/projects/acme/deploy",
    ];
    for role in MEMBER_TIER {
        for path in ordinary_writes {
            assert!(write_gate_ok(role, path), "{role:?} must still write {path}");
        }
    }
}

#[test]
fn viewer_is_refused_both_review_actions_and_ordinary_writes() {
    assert!(!write_gate_ok(AuthRole::Viewer, &pr_path("merge")));
    assert!(!write_gate_ok(
        AuthRole::Viewer,
        "/api/projects/acme/tickets"
    ));
}

#[test]
fn every_role_is_classified_by_the_pr_gate() {
    for role in AuthRole::all() {
        let allowed = write_gate_ok(role, &pr_path("force-merge"));
        let expected = REVIEWER_TIER.contains(&role);
        assert!(
            !(allowed && MEMBER_TIER.contains(&role)),
            "{role:?} is member tier but passed the PR gate"
        );
        assert_eq!(
            allowed, expected,
            "{role:?} landed on the wrong side of the PR review gate"
        );
    }
}

#[test]
fn all_roles_are_listed_once() {
    let all = AuthRole::all();
    assert_eq!(all.len(), 16);
    for (i, a) in all.iter().enumerate() {
        for b in &all[i + 1..] {
            assert_ne!(a, b);
        }
    }
}

#[test]
fn only_the_pr_route_is_treated_as_a_review_action() {
    assert!(is_pr_review_path("/api/projects/acme/prs/42/merge"));
    assert!(is_pr_review_path("/api/projects/acme/prs/42/diff"));
    assert!(!is_pr_review_path("/api/projects/acme/tickets"));
    assert!(!is_pr_review_path("/api/projects/acme/prs"));
    assert!(!is_pr_review_path("/api/health"));
}

#[test]
fn a_process_refuses_what_it_does_not_serve() {
    assert_eq!(hub_role_of("gateway"), HubRole::Gateway);
    assert_eq!(hub_role_of("realtime"), HubRole::Realtime);
    assert_eq!(hub_role_of("knowledge"), HubRole::Knowledge);
    assert_eq!(hub_role_of(""), HubRole::All);
    assert_eq!(hub_role_of("Gateway"), HubRole::All);
    assert!(role_guard(HubRole::All, true).is_none());
    assert!(role_guard(HubRole::All, false).is_none());
    assert!(role_guard(HubRole::Gateway, false).is_none());
    assert!(role_guard(HubRole::Realtime, true).is_none());
    for (role, need) in [
        (HubRole::Gateway, true),
        (HubRole::Realtime, false),
        (HubRole::Knowledge, true),
        (HubRole::Knowledge, false),
    ] {
        let e = role_guard(role, need).expect("refused");
        assert_eq!(e.status, 503);
        assert!(e.text.starts_with("wrong service role"));
    }
}

#[test]
fn a_cookie_is_found_by_its_name() {
    let header = Some("theme=dark; cox_session=abc123; x=1");
    assert_eq!(cookie_value(header, "cox_session"), Some("abc123".to_owned()));
    assert_eq!(cookie_value(header, "session"), None);
    assert_eq!(cookie_value(None, "cox_session"), None);
}

#[test]
fn the_bearer_goes_before_the_session() {
    assert_eq!(pick_principal(Some(1), Some(2)), Some(1));
    assert_eq!(pick_principal(None, Some(2)), Some(2));
    assert_eq!(pick_principal::<u8>(None, None), None);
}

#[test]
fn without_accounts_everyone_is_the_operator() {
    let nobody = None;
    let fe = Some(user(AuthRole::Fe, &["p"]));
    let lead = Some(user(AuthRole::TechLead, &["p"]));
    assert!(principal_name(false, &nobody).is_some());
    assert!(principal_name(true, &nobody).is_none());
    assert_eq!(principal_name(true, &fe), Some("op".to_owned()));
    assert_eq!(resolve_username(true, &fe), "op");
    assert!(user_can_manage(false, &nobody));
    assert!(!user_can_manage(true, &nobody));
    assert!(!user_can_manage(true, &fe));
    assert!(user_can_manage(true, &lead));
    assert!(is_super(false, &nobody));
    assert!(!is_super(true, &lead));
    assert!(is_super(true, &Some(user(AuthRole::Super, &[]))));
    let (who, _) = resolve_user_caps(true, &fe, false);
    assert_eq!(who, "op");
}
