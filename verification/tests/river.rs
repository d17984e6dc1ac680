//! The fleet river.

use coxagent_presentation::fleet::{
    delta, entry_in_phase, filter_projects, human_action_needed, insufficient_data, may_see_broken,
    phase_norm, river_boot, river_projects, river_scope, river_tick, runner_in_phase,
    visible_broken, ActivityEntry, BrokenProject, Loaded, RiverEvent, RiverProject, RiverQuery,
    RunnerSnapshot, EMPTY_RIVER_MESSAGE,
};
use coxagent_presentation::guards::{AuthRole, AuthUser};
use coxagent_presentation::spaces::Space;

fn principal(role: AuthRole, projects: &[&str]) -> AuthUser {
    AuthUser {
        username: "op".to_owned(),
        name: String::new(),
        email: String::new(),
        role,
        projects: projects.iter().map(|p| (*p).to_owned()).collect(),
    }
}

fn ids(v: &[String]) -> Vec<&str> {
    v.iter().map(String::as_str).collect()
}

#[test]
fn a_member_sees_only_assigned_projects_in_registration_order() {
    let registered = vec!["a".to_owned(), "b".to_owned(), "c".to_owned()];
    let u = principal(AuthRole::Fe, &["c", "a"]);
    assert_eq!(ids(&river_scope(Some(&u), &registered)), vec!["a", "c"]);
}

#[test]
fn super_admin_and_open_mode_see_the_whole_fleet() {
    let registered = vec!["a".to_owned(), "b".to_owned()];
    assert_eq!(ids(&river_scope(None, &registered)), vec!["a", "b"]);
    let u = principal(AuthRole::Super, &[]);
    assert_eq!(ids(&river_scope(Some(&u), &registered)), vec!["a", "b"]);
    let u = principal(AuthRole::Admin, &[]);
    assert_eq!(ids(&river_scope(Some(&u), &registered)), vec!["a", "b"]);
}

#[test]
fn broken_project_markers_follow_the_same_membership_rule() {
    assert!(may_see_broken(None, "broken"));
    let u = principal(AuthRole::Super, &[]);
    assert!(may_see_broken(Some(&u), "broken"));
    let u = principal(AuthRole::Fe, &["mine"]);
    assert!(may_see_broken(Some(&u), "mine"));
    assert!(!may_see_broken(Some(&u), "other-team"));
}

#[test]
fn project_and_space_filters_intersect_visibility() {
    let allowed = vec!["a".to_owned(), "b".to_owned(), "c".to_owned()];
    assert_eq!(ids(&filter_projects(&allowed, Some("b"), None)), vec!["b"]);
    assert!(filter_projects(&allowed, Some("z"), None).is_empty());
    let space = vec!["c".to_owned(), "a".to_owned()];
    assert_eq!(
        ids(&filter_projects(&allowed, None, Some(&space))),
        vec!["a", "c"]
    );
    assert_eq!(
        ids(&filter_projects(&allowed, Some("a"), Some(&space))),
        vec!["a"]
    );
    assert_eq!(
        ids(&filter_projects(&allowed, Some("b"), Some(&space))),
        Vec::<String>::new()
    );
    assert_eq!(
        ids(&filter_projects(&allowed, None, None)),
        vec!["a", "b", "c"]
    );
}

fn snap(active_role: Option<&str>) -> RunnerSnapshot {
    RunnerSnapshot {
        mode: "paused".to_owned(),
        active_role: active_role.map(str::to_owned),
    }
}

#[test]
fn phase_matching_is_case_insensitive_and_prefix_aware() {
    assert_eq!(phase_norm(Some(" dev ")), "DEV");
    assert_eq!(phase_norm(None), "");
    let busy = snap(Some("DEV-FEATURE"));
    assert!(runner_in_phase("DEV", &busy));
    assert!(runner_in_phase("dev-feature", &busy));
    assert!(!runner_in_phase("QA", &busy));
    assert!(runner_in_phase("", &busy));
    assert!(!runner_in_phase("DEV", &snap(None)));
    assert!(entry_in_phase("dev", "DEV-BUG"));
    assert!(entry_in_phase("SA", "SA"));
    assert!(!entry_in_phase("QA", "DEV-BUG"));
    assert!(entry_in_phase("", "anything"));
}

fn entry(at: &str, agent: &str, action: &str) -> ActivityEntry {
    ActivityEntry {
        at: at.to_owned(),
        agent: agent.to_owned(),
        action: action.to_owned(),
        ticket: None,
    }
}

fn feed() -> Vec<ActivityEntry> {
    (0..8)
        .map(|i| entry(&format!("2026-08-29T00:0{i}:00Z"), "DEV", &format!("act {i}")))
        .collect()
}

#[test]
fn a_first_connection_catches_up_on_the_bounded_newest_tail() {
    let f = feed();
    assert_eq!(delta(None, &f, 20).len(), 8);
    assert_eq!(delta(None, &f, 3).len(), 3);
    assert_eq!(delta(None, &f, 3)[0].action, "act 5", "newest tail, oldest-first");
}

#[test]
fn deltas_forward_only_the_rows_added_since_the_last_tick() {
    let f = feed();
    let seen = f[5].copy();
    assert_eq!(delta(Some(&seen), &f, 20).len(), 2);
    assert_eq!(delta(Some(&seen), &f, 20)[0].action, "act 6");
    assert!(
        delta(Some(f[7].copy()).as_ref(), &f, 20).is_empty(),
        "no news is empty"
    );
}

#[test]
fn a_rotated_or_rewritten_feed_resyncs_to_a_bounded_tail() {
    let mut f = feed();
    let seen = f[0].copy();
    f.drain(0..6);
    assert_eq!(delta(Some(&seen), &f, 20).len(), 2);
    let seen = f[0].copy();
    assert_eq!(delta(Some(&seen), &f, 1).len(), 1);
    assert_eq!(delta(Some(&seen), &f, 1)[0].action, "act 7");
}

fn loaded(activity: Vec<ActivityEntry>) -> Loaded {
    Loaded {
        activity,
        human_holds: 0,
        completed_cycles: 0,
        runner: snap(None),
    }
}

#[test]
fn the_human_action_flag_is_derived_from_persisted_holds() {
    let mut s = loaded(Vec::new());
    assert!(!human_action_needed(&s));
    s.human_holds = 1;
    assert!(human_action_needed(&s), "held-for-a-person work IS the flag");
}

#[test]
fn fewer_than_two_completed_cycles_is_insufficient_data() {
    for (cycles, expected) in [(0, true), (1, true), (2, false)] {
        let mut s = loaded(Vec::new());
        s.completed_cycles = cycles;
        assert_eq!(insufficient_data(&s), expected);
    }
}

fn project(id: &str) -> RiverProject {
    RiverProject {
        id: id.to_owned(),
        name: id.to_owned(),
        alias: String::new(),
        seen: None,
        seq: 0,
    }
}

fn types(events: &[RiverEvent]) -> Vec<&'static str> {
    events.iter().map(RiverEvent::kind).collect()
}

#[test]
fn activity_events_carry_the_wire_shape_and_both_flags() {
    let mut p = project("p1");
    p.seq = 3;
    let mut s = loaded(vec![entry(
        "2026-08-29T00:00:00Z",
        "SA",
        "held a PR for human eyes",
    )]);
    s.human_holds = 1;
    s.completed_cycles = 1;
    let events = river_tick(&mut vec![p], &vec![Some(s)], "SA");
    assert_eq!(events[0].kind(), "agent_activity");
    match &events[0] {
        RiverEvent::Activity { project_id, seq, entry, needs_human, insufficient_data } => {
            assert_eq!(project_id, "p1");
            assert_eq!(*seq, 4);
            assert_eq!(entry.agent, "SA");
            assert_eq!(entry.action, "held a PR for human eyes");
            assert!(*needs_human);
            assert!(*insufficient_data);
        }
        _ => panic!("an activity event"),
    }
}

#[test]
fn a_boot_says_hello_then_catches_up_then_beats_once() {
    let lines = (0..3)
        .map(|i| entry(&format!("2026-08-29T00:0{i}:00Z"), "DEV", &format!("act {i}")))
        .collect();
    let mut projects = vec![project("p")];
    let events = river_boot(&mut projects, &Vec::new(), &vec![Some(loaded(lines))], "");
    assert_eq!(
        types(&events),
        vec!["hello", "agent_activity", "agent_activity", "agent_activity", "project_state"]
    );
    match (&events[1], &events[3], &events[4]) {
        (
            RiverEvent::Activity { seq: first, entry, .. },
            RiverEvent::Activity { seq: last, .. },
            RiverEvent::State { insufficient_data, runner, .. },
        ) => {
            assert_eq!(*first, 1);
            assert_eq!(entry.action, "act 0");
            assert_eq!(*last, 3);
            assert!(*insufficient_data);
            assert_eq!(runner.mode, "paused");
        }
        _ => panic!("backlog, then a heartbeat"),
    }
}

#[test]
fn a_tick_with_no_news_emits_only_the_heartbeat() {
    let line = |i: u8| entry(&format!("2026-08-29T00:00:0{i}Z"), "DEV", &format!("act {i}"));
    let mut projects = vec![project("p")];
    let boot = river_boot(&mut projects, &Vec::new(), &vec![Some(loaded(vec![line(0)]))], "");
    assert_eq!(types(&boot), vec!["hello", "agent_activity", "project_state"]);

    let tick = river_tick(&mut projects, &vec![Some(loaded(vec![line(0)]))], "");
    assert_eq!(types(&tick), vec!["project_state"], "no news: heartbeat only, no replay");

    let tick = river_tick(&mut projects, &vec![Some(loaded(vec![line(0), line(1)]))], "");
    assert_eq!(types(&tick), vec!["agent_activity", "project_state"]);
    match &tick[0] {
        RiverEvent::Activity { seq, entry, .. } => {
            assert_eq!(*seq, 2, "the sequence continues the backlog's");
            assert_eq!(entry.action, "act 1");
        }
        _ => panic!("an activity event"),
    }
}

#[test]
fn the_phase_filter_gates_both_backlog_and_heartbeats() {
    let dev = || entry("2026-08-29T00:00:00Z", "DEV", "dev work");
    let qa = || entry("2026-08-29T00:00:01Z", "QA", "qa work");
    let late = || entry("2026-08-29T00:00:02Z", "DEV", "dev work 2");
    let mut projects = vec![project("p")];
    let boot = river_boot(&mut projects, &Vec::new(), &vec![Some(loaded(vec![dev(), qa()]))], "qa");
    assert_eq!(types(&boot), vec!["hello", "agent_activity"]);
    match &boot[1] {
        RiverEvent::Activity { entry, .. } => assert_eq!(entry.agent, "QA"),
        _ => panic!("an activity event"),
    }

    let busy = |lines| Loaded { runner: snap(Some("QA-VERIFY")), ..loaded(lines) };
    let tick = river_tick(&mut projects, &vec![Some(busy(vec![dev(), qa()]))], "qa");
    assert_eq!(types(&tick), vec!["project_state"]);
    match &tick[0] {
        RiverEvent::State { runner, .. } => {
            assert_eq!(runner.active_role.as_deref(), Some("QA-VERIFY"));
        }
        _ => panic!("a heartbeat"),
    }

    let tick = river_tick(&mut projects, &vec![Some(busy(vec![dev(), qa(), late()]))], "qa");
    assert_eq!(types(&tick), vec!["project_state"]);
    let tick = river_tick(&mut projects, &vec![Some(busy(vec![dev(), qa(), late()]))], "");
    assert!(
        !types(&tick).contains(&"agent_activity"),
        "a row hidden by a lifted filter's earlier ticks must not replay"
    );
}

#[test]
fn an_empty_fleet_answers_with_the_friendly_payload_only() {
    let events = river_boot(&mut Vec::new(), &Vec::new(), &Vec::new(), "");
    assert_eq!(types(&events), vec!["empty"]);
    assert!(!EMPTY_RIVER_MESSAGE.is_empty());
}

#[test]
fn a_broken_only_fleet_still_shows_its_markers() {
    let broken = vec![BrokenProject {
        id: "broken".to_owned(),
        config_path: "/w/broken/coxagent.json".to_owned(),
        error: "invalid config".to_owned(),
    }];
    let events = river_boot(&mut Vec::new(), &broken, &Vec::new(), "");
    assert_eq!(types(&events), vec!["hello", "project_broken"]);
    match &events[1] {
        RiverEvent::Broken { project } => {
            assert_eq!(project.id, "broken");
            assert_eq!(project.config_path, "/w/broken/coxagent.json");
        }
        _ => panic!("a marker"),
    }
}

#[test]
fn a_failing_store_is_skipped_and_recovers_with_a_bounded_backlog() {
    let mut projects = vec![project("p")];
    let boot = river_boot(&mut projects, &Vec::new(), &vec![None], "");
    assert_eq!(types(&boot), vec!["hello"], "an unreadable project contributes nothing");

    let late = (0..3)
        .map(|i| entry(&format!("2026-08-29T00:0{i}:00Z"), "DEV", &format!("late {i}")))
        .collect();
    let tick = river_tick(&mut projects, &vec![Some(loaded(late))], "");
    assert_eq!(
        types(&tick),
        vec!["agent_activity", "agent_activity", "agent_activity", "project_state"]
    );
    match &tick[0] {
        RiverEvent::Activity { entry, .. } => assert_eq!(entry.action, "late 0"),
        _ => panic!("an activity event"),
    }
}

#[test]
fn a_member_principal_cannot_reach_other_teams_projects_in_the_scope() {
    let u = AuthUser {
        username: "op".to_owned(),
        name: String::new(),
        email: String::new(),
        role: AuthRole::Fe,
        projects: vec!["mine".to_owned()],
    };
    let registered = vec!["mine".to_owned(), "theirs".to_owned()];
    assert_eq!(river_scope(Some(&u), &registered), vec!["mine".to_owned()]);
}

#[test]
fn a_space_scope_shows_only_what_the_caller_may_see_of_it() {
    let spaces = vec![Space {
        id: "s".to_owned(),
        name: "S".to_owned(),
        tagline: String::new(),
        admins: Vec::new(),
        projects: vec!["a".to_owned(), "b".to_owned()],
        members: Vec::new(),
        created_by: String::new(),
        created_at: String::new(),
    }];
    let registered = vec!["a".to_owned(), "b".to_owned(), "c".to_owned()];
    let u = principal(AuthRole::Fe, &["b", "c"]);
    let query = |scope: Option<&str>, space: Option<&str>| RiverQuery {
        project_id: None,
        phase: None,
        scope: scope.map(str::to_owned),
        space: space.map(str::to_owned),
    };
    assert_eq!(
        ids(&river_projects(Some(&u), &registered, &spaces, &query(Some("space"), Some("s")))),
        vec!["b"]
    );
    assert!(river_projects(Some(&u), &registered, &spaces, &query(Some("space"), Some("?"))).is_empty());
    assert!(river_projects(Some(&u), &registered, &spaces, &query(Some("space"), None)).is_empty());
    assert_eq!(
        ids(&river_projects(Some(&u), &registered, &spaces, &query(None, Some("s")))),
        vec!["b", "c"]
    );
    let broken = vec![BrokenProject {
        id: "theirs".to_owned(),
        config_path: String::new(),
        error: String::new(),
    }];
    assert!(visible_broken(Some(&u), &broken, None).is_empty());
    assert_eq!(visible_broken(None, &broken, None).len(), 1);
    assert!(visible_broken(None, &broken, Some("other")).is_empty());
}
