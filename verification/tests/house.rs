//! Spaces, invitations, meetings and the hub as a whole.

use coxagent_presentation::fleet_spend::{
    admit_fleet, alert_step, day, fleet_rows, space_of, HubAlert,
};
use coxagent_presentation::guards::{AuthRole, AuthUser, HubRole};
use coxagent_presentation::hub::{
    admit_request, bad_request_error, bind_address, bridges_bus, broadcast_channel, chat_projects, chat_user,
    cli_report, conflict_error, extract_pid_from_path, find_asset, machine_host, runs_loops,
    serves_metrics, trusts_proxy, user_may_see_broadcast, versioned, CliOutput, ProjectRef,
};
use coxagent_presentation::invites::{
    admit_invite_list, admit_join, create_invite, delete_invite, invite_url, invite_valid,
    join_page, name_taken, redeem_invite, InviteCreateReq,
};
use coxagent_presentation::manage::{
    admit_audit_log, admit_overview, channel_invited, count_role, create_space, delete_space,
    list_directory, newest_ten, overview, space_assignments, space_member, space_online,
    space_people, space_worker, spaces_for, unassigned_projects, update_space, user_of_worker,
    validate_space_req, watch_space, FileEntry, SpaceReq, Workspace,
};
use coxagent_presentation::meetings::{
    book_meeting, cancel_frames, invite_all, join_meeting, list_meetings, patch_frames, patch_meeting,
    ring_participant, watch_meetings, Caller, FrameKind, Meeting, MeetingPatch, MeetingReq,
};
use coxagent_presentation::metrics_admin::{metrics_port, DEFAULT_METRICS_PORT};
use coxagent_presentation::realtime::{
    admit_terminal, stream_viewer, terminal_action, terminal_frame, TerminalAction,
    TerminalContext, TerminalEvent, TerminalFrame,
};
use coxagent_presentation::repro_url::repro_snapshot;
use coxagent_presentation::board::Status;
use coxagent_presentation::search::{admit_search, SearchScope};
use coxagent_presentation::spaces::Space;
use coxagent_presentation::viewers::{Rooms, Roster};

fn strings(list: &[&str]) -> Vec<String> {
    list.iter().map(|s| (*s).to_owned()).collect()
}

fn user(name: &str, role: AuthRole, projects: &[&str]) -> AuthUser {
    AuthUser {
        username: name.to_owned(),
        name: String::new(),
        email: String::new(),
        role,
        projects: strings(projects),
    }
}

fn space(id: &str, admins: &[&str], projects: &[&str], members: &[&str]) -> Space {
    Space {
        id: id.to_owned(),
        name: id.to_owned(),
        tagline: String::new(),
        admins: strings(admins),
        projects: strings(projects),
        members: strings(members),
        created_by: String::new(),
        created_at: String::new(),
    }
}

fn space_req(name: &str, projects: &[&str]) -> SpaceReq {
    SpaceReq {
        name: name.to_owned(),
        tagline: String::new(),
        admins: strings(&["Ann"]),
        projects: strings(projects),
        members: strings(&["bob", " "]),
    }
}

#[test]
fn a_breach_pauses_once_and_falls_back() {
    let (mut flagged, mut warned) = (Vec::new(), Vec::new());
    let mut pass = |capped, over, near| {
        let a = watch_space(&mut flagged, &mut warned, "s", capped, over, near);
        (a.warn, a.pause)
    };
    assert_eq!(pass(true, false, true), (true, false));
    assert_eq!(pass(true, true, true), (false, true));
    assert_eq!(pass(true, true, true), (false, false));
    assert_eq!(pass(true, false, false), (false, false));
    assert_eq!(pass(true, true, true), (true, true));
    assert_eq!(pass(false, true, true), (false, false));
}

#[test]
fn a_space_takes_known_people_and_free_projects() {
    let users = strings(&["ann", "bob"]);
    let projects = strings(&["p", "q"]);
    let spaces = vec![space("s", &["ann"], &["p"], &[])];
    let l = validate_space_req(&space_req("New", &["q"]), &users, &projects, &spaces, None)
        .expect("valid");
    assert_eq!(l.projects, strings(&["q"]));
    let refused = |req: &SpaceReq| {
        validate_space_req(req, &users, &projects, &spaces, None).expect_err("refused")
    };
    assert_eq!(refused(&space_req("New", &["z"])), "unknown project: z");
    assert_eq!(
        refused(&space_req("New", &["p"])),
        "project p already belongs to space s"
    );
    assert_eq!(refused(&space_req(&"x".repeat(61), &["q"])), "name too long (max 60)");
    let mut req = space_req("New", &["q"]);
    req.admins = strings(&["eve"]);
    assert_eq!(refused(&req), "unknown user: eve");
    req.tagline = "x".repeat(161);
    assert_eq!(refused(&req), "tagline too long (max 160)");
    assert!(validate_space_req(&space_req("S", &["p"]), &users, &projects, &spaces, Some("s")).is_ok());
}

#[test]
fn spaces_are_made_changed_and_dissolved() {
    let users = strings(&["ann", "bob"]);
    let projects = strings(&["p", "q"]);
    let mut spaces = Vec::new();
    let e = create_space(&mut spaces, false, &space_req("New", &["q"]), &users, &projects, "n", "ann", "now")
        .expect_err("super only");
    assert_eq!(e.status, 403);
    assert!(create_space(&mut spaces, true, &space_req(" New ", &["q"]), &users, &projects, "n", "ann", "now").is_ok());
    assert_eq!(spaces[0].name, "New");
    assert_eq!(spaces[0].projects, strings(&["q"]));
    assert!(create_space(&mut spaces, true, &space_req("Two", &["q"]), &users, &projects, "t", "ann", "now").is_err());
    let req = space_req("Newer", &["p", "q"]);
    assert!(update_space(&mut spaces, false, "eve", "n", &req, &users, &projects).is_err());
    assert!(update_space(&mut spaces, true, "eve", "n", &req, &users, &projects).is_ok());
    assert_eq!(spaces[0].projects.len(), 2);
    assert!(update_space(&mut spaces, true, "eve", "?", &req, &users, &projects).is_err());
    assert!(delete_space(&mut spaces, false, "n").is_err());
    assert!(delete_space(&mut spaces, true, "n").is_ok());
    assert!(spaces.is_empty());
}

#[test]
fn people_see_the_spaces_they_are_in() {
    let spaces = vec![
        space("a", &["ann"], &["p"], &[]),
        space("b", &[], &["q"], &["bob"]),
        space("c", &[], &["r"], &[]),
    ];
    assert_eq!(spaces_for(&spaces, true, "x", &Vec::new()), vec![0, 1, 2]);
    assert_eq!(spaces_for(&spaces, false, "ann", &Vec::new()), vec![0]);
    assert_eq!(spaces_for(&spaces, false, "eve", &strings(&["r"])), vec![2]);
    assert!(space_member(&user("bob", AuthRole::Fe, &[]), &spaces[1]));
    assert!(space_worker(&user("eve", AuthRole::Fe, &["r"]), &spaces[2]));
    let people = vec![user("bob", AuthRole::Fe, &["q"]), user("cat", AuthRole::Be, &["q"])];
    assert_eq!(count_role(&people, &spaces[1], AuthRole::Fe), 1);
    assert_eq!(unassigned_projects(&strings(&["p", "z"]), &spaces), strings(&["z"]));
    assert_eq!(user_of_worker("bob@mac"), "bob");
    let online = vec![("q".to_owned(), strings(&["bob"])), ("p".to_owned(), strings(&["ann"]))];
    assert_eq!(space_online(&spaces[1], &online), strings(&["bob"]));
    let o = overview(&strings(&["p", "z"]), &spaces, &people, &online);
    assert_eq!((o.projects, o.users, o.online), (2, 2, 2));
    assert_eq!(o.unassigned, strings(&["z"]));
    assert_eq!(o.spaces.len(), 3);
    assert_eq!(o.spaces[1].members, 2);
    assert_eq!(o.spaces[1].roles, vec![(AuthRole::Fe, 1), (AuthRole::Be, 1)]);
    assert_eq!(o.spaces[1].online, strings(&["bob"]));
    assert_eq!(o.spaces[2].members, 0);
    assert_eq!(space_people(&people, &spaces[1]), vec![(0, false), (1, false)]);
    let ann = vec![user("Ann", AuthRole::Fe, &[])];
    assert_eq!(space_people(&ann, &spaces[0]), vec![(0, true)]);
    let pair = |m: &str, p: &str| (m.to_owned(), p.to_owned());
    assert_eq!(
        space_assignments(&space("d", &[], &["p", "q"], &["bob", "cat"])),
        vec![pair("bob", "p"), pair("bob", "q"), pair("cat", "p"), pair("cat", "q")]
    );
    assert!(admit_overview(true).is_ok());
    assert_eq!(admit_overview(false).expect_err("super only").status, 403);
    assert!(admit_audit_log(false, &None).is_ok());
    assert_eq!(admit_audit_log(true, &None).expect_err("anonymous").status, 403);
    assert_eq!((newest_ten(3), newest_ten(25)), (0, 15));
}

#[test]
fn a_directory_lists_folders_first() {
    let e = |name: &str, dir| FileEntry { name: name.to_owned(), dir, size: 1 };
    let listed = list_directory(&vec![
        e("b.rs", false),
        e(".git", true),
        e("src", true),
        e("a.rs", false),
        e("node_modules", true),
        e("docs", true),
    ]);
    let names: Vec<&str> = listed.iter().map(|e| e.name.as_str()).collect();
    assert_eq!(names, vec!["docs", "src", "a.rs", "b.rs"]);
}

#[test]
fn the_company_is_restated() {
    let mut w = Workspace {
        name: " ".to_owned(),
        tagline: String::new(),
        accent: String::new(),
        conventions: "tabs".to_owned(),
    };
    assert!(!w.configured());
    w.put(" Acme ", " t ", "#fff", &None);
    assert!(w.configured());
    assert_eq!((w.name.as_str(), w.tagline.as_str(), w.conventions.as_str()), ("Acme", "t", "tabs"));
    w.put("Acme", "t", "#fff", &Some(" spaces ".to_owned()));
    assert_eq!(w.conventions, "spaces");
    assert!(channel_invited(true, true, &Ok(())).is_ok());
    assert_eq!(channel_invited(false, true, &Ok(())).expect_err("project").status, 404);
    assert_eq!(channel_invited(true, false, &Ok(())).expect_err("load").status, 500);
    assert_eq!(channel_invited(true, true, &Err("no".to_owned())).expect_err("closed").status, 403);
}

#[test]
fn an_invitation_is_used_up() {
    let mut invites = Vec::new();
    let req = |uses, projects: &[&str]| InviteCreateReq {
        role: None,
        projects: strings(projects),
        uses,
    };
    let spaces = vec![space("s", &["ann"], &["p"], &[])];
    assert!(create_invite(&mut invites, &req(Some(0), &["p"]), false, &spaces, &vec![0], "t1", "ann", "now").is_ok());
    assert_eq!(invites[0].uses_left, 1);
    assert_eq!(invites[0].role, "viewer");
    let e = create_invite(&mut invites, &req(None, &["q"]), false, &spaces, &vec![0], "t2", "ann", "now")
        .expect_err("foreign project");
    assert_eq!(e.status, 403);
    assert!(create_invite(&mut invites, &req(None, &["q"]), true, &spaces, &vec![], "t2", "ann", "now").is_ok());
    assert_eq!(invites[1].uses_left, 5);
    assert!(invite_valid(&invites, "t1"));
    assert_eq!(redeem_invite(&mut invites, "t1").expect("redeemed").projects, strings(&["p"]));
    assert!(!invite_valid(&invites, "t1"));
    assert_eq!(redeem_invite(&mut invites, "t1").expect_err("used up").status, 403);
    delete_invite(&mut invites, "t2");
    assert!(invites.is_empty());
    assert!(invite_url("tok").ends_with("/join/tok"));
    assert_eq!(admit_join(true, " bob ", "12345678").ok(), Some("bob".to_owned()));
    assert_eq!(admit_join(true, "bob", "1234567").expect_err("short").status, 400);
    assert_eq!(admit_join(false, "bob", "12345678").expect_err("no accounts").status, 501);
    assert_eq!(name_taken().status, 409);
    assert!(join_page("<Acme>", true, "tok").contains("&lt;Acme&gt;"));
    assert!(!join_page("Acme", false, "tok").contains("tok"));
    assert!(admit_invite_list(false, &None).is_ok());
    assert_eq!(
        admit_invite_list(true, &Some(user("x", AuthRole::Fe, &[]))).expect_err("member").status,
        403
    );
}

const NOW: i128 = 1_800_000_000_000_000_000;
const MINUTE: i128 = 60_000_000_000;

fn at(nanos: i128) -> String {
    time::OffsetDateTime::from_unix_timestamp_nanos(nanos)
        .unwrap()
        .format(&time::format_description::well_known::Rfc3339)
        .unwrap()
}

fn booking(start: i128) -> MeetingReq {
    MeetingReq {
        title: " Sync ".to_owned(),
        start: at(start),
        duration_min: Some(1),
        participants: strings(&["bob", " bob ", ""]),
        remind_min: None,
        agenda: None,
    }
}

fn booked(start: i128) -> Meeting {
    book_meeting(&booking(start), &Some("ann".to_owned()), NOW, 0xab).expect("booked")
}

#[test]
fn a_meeting_is_booked_within_bounds() {
    let m = booked(NOW + 60 * MINUTE);
    assert_eq!(m.id, "mtg-000000ab");
    assert_eq!(m.title, "Sync");
    assert_eq!(m.duration_min, 5);
    assert_eq!(m.remind_min, 10);
    assert_eq!(m.participants, strings(&["bob", "ann"]));
    let refused = |req: &MeetingReq, who: &Option<String>| {
        book_meeting(req, who, NOW, 1).expect_err("refused").status
    };
    assert_eq!(refused(&booking(NOW), &None), 401);
    let ann = Some("ann".to_owned());
    assert_eq!(refused(&booking(NOW - 2 * MINUTE), &ann), 400);
    assert_eq!(refused(&MeetingReq { title: " ".to_owned(), ..booking(NOW) }, &ann), 400);
    assert_eq!(refused(&MeetingReq { start: "soon".to_owned(), ..booking(NOW) }, &ann), 400);
}

#[test]
fn each_message_of_a_meeting_is_sent_once() {
    let start = NOW + 5 * MINUTE;
    let mut meetings = vec![booked(start)];
    let mut kinds = |now| {
        let (frames, _) = watch_meetings(&mut meetings, now);
        frames.iter().map(|f| (f.kind, f.to.clone())).collect::<Vec<_>>()
    };
    let both = |k| vec![(k, "bob".to_owned()), (k, "ann".to_owned())];
    assert_eq!(kinds(NOW), both(FrameKind::Remind));
    assert!(kinds(NOW + MINUTE).is_empty());
    assert_eq!(kinds(start), both(FrameKind::Start));
    assert_eq!(kinds(start + MINUTE), both(FrameKind::Ring));
    assert!(kinds(start + 2 * MINUTE).is_empty());
    assert!(kinds(start + 26 * 60 * MINUTE).is_empty());
    assert!(meetings.is_empty(), "a day after its end a meeting is forgotten");
}

#[test]
fn a_meeting_is_joined_rung_and_changed() {
    let start = NOW + 5 * MINUTE;
    let mut meetings = vec![booked(start)];
    let id = meetings[0].id.clone();
    let bob = Some("bob".to_owned());
    assert!(join_meeting(&mut meetings, &bob, &id).is_ok());
    assert_eq!(meetings[0].joined, strings(&["bob"]));
    assert!(join_meeting(&mut meetings, &bob, "?").is_err());
    assert_eq!(ring_participant(&meetings, &bob, &id, "ann").expect("rung").to, "ann");
    let invited = invite_all(&meetings[0], 0);
    assert_eq!(invited.len(), 1, "the organiser needs no invitation");
    assert_eq!(invited[0].to, "bob");
    assert!(list_meetings(&meetings, &bob).expect("listed").len() == 1);
    let mut far = meetings[0].clone();
    far.start = "2026-01-01T09:00:00+05:00".to_owned();
    let mut near = meetings[0].clone();
    near.start = "2026-01-01T05:00:00Z".to_owned();
    let mut odd = meetings[0].clone();
    odd.start = "2020".to_owned();
    let listed = list_meetings(&vec![odd, near, far], &bob).expect("listed");
    assert_eq!(listed.iter().map(|m| m.at).collect::<Vec<_>>(), vec![2, 1, 0]);
    assert!(list_meetings(&meetings, &None).is_err());
    let patch = |cancel, start: Option<String>| MeetingPatch {
        cancel,
        title: None,
        start,
        duration_min: None,
        participants: None,
        agenda: None,
    };
    let caller = |name: &str, may_manage| {
        Some(Caller { username: name.to_owned(), may_manage })
    };
    let p = patch(None, Some(at(start + MINUTE)));
    assert_eq!(patch_meeting(&mut meetings, false, &None, &id, &p).expect_err("open").status, 501);
    assert_eq!(patch_meeting(&mut meetings, true, &None, &id, &p).expect_err("anon").status, 401);
    assert_eq!(
        patch_meeting(&mut meetings, true, &caller("bob", false), &id, &p).expect_err("guest").status,
        403
    );
    assert_eq!(
        patch_meeting(&mut meetings, true, &caller("ann", false), "?", &p).expect_err("?").status,
        404
    );
    meetings[0].reminded = true;
    assert!(patch_meeting(&mut meetings, true, &caller("ann", false), &id, &p).is_ok());
    assert!(!meetings[0].reminded, "a moved meeting is announced again");
    assert!(patch_meeting(&mut meetings, true, &caller("eve", true), &id, &patch(Some(true), None)).is_ok());
    assert!(meetings[0].cancelled);
    assert_eq!(cancel_frames(&meetings[0], 0).len(), 2);
    assert_eq!(patch_frames(&meetings[0], 0, &patch(Some(true), None)).len(), 2);
    assert!(patch_frames(&meetings[0], 0, &patch(Some(false), None)).is_empty());
    assert!(patch_frames(&meetings[0], 0, &p).is_empty());
    let (frames, _) = watch_meetings(&mut meetings, start + 2 * MINUTE);
    assert!(frames.is_empty(), "a cancelled meeting is silent");
}

#[test]
fn metrics_port_defaults_when_unset_or_garbage() {
    assert_eq!(metrics_port(None), DEFAULT_METRICS_PORT);
    assert_eq!(metrics_port(Some("not-a-port")), DEFAULT_METRICS_PORT);
    assert_eq!(metrics_port(Some("70000")), DEFAULT_METRICS_PORT);
    assert_eq!(metrics_port(Some(" 9100 ")), 9100);
    assert_eq!(DEFAULT_METRICS_PORT, 9010);
}

#[test]
fn a_process_knows_its_part() {
    assert!(runs_loops(HubRole::All) && runs_loops(HubRole::Knowledge));
    assert!(!runs_loops(HubRole::Gateway) && !runs_loops(HubRole::Realtime));
    assert!(serves_metrics(HubRole::Gateway) && !serves_metrics(HubRole::Knowledge));
    assert!(bridges_bus(HubRole::Gateway, Some("redis://x")));
    assert!(!bridges_bus(HubRole::Gateway, Some("  ")));
    assert!(!bridges_bus(HubRole::All, None));
    assert!(!bridges_bus(HubRole::Knowledge, Some("redis://x")));
    assert_eq!(bind_address(None, 4711), "127.0.0.1:4711");
    assert_eq!(bind_address(Some("0.0.0.0"), 80), "0.0.0.0:80");
    assert!(trusts_proxy(Some("1")) && !trusts_proxy(Some("true")) && !trusts_proxy(None));
    assert_eq!(conflict_error("x").status, 409);
    assert_eq!(bad_request_error("x").status, 400);
}

#[test]
fn the_front_page_versions_its_assets() {
    let html = "<link href=\"/assets/app.css\"><link href=\"/assets/tabler-icons.min.css\"><script src=\"/assets/js/core.js\"></script>";
    assert_eq!(
        versioned(html, "ab12"),
        "<link href=\"/assets/app.css?v=ab12\"><link href=\"/assets/tabler-icons.min.css?v=ab12\"><script src=\"/assets/js/core.js?v=ab12\"></script>"
    );
    let names = strings(&["core.js", "shell.js"]);
    assert_eq!(find_asset(&names, "shell.js"), Some(1));
    assert_eq!(find_asset(&names, "x.js"), None);
}

#[test]
fn paths_tools_and_hosts_are_read() {
    assert_eq!(extract_pid_from_path("/api/projects/acme/prs"), Some("acme".to_owned()));
    assert_eq!(extract_pid_from_path("/api/projects/acme"), Some("acme".to_owned()));
    assert_eq!(extract_pid_from_path("/api/projects/"), Some(String::new()));
    assert_eq!(extract_pid_from_path("/api/health"), None);
    assert_eq!(cli_report("gh", &None), (false, "gh not found".to_owned()));
    let out = CliOutput { success: true, stdout: "a".to_owned(), stderr: "b".to_owned() };
    assert_eq!(cli_report("gh", &Some(out)), (true, "ab".to_owned()));
    assert_eq!(machine_host(Some(" mac\n")), "mac");
    assert_eq!(machine_host(Some("\n")), "local");
    assert_eq!(machine_host(None), "local");
}

#[test]
fn private_messages_reach_members_only() {
    assert_eq!(broadcast_channel(r#"{"channel":"ops"}"#), "ops");
    assert_eq!(broadcast_channel(r#"{"text":"hi"}"#), "general");
    assert_eq!(broadcast_channel("not json"), "general");
    assert!(user_may_see_broadcast("general", None));
    assert!(user_may_see_broadcast("ops", Some(true)));
    assert!(!user_may_see_broadcast("ops", Some(false)));
    assert!(!user_may_see_broadcast("ops", None));
    let r = |id: &str| ProjectRef {
        id: id.to_owned(),
        alias: String::new(),
        name: String::new(),
    };
    let listed = chat_projects(&strings(&["b", "gone", "a"]), &vec![r("a"), r("b")]);
    let ids: Vec<&str> = listed.iter().map(|p| p.id.as_str()).collect();
    assert_eq!(ids, vec!["b", "a"]);
    assert!(chat_user(&"ann".to_owned(), AuthRole::Super, &Vec::new()).admin);
    assert!(!chat_user(&"ann".to_owned(), AuthRole::Fe, &Vec::new()).admin);
}

#[test]
fn a_terminal_is_for_admins_alone() {
    let context = |user: Option<AuthUser>| TerminalContext {
        serves_realtime: true,
        same_origin: true,
        accounts: true,
        user,
        project_exists: true,
        no_inline_exec: false,
    };
    let admin = || Some(user("root", AuthRole::Admin, &[]));
    assert_eq!(admit_terminal(&context(admin())).ok(), Some("root".to_owned()));
    let owner = Some(user("owner", AuthRole::Super, &[]));
    assert_eq!(admit_terminal(&context(owner)).ok(), Some("owner".to_owned()));
    let open = TerminalContext { accounts: false, ..context(None) };
    assert_eq!(admit_terminal(&open).ok(), Some("user".to_owned()));
    let refused = |c: TerminalContext| admit_terminal(&c).expect_err("refused").status;
    assert_eq!(refused(context(None)), 401);
    for role in AuthRole::all() {
        if role != AuthRole::Admin && role != AuthRole::Super {
            assert_eq!(refused(context(Some(user("m", role, &[])))), 403);
        }
    }
    assert_eq!(refused(TerminalContext { same_origin: false, ..context(admin()) }), 403);
    assert_eq!(refused(TerminalContext { serves_realtime: false, ..context(admin()) }), 503);
    assert_eq!(refused(TerminalContext { project_exists: false, ..context(admin()) }), 404);
    assert_eq!(refused(TerminalContext { no_inline_exec: true, ..context(admin()) }), 503);
    assert!(matches!(terminal_frame(r#"{"input":"ls"}"#), TerminalFrame::Input(s) if s == "ls"));
    assert!(matches!(terminal_frame("garbage"), TerminalFrame::Ignore));
    assert!(matches!(
        terminal_frame(r#"{"resize":{"cols":9999,"rows":1}}"#),
        TerminalFrame::Resize { cols: 500, rows: 4 }
    ));
    assert!(matches!(
        terminal_frame(r#"{"resize":{}}"#),
        TerminalFrame::Resize { cols: 100, rows: 30 }
    ));
    assert!(matches!(
        terminal_action(&TerminalEvent::Text(r#"{"input":"ls"}"#.to_owned())),
        TerminalAction::Type(s) if s == "ls"
    ));
    assert!(matches!(
        terminal_action(&TerminalEvent::Text("garbage".to_owned())),
        TerminalAction::Nothing
    ));
    assert!(matches!(terminal_action(&TerminalEvent::Other), TerminalAction::Nothing));
    assert!(matches!(terminal_action(&TerminalEvent::Printed), TerminalAction::Forward));
    assert!(matches!(
        terminal_action(&TerminalEvent::ShellEnded),
        TerminalAction::SayAndEnd("\r\n[session ended]\r\n")
    ));
    assert!(matches!(terminal_action(&TerminalEvent::Broken), TerminalAction::End));
    assert_eq!(stream_viewer(true, &admin()), "root");
}

#[test]
fn a_search_stays_with_its_reader() {
    let registered = strings(&["p"]);
    let fe = Some(user("fe", AuthRole::Fe, &["p"]));
    let p = Some("p".to_owned());
    assert!(matches!(admit_search(true, &fe, &p, &registered), Ok(SearchScope::One(id)) if id == "p"));
    assert!(matches!(admit_search(true, &fe, &None, &registered), Ok(SearchScope::All)));
    assert!(matches!(
        admit_search(true, &fe, &Some(String::new()), &registered),
        Ok(SearchScope::All)
    ));
    let refused = |u: &Option<AuthUser>, pid: &str| {
        admit_search(true, u, &Some(pid.to_owned()), &registered).expect_err("refused").status
    };
    assert_eq!(refused(&None, "p"), 401);
    assert_eq!(refused(&fe, "q"), 403);
    assert_eq!(refused(&Some(user("a", AuthRole::Admin, &[])), "q"), 404);
    assert!(admit_search(false, &None, &p, &registered).is_ok());
}

#[test]
fn a_fix_can_be_seen_where_it_honestly_runs() {
    let config = r#"{"deploy":{"host_port":8101}}"#;
    let s = repro_snapshot(false, false, true, true, Some(Status::Fixed), Some(config)).expect("open");
    assert_eq!((s.host_port, s.preview_live, s.ticket_verify_pending), (Some(8101), false, true));
    let s = repro_snapshot(true, true, true, true, Some(Status::Open), Some("{corrupt")).expect("signed in");
    assert_eq!((s.host_port, s.ticket_verify_pending), (None, false));
    let refused = |signed_in, exists, loaded, ticket| {
        repro_snapshot(true, signed_in, exists, loaded, ticket, None).expect_err("refused").status
    };
    assert_eq!(refused(false, true, true, Some(Status::Fixed)), 401);
    assert_eq!(refused(true, false, true, Some(Status::Fixed)), 404);
    assert_eq!(refused(true, true, false, Some(Status::Fixed)), 500);
    assert_eq!(refused(true, true, true, None), 404);
}

#[test]
fn the_fleet_is_listed_whole_and_warned_once() {
    let spaces = vec![space("a", &[], &["p"], &[]), space("b", &[], &["p", "x"], &[])];
    assert_eq!(space_of(&spaces, "p"), Some("b".to_owned()));
    assert_eq!(space_of(&spaces, "z"), None);
    let rows = fleet_rows(
        &vec![("p".to_owned(), true), ("q".to_owned(), false)],
        &strings(&["x"]),
        &spaces,
    );
    let shown: Vec<(&str, bool)> = rows.iter().map(|r| (r.id.as_str(), r.broken)).collect();
    assert_eq!(shown, vec![("p", false), ("q", true), ("x", true)]);
    assert_eq!(alert_step(HubAlert::Fire, false), (true, true));
    assert_eq!(alert_step(HubAlert::Hold, true), (false, true));
    assert_eq!(alert_step(HubAlert::ReArm, true), (false, false));
    assert_eq!(alert_step(HubAlert::Clear, true), (false, false));
    assert_eq!(day("2026-08-29T00:00:00Z"), "2026-08-29");
    assert_eq!(day("2026"), "");
    assert_eq!(admit_fleet(false).expect_err("super only").status, 403);
}

#[test]
fn a_person_counts_once_however_many_windows() {
    let mut r = Roster::new();
    assert_eq!(r.count(), 1);
    r.join("bob");
    r.join("ann");
    r.join("bob");
    assert_eq!(r.count(), 2);
    assert_eq!(r.online_users(), strings(&["bob", "ann"]));
    assert_eq!(r.roster(), strings(&["ann", "bob"]));
    r.leave("bob");
    assert_eq!(r.count(), 2);
    r.leave("bob");
    assert_eq!(r.online_users(), strings(&["ann"]));
    r.leave("nobody");
    assert_eq!(r.count(), 1);
}

#[test]
fn rooms_close_behind_the_last() {
    let mut rooms = Rooms::new();
    assert_eq!(rooms.presence("p/d", "bob", true), strings(&["bob"]));
    assert_eq!(rooms.presence("p/d", "ann", true), strings(&["ann", "bob"]));
    assert_eq!(rooms.editors("p/d"), strings(&["bob", "ann"]));
    assert_eq!(rooms.presence("p/e", "cat", true), strings(&["cat"]));
    assert_eq!(rooms.presence("p/d", "bob", false), strings(&["ann"]));
    assert!(rooms.presence("p/d", "ann", false).is_empty());
    assert_eq!(rooms.rooms.len(), 1);
    assert!(rooms.presence("p/?", "ann", false).is_empty());
}

#[test]
fn strangers_and_viewers_are_turned_away_at_the_door() {
    let refused = |path: &str, reads: bool, caller: Option<AuthUser>| {
        admit_request(true, path, reads, &caller).err().map(|e| (e.status, e.text, e.as_json))
    };
    let told = |status: u16, text: &str, as_json: bool| Some((status, text.to_owned(), as_json));
    let dev = || Some(user("dev", AuthRole::Fe, &["p"]));
    let viewer = || Some(user("v", AuthRole::Viewer, &["p"]));
    assert_eq!(refused("/", true, None), None);
    assert_eq!(refused("/assets/app.css", true, None), None);
    assert_eq!(refused("/join/abc", true, None), None);
    assert_eq!(refused("/api/workspace/join", false, None), None);
    assert_eq!(refused("/api/workspace", true, None), told(401, "unauthenticated", true));
    assert_eq!(refused("/api/projects/p/state", true, dev()), None);
    assert_eq!(
        refused("/api/projects/q/state", true, dev()),
        told(403, "not a member of this project", true),
    );
    assert_eq!(refused("/api/projects/p/state", true, viewer()), None);
    assert_eq!(
        refused("/api/projects/p/ticket", false, viewer()),
        told(403, "your role may not take this decision", false),
    );
    let managers = told(403, "admin role required", false);
    assert_eq!(refused("/api/auth/tokens", true, dev()), managers);
    assert_eq!(refused("/api/workspace", true, dev()), None);
    assert_eq!(refused("/api/workspace", false, dev()), managers);
    assert_eq!(refused("/api/projects/p", true, dev()), None);
    assert_eq!(refused("/api/projects/p", false, dev()), managers);
    assert_eq!(refused("/api/projects/p/members", false, dev()), managers);
    assert_eq!(refused("/api/projects/p/members/bob", false, dev()), managers);
    assert_eq!(refused("/api/projects/p/git/connect", false, dev()), managers);
    assert_eq!(refused("/api/projects/p/git/test", false, dev()), None);
    assert_eq!(refused("/api/projects/p/share-links", true, dev()), managers);
    let lead = Some(user("lead", AuthRole::TechLead, &["p"]));
    assert_eq!(refused("/api/projects/p/members", false, lead), None);
    assert!(admit_request(false, "/api/projects/q/state", false, &None).is_ok());
}
