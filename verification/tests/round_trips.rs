//! What one call undoes of another, and what stays the same when asked twice.

use coxagent_presentation::board::{Status, TicketType};
use coxagent_presentation::downloads::{mime_of, sanitize_name};
use coxagent_presentation::guards::{cookie_value, SESSION_COOKIE};
use coxagent_presentation::invites::{
    create_invite, delete_invite, invite_valid, InviteCreateReq,
};
use coxagent_presentation::lessons::{
    plan_escalation, EscalatePlan, Escalation, LessonRecord, LessonTicket,
};
use coxagent_presentation::manage::{create_space, delete_space, SpaceReq};
use coxagent_presentation::people::session_cookie;
use coxagent_presentation::projects::{register_project, unregister_project};
use coxagent_presentation::security::{base64_std, disposition_of};
use coxagent_presentation::viewers::{Rooms, Roster};

fn strings(v: &[&str]) -> Vec<String> {
    v.iter().map(|s| (*s).to_owned()).collect()
}

#[test]
fn a_session_cookie_is_read_back() {
    let set = session_cookie("tok123", "; Secure");
    let sent = set.split("; ").next().expect("the pair").to_owned();
    assert_eq!(sent, "cox_session=tok123");
    assert_eq!(cookie_value(Some(sent.as_str()), SESSION_COOKIE), Some("tok123".to_owned()));
}

#[test]
fn a_stored_name_is_stored_as_it_is() {
    let once = sanitize_name("my report (1).pdf");
    assert_eq!(once, "my_report__1_.pdf");
    assert_eq!(sanitize_name(&once), once);
    assert_eq!(mime_of(&once), "application/pdf");
}

#[test]
fn a_picture_with_scripts_is_a_download() {
    assert_eq!(mime_of("LOGO.SVG"), "image/svg+xml");
    assert_eq!(disposition_of("LOGO.SVG"), Some("attachment"));
    assert_eq!(disposition_of("logo.png"), None);
}

#[test]
fn encodings_tell_bytes_apart() {
    assert_eq!(base64_std(b"ab"), "YWI=");
    assert_eq!(base64_std(b"ab\0"), "YWIA");
    assert_eq!(base64_std(b"\xff\xfe\xfd\xfc"), "//79/A==");
}

#[test]
fn a_project_belongs_to_one_space() {
    let req = |name: &str, projects: &[&str]| SpaceReq {
        name: name.to_owned(),
        tagline: String::new(),
        admins: Vec::new(),
        projects: strings(projects),
        members: Vec::new(),
    };
    let users = Vec::new();
    let mut order = strings(&["p"]);
    let mut spaces = Vec::new();
    assert!(create_space(&mut spaces, true, &req("A", &["p"]), &users, &order, "a", "s", "t").is_ok());
    assert!(create_space(&mut spaces, true, &req("B", &[]), &users, &order, "b", "s", "t").is_ok());
    assert!(register_project(&mut order, &mut spaces, "q", &Some("b".to_owned())).is_ok());
    assert_eq!(spaces[0].projects, strings(&["p"]));
    assert_eq!(spaces[1].projects, strings(&["q"]));
    unregister_project(&mut order, &mut spaces, "p");
    assert!(spaces[0].projects.is_empty());
    assert!(delete_space(&mut spaces, true, "b").is_ok());
    assert!(create_space(&mut spaces, true, &req("C", &["q"]), &users, &order, "c", "s", "t").is_ok());
    assert_eq!(spaces.len(), 2);
}

#[test]
fn an_invitation_works_until_it_is_withdrawn() {
    let mut invites = Vec::new();
    let req = InviteCreateReq { role: None, projects: Vec::new(), uses: Some(0) };
    assert!(create_invite(&mut invites, &req, true, &Vec::new(), &Vec::new(), "t", "ann", "now").is_ok());
    assert_eq!(invites[0].uses_left, 1);
    assert!(invite_valid(&invites, "t"));
    delete_invite(&mut invites, "t");
    assert!(!invite_valid(&invites, "t"));
}

#[test]
fn a_visit_leaves_no_trace() {
    let mut r = Roster::new();
    r.join("ann");
    r.join("bob");
    r.leave("bob");
    assert_eq!(r.online_users(), strings(&["ann"]));
    let mut rooms = Rooms::new();
    rooms.presence("p/d", "ann", true);
    rooms.presence("p/d", "bob", true);
    assert_eq!(rooms.presence("p/d", "bob", false), strings(&["ann"]));
}

#[test]
fn an_escalation_in_flight_is_returned() {
    let records = vec![LessonRecord {
        text: "check the port".to_owned(),
        escalated: Some(Escalation { ticket: "T-1".to_owned(), stage: "filed".to_owned() }),
    }];
    let ticket = |status| {
        vec![LessonTicket {
            id: "T-1".to_owned(),
            title: "Prevention: check the port".to_owned(),
            ticket_type: TicketType::Chore,
            status,
        }]
    };
    assert!(matches!(
        plan_escalation(&records, &ticket(Status::Ready), " check the port "),
        Ok(EscalatePlan::Already(e)) if e.ticket == "T-1"
    ));
    assert!(matches!(
        plan_escalation(&records, &ticket(Status::Done), "check the port"),
        Ok(EscalatePlan::File(t)) if t.title == "Prevention: check the port"
    ));
}
