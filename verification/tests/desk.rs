//! The inbox, claims, lessons and forced merges.

use coxagent_presentation::board::{Priority, Status, TicketType};
use coxagent_presentation::claims::{
    claim_error, claim_gate, plan_handback, plan_takeover, ClaimError, RunnerFact,
};
use coxagent_presentation::forge::{
    confirm_login, force_fixed, force_found, force_merged, git_cli, git_test_push, git_test_reach,
    git_test_remote, git_test_start, host_of, login_failed, pr_action, prepare_login, queue_force,
    Connected, ForceNext, ForcePr, GitProbe, PrAction, Ran,
};
use coxagent_presentation::guards::{AuthRole, AuthUser};
use coxagent_presentation::inbox::{
    admit_upload, assign_ticket, assignment_note, attach, attachment_type, check_key, detach,
    gate_principal, human_pr_admit, human_pr_settle, human_transition, inbox_items, merge_failed,
    remove_attachment,
    revert_decision, safe, send_back, undo_approval, verdict_of, Attachment, AutoApproval, Hold,
    InboxItem, InboxState, InterventionKind, Moved, OpenPr, Powers, Question, Revert,
    RevertDecision, Review, TicketRow, Verdict,
};
use coxagent_presentation::lessons::{
    admit_dismiss, authorize_lesson_write, open_escalation_of, plan_escalation, settle_escalation,
    EscalatePlan, Escalation, LessonRecord, LessonTicket,
};

fn user(role: AuthRole, projects: &[&str]) -> AuthUser {
    AuthUser {
        username: "ann".to_owned(),
        name: String::new(),
        email: String::new(),
        role,
        projects: projects.iter().map(|p| (*p).to_owned()).collect(),
    }
}

fn row(id: &str, status: Status) -> TicketRow {
    TicketRow {
        id: id.to_owned(),
        title: id.to_owned(),
        status,
        priority: Priority::Medium,
        has_technical_design: true,
        assignee: None,
    }
}

fn state() -> InboxState {
    InboxState {
        tickets: Vec::new(),
        cost_holds: Vec::new(),
        cost_approved: Vec::new(),
        evidence: Vec::new(),
        hold_reasons: Vec::new(),
        auto_approved: Vec::new(),
        questions: Vec::new(),
        human_holds: Vec::new(),
        known_prs: Vec::new(),
        reverts: Vec::new(),
        reviews: Vec::new(),
        fix_attempts: Vec::new(),
        rescues: Vec::new(),
        gate_ready: true,
        gate_verify: true,
        undo_window_minutes: 30,
    }
}

fn powers(all: bool) -> Powers {
    Powers { approve_ready: all, verify: all, review: all }
}

fn pr(number: u64, mergeable: bool) -> OpenPr {
    OpenPr {
        number,
        title: format!("PR {number}"),
        url: String::new(),
        mergeable,
    }
}

#[test]
fn everything_that_waits_is_in_the_inbox() {
    let mut s = state();
    s.tickets.push(row("F1", Status::Pending));
    s.tickets.push(row("F2", Status::OnHold));
    s.hold_reasons.push(("F2".to_owned(), "waiting".to_owned()));
    s.tickets.push(TicketRow { assignee: Some("ann".to_owned()), ..row("F3", Status::InProgress) });
    s.tickets.push(row("F4", Status::Done));
    s.tickets.push(row("F5", Status::Ready));
    s.auto_approved.push(AutoApproval { ticket: "F5".to_owned(), age_secs: Some(600) });
    s.human_holds.push(Hold { number: 7, reason: "eyes".to_owned() });
    s.reverts.push(Revert {
        sha: "abc".to_owned(),
        ticket: "F4".to_owned(),
        subject: "undo".to_owned(),
        role: "DEV".to_owned(),
        reverted_at: String::new(),
        decision: RevertDecision::Pending,
    });
    s.questions.push(Question {
        id: "q1".to_owned(),
        ticket: "F3".to_owned(),
        from: "SA".to_owned(),
        to: "ann".to_owned(),
        body: "which?".to_owned(),
        answer: String::new(),
        asked_at: String::new(),
        escalated: false,
        deferred: false,
    });
    let items = inbox_items(&s, "ann", powers(true), &Some(vec![pr(9, true)]));
    assert!(items.iter().any(|i| matches!(
        i,
        InboxItem::OnHold { ticket, reason: Some(r), .. } if ticket == "F2" && r == "waiting"
    )));
    assert!(items.iter().any(|i| matches!(
        i,
        InboxItem::Assigned { ticket, .. } if ticket == "F3"
    )));
    assert!(items.iter().any(|i| matches!(
        i,
        InboxItem::AutoApproved { ticket, minutes_left: 20, .. } if ticket == "F5"
    )));
    assert!(items.iter().any(|i| matches!(i, InboxItem::HumanEyes { hold, .. } if hold.number == 7)));
    assert!(items.iter().any(|i| matches!(i, InboxItem::RevertedWork { .. })));
    assert!(items.iter().any(|i| matches!(i, InboxItem::Asked { question } if question.id == "q1")));
    assert!(items.iter().any(|i| matches!(i, InboxItem::ReviewPr { pr, .. } if pr.number == 9)));
    assert!(!items.iter().any(|i| matches!(i, InboxItem::Verify { ticket, .. } if ticket == "F4")));
    let other = inbox_items(&s, "ann", powers(false), &Some(vec![pr(9, true)]));
    assert_eq!(items.len(), other.len(), "the queue does not depend on the role");
    let said = |items: &[InboxItem]| -> Vec<(&'static str, String, bool)> {
        items.iter().map(|i| (i.kind(), i.role(), i.can_act())).collect()
    };
    let row = |kind, role: &str, can_act| (kind, role.to_owned(), can_act);
    assert_eq!(
        said(&other),
        vec![
            row("approve_ready", "BA/PO", false),
            row("on_hold", "PO", false),
            row("assigned", "you", true),
            row("auto_approved", "BA/PO", false),
            row("question", "you", true),
            row("human_eyes", "SA/dev", false),
            row("reverted_work", "DEV", false),
            row("review_pr", "SA/dev", false),
        ]
    );
    assert!(said(&items).iter().all(|(_, _, can_act)| *can_act));
}

#[test]
fn a_pull_request_that_waits_for_a_person_is_shown() {
    let shown = |s: &InboxState, p: OpenPr| inbox_items(s, "ann", powers(true), &Some(vec![p]));
    let mut s = state();
    assert!(matches!(
        shown(&s, pr(9, true)).as_slice(),
        [InboxItem::ReviewPr { held: true, .. }]
    ));
    assert!(shown(&s, pr(9, false)).is_empty());
    s.reviews.push(Review { number: 9, decision: "approve".to_owned() });
    assert!(matches!(
        shown(&s, pr(9, false)).as_slice(),
        [InboxItem::ReviewPr { held: false, .. }]
    ));
    s.human_holds.push(Hold { number: 9, reason: "eyes".to_owned() });
    assert!(!shown(&s, pr(9, false)).iter().any(|i| matches!(i, InboxItem::ReviewPr { .. })));
    let mut stuck = state();
    stuck.fix_attempts.push((9, 3));
    stuck.rescues.push((9, 1));
    assert!(matches!(
        shown(&stuck, pr(9, true)).as_slice(),
        [InboxItem::PrStuck { attempts: 3, .. }]
    ));
}

#[test]
fn a_gate_is_passed_by_role_or_by_an_open_hub() {
    let me = Some("ann".to_owned());
    assert_eq!(gate_principal(true, &me, true), me);
    assert_eq!(gate_principal(true, &me, false), None);
    assert_eq!(gate_principal(true, &None, true), None);
    assert_eq!(gate_principal(false, &None, false), Some("operator".to_owned()));
}

#[test]
fn a_held_pull_request_is_settled_once() {
    let me = Some("ann".to_owned());
    assert_eq!(verdict_of("approve").ok(), Some(Verdict::Approve));
    assert_eq!(verdict_of("dismiss").ok(), Some(Verdict::Dismiss));
    assert_eq!(verdict_of("merge").expect_err("unknown").status, 400);
    assert!(human_pr_admit(&me, "approve", true).is_ok());
    assert_eq!(human_pr_admit(&None, "approve", true).expect_err("role").status, 403);
    assert!(human_pr_admit(&me, "approve", false).is_err());
    assert!(human_pr_admit(&me, "dismiss", false).is_ok());
    assert!(merge_failed("conflict").text.contains("conflict"));
    let mut holds = vec![
        Hold { number: 7, reason: "eyes".to_owned() },
        Hold { number: 8, reason: "eyes".to_owned() },
    ];
    let s = human_pr_settle(&mut holds, Verdict::Approve, "ann", 7);
    assert_eq!(s.intervention, Some(InterventionKind::HumanPrReviewed));
    assert_eq!(holds.len(), 1);
    let s = human_pr_settle(&mut holds, Verdict::Approve, "bob", 7);
    assert_eq!(s.intervention, None, "of two people who decide at once one counts");
    let s = human_pr_settle(&mut holds, Verdict::Dismiss, "ann", 8);
    assert_eq!(s.intervention, Some(InterventionKind::HumanPrDismissed));
}

#[test]
fn a_decided_revert_is_final() {
    let me = Some("ann".to_owned());
    let mut reverts = vec![Revert {
        sha: "abc".to_owned(),
        ticket: "F4".to_owned(),
        subject: String::new(),
        role: String::new(),
        reverted_at: String::new(),
        decision: RevertDecision::Pending,
    }];
    assert_eq!(revert_decision(&mut reverts, &None, "approve", "abc").expect_err("role").status, 403);
    assert_eq!(revert_decision(&mut reverts, &me, "merge", "abc").expect_err("action").status, 400);
    assert_eq!(revert_decision(&mut reverts, &me, "approve", " ").expect_err("sha").status, 400);
    let activity = revert_decision(&mut reverts, &me, "approve", " abc ").expect("decided");
    assert_eq!(activity.text, "ann approved reverted work F4");
    assert_eq!(activity.ticket, Some("F4".to_owned()));
    assert_eq!(reverts[0].decision, RevertDecision::Approved);
    assert!(revert_decision(&mut reverts, &me, "dismiss", "abc").is_err());
    assert_eq!(reverts[0].decision, RevertDecision::Approved);
}

#[test]
fn a_transition_records_what_the_person_did() {
    let me = Some("ann".to_owned());
    let mut auto = vec!["F1".to_owned(), "F2".to_owned()];
    let plan =
        human_transition(&mut auto, &me, true, &Moved::Done, "F1", Status::Verified, "feature/ui")
            .expect("moved");
    assert_eq!(auto, vec!["F2".to_owned()]);
    assert!(plan.record_verified_outcome);
    assert_eq!(plan.intervention, Some(InterventionKind::VerifyPass));
    assert_eq!(plan.sample.shape, "feature/ui");
    assert_eq!(plan.sample.by, "ann");
    let plan = human_transition(&mut auto, &me, true, &Moved::Done, "F1", Status::Ready, "s")
        .expect("moved");
    assert_eq!(plan.intervention, Some(InterventionKind::ReadyApprove));
    let refused = |me: &Option<String>, loaded, moved: &Moved| {
        human_transition(&mut Vec::new(), me, loaded, moved, "F1", Status::Ready, "s")
            .expect_err("refused")
            .status
    };
    assert_eq!(refused(&None, true, &Moved::Done), 403);
    assert_eq!(refused(&me, false, &Moved::Done), 500);
    assert_eq!(refused(&me, true, &Moved::NoSuchTicket), 404);
    assert_eq!(refused(&me, true, &Moved::NotAllowed("no".to_owned())), 409);
    let back = send_back(&me, true, &Moved::Done, "F1", "broken").expect("sent back");
    assert_eq!(back.intervention, Some(InterventionKind::VerifySendBack));
    assert!(back.comment.text.contains("broken"));
    assert_eq!(assignment_note("F1", " bob ").text, "🧑‍💻 F1 assigned to @bob.");
    let (activity, comment) = assign_ticket(true, true, "F1", " ").expect("assigned");
    assert_eq!(activity.text, "assignment changed");
    assert_eq!(comment.text, "↩️ F1 returned to the agent pool.");
    assert_eq!(assign_ticket(false, true, "F1", "bob").expect_err("load").status, 500);
    assert_eq!(assign_ticket(true, false, "F1", "bob").expect_err("ticket").status, 404);
}

#[test]
fn an_undone_approval_asks_again() {
    let me = Some("ann".to_owned());
    let mut approved = vec!["F1".to_owned()];
    let mut again = Vec::new();
    let plan = undo_approval(&mut approved, &mut again, &me, true, &Moved::Done, "F1", "shape")
        .expect("undone");
    assert!(approved.is_empty());
    assert!(again.contains(&"shape".to_owned()));
    assert!(plan.chat.contains("F1"));
    assert_eq!(plan.intervention, InterventionKind::UndoAutoApprove);
    assert!(undo_approval(&mut approved, &mut again, &None, true, &Moved::Done, "F1", "s").is_err());
}

#[test]
fn attachments_stay_in_their_place() {
    assert!(check_key("uploads/F1/a.png").is_ok());
    assert!(check_key("").is_err());
    assert!(check_key("../etc/passwd").is_err());
    assert!(!safe("../x").contains('/'));
    assert_eq!(admit_upload("F1", "a.png", true, true).expect_err("empty").status, 400);
    assert_eq!(admit_upload("F1", "a.png", false, false).expect_err("storage").status, 409);
    assert_eq!(admit_upload("F1", "a.png", false, true).expect("admitted").key, "uploads/F1/a.png");
    let files = vec![Attachment {
        name: "a.png".to_owned(),
        key: "k".to_owned(),
        content_type: "image/png".to_owned(),
        by: String::new(),
        at: String::new(),
    }];
    assert_eq!(attachment_type(&files, "k"), "image/png");
    assert_eq!(attachment_type(&files, "other"), "application/octet-stream");
    assert!(remove_attachment(&files, "k").is_none(), "no file is left");
    assert_eq!(remove_attachment(&files, "other").map(|l| l.len()), Some(1));
    let mut all = Vec::new();
    attach(&mut all, "F1", files[0].clone());
    attach(&mut all, "F2", files[0].clone());
    let mut second = files[0].clone();
    second.key = "k2".to_owned();
    attach(&mut all, "F1", second);
    assert_eq!(all.len(), 2);
    detach(&mut all, "F1", "k2");
    assert_eq!((all[0].1.len(), all[1].1.len()), (1, 1));
    detach(&mut all, "F1", "k");
    detach(&mut all, "F3", "k");
    assert_eq!(all.len(), 1);
    assert_eq!(all[0].0, "F2");
}

fn runner(mode: &str, host: Option<&str>) -> RunnerFact {
    RunnerFact {
        mode: mode.to_owned(),
        host: host.map(str::to_owned),
        worker_id: "op@mac".to_owned(),
    }
}

#[test]
fn a_takeover_names_the_account_and_its_host() {
    let gate = claim_gate(true, &Some(user(AuthRole::TechLead, &[])));
    assert_eq!(gate, Some(("ann".to_owned(), true)));
    assert_eq!(
        claim_gate(true, &Some(user(AuthRole::Fe, &[]))),
        Some(("ann".to_owned(), false))
    );
    assert_eq!(claim_gate(true, &None), None);
    assert_eq!(claim_gate(false, &None), Some(("operator".to_owned(), true)));
    let call = plan_takeover(true, true, &gate, &runner("paused", None)).expect("planned");
    assert_eq!(call.worker, "ann@local");
    assert_eq!(call.active_runner, None);
    let call = plan_takeover(true, true, &gate, &runner("running", Some("mac"))).expect("planned");
    assert_eq!(call.worker, "ann@mac");
    assert_eq!(call.active_runner, Some("op@mac".to_owned()));
    let refused = |exists, good, gate: &Option<(String, bool)>| {
        plan_takeover(exists, good, gate, &runner("paused", None)).expect_err("refused").status
    };
    assert_eq!(refused(false, true, &gate), 404);
    assert_eq!(refused(true, false, &gate), 400);
    assert_eq!(refused(true, true, &None), 403);
}

#[test]
fn a_handback_without_a_note_is_refused() {
    let gate = Some(("ann".to_owned(), false));
    let snap = runner("paused", None);
    for note in ["", "  "] {
        let e = plan_handback(true, true, note, "", &gate, &snap).expect_err("no note");
        assert_eq!(e.status, 400);
    }
    let call = plan_handback(true, true, " built it by hand ", " feat/human ", &gate, &snap)
        .expect("planned");
    assert_eq!(call.note, "built it by hand");
    assert_eq!(call.branch_ref, "feat/human");
    assert!(!call.can_manage);
    assert_eq!(plan_handback(true, true, "x", "", &None, &snap).expect_err("gate").status, 403);
    assert_eq!(claim_error(&ClaimError::NotFound).status, 404);
    assert_eq!(claim_error(&ClaimError::NotPermitted).status, 403);
    let e = claim_error(&ClaimError::Conflict("pause it first".to_owned()));
    assert_eq!((e.status, e.text.as_str()), (409, "pause it first"));
    assert_eq!(claim_error(&ClaimError::Store("down".to_owned())).status, 500);
}

fn lesson(text: &str, ticket: Option<&str>) -> LessonRecord {
    LessonRecord {
        text: text.to_owned(),
        escalated: ticket.map(|t| Escalation { ticket: t.to_owned(), stage: "filed".to_owned() }),
    }
}

fn chore(id: &str, title: &str, status: Status) -> LessonTicket {
    LessonTicket {
        id: id.to_owned(),
        title: title.to_owned(),
        ticket_type: TicketType::Chore,
        status,
    }
}

#[test]
fn lessons_are_written_by_members() {
    assert_eq!(authorize_lesson_write(false, &None, "p").ok(), Some("operator".to_owned()));
    assert_eq!(authorize_lesson_write(true, &None, "p").expect_err("anonymous").status, 401);
    let status = |role, projects: &[&str]| {
        authorize_lesson_write(true, &Some(user(role, projects)), "p").map_err(|e| e.text)
    };
    assert_eq!(status(AuthRole::Viewer, &["p"]), Err("write role required".to_owned()));
    assert_eq!(status(AuthRole::Fe, &["q"]), Err("not a member of this project".to_owned()));
    assert_eq!(status(AuthRole::Fe, &["p"]), Ok("ann".to_owned()));
    assert_eq!(status(AuthRole::Admin, &[]), Ok("ann".to_owned()));
    assert_eq!(admit_dismiss(" l ", " at ", " why ").expect("dismissed").lesson, "l");
    assert_eq!(admit_dismiss("", "at", "").expect_err("no lesson").status, 400);
    assert_eq!(admit_dismiss("l", " ", "").expect_err("no incident").status, 400);
}

#[test]
fn a_lesson_is_escalated_once_while_its_ticket_is_open() {
    let records = vec![lesson("l", Some("C-1"))];
    let open = vec![chore("C-1", "Prevention: l", Status::Ready)];
    let done = vec![chore("C-1", "Prevention: l", Status::Done)];
    assert_eq!(
        open_escalation_of(&records, &open, "l").map(|e| e.ticket),
        Some("C-1".to_owned())
    );
    assert!(open_escalation_of(&records, &done, "l").is_none());
    assert!(matches!(
        plan_escalation(&records, &open, " l "),
        Ok(EscalatePlan::Already(e)) if e.ticket == "C-1"
    ));
    match plan_escalation(&records, &done, "l") {
        Ok(EscalatePlan::File(t)) => {
            assert_eq!(t.title, "Prevention: l");
            assert!(t.description.ends_with("Lesson: l"));
        }
        _ => panic!("a ticket is filed"),
    }
    assert_eq!(plan_escalation(&records, &open, " ").expect_err("blank").status, 400);
    let s = settle_escalation(&Ok("C-2".to_owned()), "duplicate", &None, "t").expect("filed");
    assert_eq!((s.ticket.as_str(), s.already), ("C-2", false));
    let dup = Err("duplicate of C-1".to_owned());
    let s = settle_escalation(&dup, "duplicate", &Some(open), "Prevention: l").expect("found");
    assert_eq!((s.ticket.as_str(), s.already), ("C-1", true));
    assert_eq!(settle_escalation(&dup, "duplicate", &None, "t").expect_err("lost").status, 500);
    let other = Err("store down".to_owned());
    assert_eq!(settle_escalation(&other, "duplicate", &None, "t").expect_err("down").text, "store down");
}

#[test]
fn a_forced_merge_fixes_conflicts_and_tries_twice() {
    let p = |mergeable| ForcePr {
        head: "feat/a".to_owned(),
        base: "main".to_owned(),
        url: "https://forge/7".to_owned(),
        mergeable,
    };
    assert!(matches!(force_found(7, &None), ForceNext::Stop { say } if say.contains("#7")));
    assert!(matches!(
        force_found(7, &Some(p(true))),
        ForceNext::Merge { wait_secs: 0, attempt: 0 }
    ));
    assert!(matches!(
        force_found(7, &Some(p(false))),
        ForceNext::Fix { prompt, .. } if prompt.contains("git merge origin/main")
    ));
    assert!(matches!(
        force_fixed(7, &p(false), true),
        ForceNext::Merge { wait_secs: 10, attempt: 0 }
    ));
    assert!(matches!(
        force_fixed(7, &p(false), false),
        ForceNext::Stop { say } if say.contains("https://forge/7")
    ));
    let refused = Err("CI red".to_owned());
    assert!(matches!(
        force_merged(7, &p(true), 0, &refused),
        ForceNext::Merge { wait_secs: 15, attempt: 1 }
    ));
    assert!(matches!(
        force_merged(7, &p(true), 1, &refused),
        ForceNext::Stop { say } if say.contains("CI red")
    ));
    assert!(matches!(force_merged(7, &p(true), 0, &Ok(())), ForceNext::Stop { .. }));
    let mut jobs = Vec::new();
    queue_force(&mut jobs, 7, "j1", "now");
    queue_force(&mut jobs, 7, "j2", "now");
    queue_force(&mut jobs, 8, "j3", "now");
    assert_eq!(jobs.len(), 2);
    assert_eq!(jobs[0].id, "j1");
}

#[test]
fn a_connection_is_tested_step_by_step() {
    assert_eq!(git_cli("gitlab"), ("glab", "GITLAB_HOST"));
    assert_eq!(git_cli("github"), ("gh", "GH_HOST"));
    assert_eq!(host_of("https://git.example.com/"), "git.example.com");
    let (t, next) = git_test_start(false);
    assert!(!t.repo && next == GitProbe::Done);
    let (mut t, next) = git_test_start(true);
    assert_eq!(next, GitProbe::RemoteUrl);
    assert_eq!(git_test_remote(&mut t, true, " git@x:y \n"), GitProbe::ListRemote);
    assert_eq!(t.remote.as_deref(), Some("git@x:y"));
    let ok = || Ran::Ended { success: true, stderr: String::new() };
    assert_eq!(git_test_reach(&mut t, &ok()), GitProbe::DryPush);
    git_test_push(
        &mut t,
        &Ran::Ended { success: false, stderr: "hint\nremote: denied\n".to_owned() },
    );
    assert!(t.reachable && !t.push_ok);
    assert_eq!(t.detail, "remote: denied");
    let (mut t, _) = git_test_start(true);
    assert_eq!(git_test_remote(&mut t, false, ""), GitProbe::Done);
    let (mut t, _) = git_test_start(true);
    git_test_remote(&mut t, true, "u");
    assert_eq!(git_test_reach(&mut t, &Ran::TimedOut), GitProbe::Done);
    assert_eq!(t.detail, "ls-remote timed out");
}

#[test]
fn a_login_is_confirmed_or_undone() {
    assert_eq!(prepare_login(" ", "github", "").expect_err("no token").status, 400);
    let l = prepare_login(" tok ", "gitlab", "https://git.example.com").expect("prepared");
    assert_eq!((l.token.as_str(), l.bin, l.host.as_str()), ("tok", "glab", "git.example.com"));
    assert_eq!(l.host_env, Some("GITLAB_HOST"));
    assert!(prepare_login("tok", "github", "").expect("prepared").host_env.is_none());
    assert!(login_failed("boom").text.ends_with("boom"));
    let account = Some("alice".to_owned());
    assert!(matches!(
        confirm_login(true, &account, "github", ""),
        Connected::Account(a) if a == "alice"
    ));
    assert!(matches!(
        confirm_login(false, &account, "github", ""),
        Connected::SignOut { host, .. } if host == "github.com"
    ));
    assert!(matches!(
        confirm_login(true, &None, "gitlab", ""),
        Connected::SignOut { host, .. } if host == "gitlab.com"
    ));
}

#[test]
fn review_actions_are_dispatched() {
    assert!(matches!(pr_action(true, "merge", ""), Ok(PrAction::Merge)));
    assert!(matches!(pr_action(true, "force-merge", ""), Ok(PrAction::ForceMerge)));
    assert!(matches!(pr_action(true, "close", ""), Ok(PrAction::Close)));
    assert!(matches!(pr_action(true, "preview", ""), Ok(PrAction::Preview)));
    assert!(matches!(pr_action(true, "preview-stop", ""), Ok(PrAction::PreviewStop)));
    assert!(matches!(
        pr_action(true, "request-changes", " "),
        Ok(PrAction::RequestChanges(c)) if c == "Changes requested via CoXAgent review."
    ));
    assert!(matches!(
        pr_action(true, "request-changes", "fix it"),
        Ok(PrAction::RequestChanges(c)) if c == "fix it"
    ));
    assert_eq!(pr_action(true, "dance", "").expect_err("unknown").status, 400);
    assert_eq!(pr_action(false, "merge", "").expect_err("no forge").status, 501);
}
