//! Creating, listing and deleting projects.

use coxagent_presentation::factory::{FactoryError, FactoryErrorKind, NewProjectReq};
use coxagent_presentation::fleet::BrokenProject;
use coxagent_presentation::guards::{AuthRole, AuthUser};
use coxagent_presentation::projects::{
    admit_create, admit_delete, admit_rename, after_stage, clean_up_plan, container_name,
    create_failed, first_stage, list_projects, register_project, stop_is_worth_a_warning,
    unregister_project, CleanUp, CreateContext, CreateProjectReq, DeleteNext, DeleteStage,
    ListedProject,
};
use coxagent_presentation::reply::Refusal;
use coxagent_presentation::spaces::Space;

fn context() -> CreateContext {
    CreateContext {
        is_super: true,
        username: "op".to_owned(),
        spaces: Vec::new(),
        can_build: true,
        resolved: None,
        registered: Vec::new(),
    }
}

fn request(name: &str, alias: Option<&str>) -> CreateProjectReq {
    CreateProjectReq {
        name: name.to_owned(),
        alias: alias.map(str::to_owned),
        existing: None,
        git_url: None,
        goal: None,
        space: None,
    }
}

fn admitted(alias: Option<&str>) -> Result<NewProjectReq, Refusal> {
    admit_create(&request("QA Trav", alias), &context())
}

#[test]
fn a_workspace_conflict_is_mapped_to_409_with_the_error_json() {
    let e = create_failed(&FactoryError::conflict(
        "workspace already has tickets; refusing to re-onboard",
    ));
    assert_eq!(e.status, 409);
    assert_eq!(
        e.text, "workspace already has tickets; refusing to re-onboard",
        "the operator-facing message must survive the status mapping"
    );
    assert!(e.as_json);
}

#[test]
fn an_unclassified_factory_failure_stays_a_500() {
    let e = create_failed(&FactoryError::internal("store unreachable"));
    assert_eq!((e.status, e.text.as_str(), e.as_json), (500, "store unreachable", true));
}

#[test]
fn a_bad_request_failure_is_mapped_to_400_with_the_error_json() {
    let e = create_failed(&FactoryError::bad_request(
        "git URL must start with git@, https:// or http://",
    ));
    assert_eq!(e.status, 400);
    assert_eq!(
        e.text, "git URL must start with git@, https:// or http://",
        "the operator-facing message must survive the status mapping"
    );
    assert!(e.as_json);
}

#[test]
fn a_factory_error_keeps_its_kind_and_its_message() {
    assert_eq!(FactoryError::bad_request("bad name".to_owned()).message, "bad name");
    assert_eq!(FactoryError::bad_request("x").kind, FactoryErrorKind::BadRequest);
    assert_eq!(FactoryError::conflict("x").kind, FactoryErrorKind::Conflict);
    assert_eq!(FactoryError::internal("x").kind, FactoryErrorKind::Internal);
}

#[test]
fn a_path_traversing_alias_is_refused_with_400_before_the_factory_runs() {
    for alias in [
        "../qatrav-esc",
        "..\\qatrav",
        "qa/../trav",
        "..",
        ".",
        ".hidden",
        "a/b",
    ] {
        let e = admitted(Some(alias)).expect_err("refused");
        assert_eq!(e.status, 400, "alias {alias:?} must be refused with 400");
        assert!(e.text.contains("alias"), "the refusal must say why: {}", e.text);
        assert!(e.as_json);
    }
}

#[test]
fn a_control_character_alias_is_refused_with_400_before_the_factory_runs() {
    for alias in ["bad\nid", "a\u{8}", "bad\rid", "bad\tid", "trailing\n"] {
        let e = admitted(Some(alias)).expect_err("refused");
        assert_eq!(e.status, 400, "alias {alias:?} must be refused with 400");
        assert!(e.text.contains("alias"), "the refusal must say why: {}", e.text);
    }
}

#[test]
fn a_plain_alias_still_reaches_the_factory() {
    assert_eq!(
        admitted(Some("QATRAV")).expect("admitted").alias,
        Some("QATRAV".to_owned())
    );
}

#[test]
fn an_empty_alias_reaches_the_factory_as_absent() {
    assert_eq!(admitted(Some("")).expect("admitted").alias, None);
}

#[test]
fn a_whitespace_only_alias_reaches_the_factory_as_absent() {
    for alias in ["   ", "\u{a0}"] {
        assert_eq!(
            admitted(Some(alias)).expect("a blank alias is absent, not refused").alias,
            None,
            "the factory must never see the whitespace-only alias {alias:?}"
        );
    }
}

#[test]
fn a_padded_alias_is_trimmed_before_the_factory_sees_it() {
    assert_eq!(
        admitted(Some("  QATRAV  ")).expect("admitted").alias,
        Some("QATRAV".to_owned())
    );
}

fn adopting(path: &str, resolved: Option<&str>) -> Result<NewProjectReq, Refusal> {
    let mut req = request("QA Reonboard", Some("qareonb"));
    req.existing = Some(path.to_owned());
    let c = CreateContext {
        resolved: resolved.map(str::to_owned),
        registered: vec![("default".to_owned(), "/ws/default/codebase".to_owned())],
        ..context()
    };
    admit_create(&req, &c)
}

#[test]
fn adopting_another_registered_projects_codebase_is_refused_with_409() {
    let e = adopting("/ws/default/codebase", Some("/ws/default/codebase")).expect_err("owned");
    assert_eq!(e.status, 409, "the adoption must be a client conflict, not a 500");
    assert!(
        e.text.contains("default"),
        "the refusal must name the owning project: {}",
        e.text
    );
}

#[test]
fn a_symlink_into_a_registered_codebase_is_refused_with_409() {
    let e = adopting("/tmp/alias", Some("/ws/default/codebase")).expect_err("owned");
    assert_eq!(e.status, 409);
}

#[test]
fn an_unresolvable_import_path_falls_through_to_the_factory() {
    let req = adopting("/ws/default/codebase/ghost", None).expect("admitted");
    assert_eq!(req.existing, Some("/ws/default/codebase/ghost".to_owned()));
}

#[test]
fn an_unowned_codebase_still_reaches_the_factory() {
    let req = adopting("/ws/other", Some("/ws/other")).expect("admitted");
    assert_eq!(req.existing, Some("/ws/other".to_owned()));
}

#[test]
fn a_factory_classified_bad_request_is_mapped_to_400() {
    let e = create_failed(&FactoryError::bad_request(
        "alias \"../x\" must not contain '/', '\\', '..' or leading dots",
    ));
    assert_eq!(e.status, 400);
    assert!(
        e.text.contains("alias"),
        "the operator-facing message must survive the status mapping: {}",
        e.text
    );
}

fn space(id: &str, admins: &[&str]) -> Space {
    Space {
        id: id.to_owned(),
        name: id.to_owned(),
        tagline: String::new(),
        admins: admins.iter().map(|a| (*a).to_owned()).collect(),
        projects: Vec::new(),
        members: Vec::new(),
        created_by: String::new(),
        created_at: String::new(),
    }
}

#[test]
fn a_created_project_is_registered_in_its_space() {
    let mut order = Vec::new();
    let mut spaces = vec![space("s", &["op"])];
    assert!(register_project(&mut order, &mut spaces, "p", &Some("s".to_owned())).is_ok());
    assert_eq!(order, vec!["p".to_owned()]);
    assert_eq!(spaces[0].projects, vec!["p".to_owned()]);
    unregister_project(&mut order, &mut spaces, "p");
    assert!(order.is_empty());
    assert!(spaces[0].projects.is_empty());
}

#[test]
fn a_request_takes_a_name_and_the_right_to_the_space() {
    let e = admit_create(&request("  ", None), &context()).expect_err("no name");
    assert_eq!(e.status, 400);
    let mut req = request("P", None);
    req.space = Some("s".to_owned());
    let c = CreateContext {
        is_super: false,
        username: "eve".to_owned(),
        spaces: vec![space("s", &["op"])],
        ..context()
    };
    assert_eq!(admit_create(&req, &c).expect_err("not the space's admin").status, 403);
    let c = CreateContext { username: "op".to_owned(), ..c };
    assert!(admit_create(&req, &c).is_ok());
    let c = CreateContext { can_build: false, ..context() };
    assert!(admit_create(&request("P", None), &c).is_err());
    assert!(admit_rename(" ").is_err());
    assert_eq!(admit_rename(" New ").ok(), Some("New".to_owned()));
}

fn fine() -> Result<(), String> {
    Ok(())
}

#[test]
fn ac1_delete_purges_the_stored_state_then_deregisters() {
    assert_eq!(first_stage(), DeleteStage::Purge);
    let next = after_stage(DeleteStage::Purge, &fine(), true);
    assert!(matches!(next, DeleteNext::Continue(DeleteStage::Deregister)));
    let next = after_stage(DeleteStage::Deregister, &fine(), true);
    assert!(matches!(next, DeleteNext::Continue(DeleteStage::CleanUp)));
    assert!(matches!(
        after_stage(DeleteStage::CleanUp, &fine(), true),
        DeleteNext::Finished
    ));
}

#[test]
fn ac2_failed_purge_aborts_the_whole_delete_flow() {
    match after_stage(DeleteStage::Purge, &Err("store is down".to_owned()), true) {
        DeleteNext::Failed(e) => {
            assert_eq!(e.status, 500);
            assert!(e.text.contains("store is down"));
        }
        _ => panic!("a failed purge ends the deletion"),
    }
}

#[test]
fn a_deletion_takes_a_manager_and_a_project() {
    assert!(admit_delete(true, true, true).is_ok());
    assert_eq!(admit_delete(true, false, true).expect_err("member").status, 403);
    assert_eq!(admit_delete(true, true, false).expect_err("unknown").status, 404);
    assert_eq!(clean_up_plan(false), vec![CleanUp::Everything]);
    assert_eq!(
        clean_up_plan(true),
        vec![CleanUp::Link, CleanUp::State, CleanUp::Config, CleanUp::DirIfEmpty]
    );
    assert!(container_name("demo").contains("demo"));
    assert!(!stop_is_worth_a_warning(true, ""));
    assert!(!stop_is_worth_a_warning(false, "Error: No such container: x"));
    assert!(stop_is_worth_a_warning(false, "permission denied"));
}

fn user(role: AuthRole, projects: &[&str]) -> AuthUser {
    AuthUser {
        username: "u".to_owned(),
        name: String::new(),
        email: String::new(),
        role,
        projects: projects.iter().map(|p| (*p).to_owned()).collect(),
    }
}

fn listed_ids(user: Option<&AuthUser>, broken: &Vec<BrokenProject>) -> Vec<String> {
    let all = vec![ListedProject {
        id: "demo".to_owned(),
        name: "Demo".to_owned(),
        alias: "DEMO".to_owned(),
        state: Some(("1.0.0".to_owned(), 3)),
        mode: "paused".to_owned(),
    }];
    let (rows, broken) = list_projects(user, &vec!["demo".to_owned()], &all, broken);
    rows.into_iter().map(|r| r.id).chain(broken.into_iter().map(|b| b.id)).collect()
}

#[test]
fn ac1_a_viewer_with_no_memberships_gets_an_empty_registry() {
    assert!(listed_ids(Some(&user(AuthRole::Viewer, &[])), &Vec::new()).is_empty());
}

#[test]
fn ac2_a_member_sees_only_the_projects_they_are_assigned_to() {
    assert_eq!(
        listed_ids(Some(&user(AuthRole::Fe, &["demo"])), &Vec::new()),
        vec!["demo".to_owned()]
    );
    assert!(listed_ids(Some(&user(AuthRole::Fe, &["elsewhere"])), &Vec::new()).is_empty());
}

#[test]
fn ac3_a_manage_tier_non_member_does_not_see_the_project_either() {
    assert!(listed_ids(Some(&user(AuthRole::TechLead, &["elsewhere"])), &Vec::new()).is_empty());
}

#[test]
fn ac4_an_admin_sees_the_full_registry() {
    assert_eq!(
        listed_ids(Some(&user(AuthRole::Admin, &[])), &Vec::new()),
        vec!["demo".to_owned()]
    );
}

#[test]
fn ac5_broken_entries_follow_the_same_membership_rule() {
    let broken = vec![BrokenProject {
        id: "elsewhere".to_owned(),
        config_path: "/w/elsewhere/coxagent.json".to_owned(),
        error: "invalid config".to_owned(),
    }];
    assert_eq!(
        listed_ids(Some(&user(AuthRole::Admin, &[])), &broken),
        vec!["demo".to_owned(), "elsewhere".to_owned()]
    );
    assert!(listed_ids(Some(&user(AuthRole::Viewer, &[])), &broken).is_empty());
}

#[test]
fn ac6_open_mode_still_lists_every_project() {
    assert_eq!(listed_ids(None, &Vec::new()), vec!["demo".to_owned()]);
}

#[test]
fn a_project_whose_state_cannot_be_read_is_listed_without_numbers() {
    let all = vec![ListedProject {
        id: "demo".to_owned(),
        name: "Demo".to_owned(),
        alias: "DEMO".to_owned(),
        state: None,
        mode: "paused".to_owned(),
    }];
    let order = vec!["ghost".to_owned(), "demo".to_owned()];
    let (rows, _) = list_projects(None, &order, &all, &Vec::new());
    assert_eq!(rows.len(), 1);
    assert_eq!((rows[0].version.as_str(), rows[0].tickets), ("0.0.0", 0));
}
