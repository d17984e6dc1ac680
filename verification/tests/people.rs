//! Accounts, sessions and what people did.

use coxagent_presentation::engines::{
    admit_own_token, admit_revocation, admit_token, bearer_token, blocker_message, call_audit,
    engine_models, list_tokens, mcp_method, mcp_project, mint_media_token, my_tokens,
    personal_token_prefix, plan_call, token_minted, token_revoked, token_savings, McpCall,
    McpMethod,
};
use coxagent_presentation::guards::{AuthRole, AuthUser};
use coxagent_presentation::people::{
    account_not_created, admit_account, admit_analytics, admit_sessions, cookie_secure,
    current_contact, device_label, list_members, member_added, member_removed, people_analytics,
    role_from_strict, session_cookie, sniff_avatar_image, user_deleted, AuditRow, AvatarFormat,
    Contact,
};

fn user(name: &str, role: AuthRole, projects: &[&str]) -> AuthUser {
    AuthUser {
        username: name.to_owned(),
        name: String::new(),
        email: String::new(),
        role,
        projects: projects.iter().map(|p| (*p).to_owned()).collect(),
    }
}

#[test]
fn avatars_are_told_by_their_first_bytes() {
    let png = [0x89, 0x50, 0x4E, 0x47, 0x0D, 0x0A, 0x1A, 0x0A, 0];
    assert_eq!(sniff_avatar_image(&png), Some(AvatarFormat::Png));
    assert_eq!(sniff_avatar_image(&[0xFF, 0xD8, 0xFF, 0xE0]), Some(AvatarFormat::Jpeg));
    assert_eq!(sniff_avatar_image(b"GIF87a.."), Some(AvatarFormat::Gif));
    assert_eq!(sniff_avatar_image(b"GIF89a"), Some(AvatarFormat::Gif));
    assert_eq!(sniff_avatar_image(b"RIFF\x00\x00\x00\x00WEBP"), Some(AvatarFormat::Webp));
    assert_eq!(sniff_avatar_image(b"RIFF\x00\x00\x00\x00WEB"), None);
    assert_eq!(sniff_avatar_image(b"<svg xmlns='http://www.w3.org/2000/svg'>"), None);
    assert_eq!(sniff_avatar_image(b""), None);
    assert_eq!(AvatarFormat::Jpeg.extension(), "jpg");
    assert_eq!(AvatarFormat::Webp.mime(), "image/webp");
}

#[test]
fn an_unknown_role_is_refused_instead_of_demoted() {
    let names = vec!["admin".to_owned(), "viewer".to_owned()];
    assert_eq!(role_from_strict(None, AuthRole::Viewer, &names).ok(), Some(AuthRole::Viewer));
    assert_eq!(
        role_from_strict(Some(" Viewer "), AuthRole::Viewer, &names).ok(),
        Some(AuthRole::Viewer)
    );
    assert_eq!(
        role_from_strict(Some("admin"), AuthRole::Admin, &names).ok(),
        Some(AuthRole::Admin)
    );
    let e = role_from_strict(Some("member"), AuthRole::Viewer, &names).expect_err("unknown");
    assert_eq!(e.status, 400);
    assert_eq!(e.text, "unknown role 'member' — valid: admin, viewer");
}

#[test]
fn accounts_are_a_managers_business() {
    let lead = Some(user("lead", AuthRole::TechLead, &[]));
    let fe = Some(user("fe", AuthRole::Fe, &[]));
    let a = admit_account(true, &lead, " bob ", "pw", " Bob ", "").expect("admitted");
    assert_eq!(a.username, "bob");
    assert_eq!(a.profile, Some(("Bob".to_owned(), String::new())));
    let a = admit_account(true, &lead, "bob", "pw", " ", "").expect("admitted");
    assert!(a.profile.is_none());
    let refused = |accounts, who: &Option<AuthUser>, name: &str, pw: &str| {
        admit_account(accounts, who, name, pw, "", "").expect_err("refused").status
    };
    assert_eq!(refused(false, &lead, "bob", "pw"), 501);
    assert_eq!(refused(true, &fe, "bob", "pw"), 403);
    assert_eq!(refused(true, &None, "bob", "pw"), 403);
    assert_eq!(refused(true, &lead, " ", "pw"), 400);
    assert_eq!(refused(true, &lead, "bob", ""), 400);
    assert_eq!(account_not_created().status, 500);
    assert!(user_deleted(true, true).is_ok());
    assert_eq!(user_deleted(true, false).expect_err("last admin").status, 409);
    assert_eq!(member_added(true, false).expect_err("unknown").text, "unknown user");
    assert_eq!(member_removed(true, false).expect_err("stranger").text, "not a member");
    assert_eq!(member_removed(false, true).expect_err("no accounts").status, 501);
}

#[test]
fn members_are_listed_to_those_who_may_know() {
    let all = vec![
        user("a", AuthRole::Fe, &["p"]),
        user("b", AuthRole::Be, &["q"]),
    ];
    let lead = Some(user("lead", AuthRole::TechLead, &[]));
    let fe = Some(user("fe", AuthRole::Fe, &["p"]));
    let list = list_members(true, &lead, &all, "p").expect("listed");
    assert_eq!(list.len(), 2);
    assert!(list[0].assigned && !list[1].assigned);
    let list = list_members(true, &fe, &all, "p").expect("listed");
    assert_eq!(list.len(), 1);
    assert_eq!(list[0].username, "a");
    assert!(list_members(false, &None, &all, "p").expect("open").is_empty());
    assert_eq!(list_members(true, &None, &all, "p").expect_err("anonymous").status, 403);
}

fn row(user: &str, action: &str, status: u16, at: &str) -> AuditRow {
    AuditRow {
        user: user.to_owned(),
        action: action.to_owned(),
        status,
        at: at.to_owned(),
    }
}

#[test]
fn the_audit_tells_who_did_what() {
    let rows = vec![
        row("ann", "login", 200, "2026-08-01T08:00:00Z"),
        row("bob", "edit", 200, "2026-08-01T09:00:00Z"),
        row("bob", "edit", 500, "2026-08-02T09:00:00Z"),
        row("ann", "merge", 200, "2026-08-01T10:00:00Z"),
        row("bob", "approve", 200, "2026-08-01T07:00:00Z"),
        row("bob", "logout", 200, "2026-08-02T10:00:00Z"),
        row("bob", "b", 200, "2026-08-02T10:00:00Z"),
        row("bob", "c", 200, "2026-08-02T10:00:00Z"),
    ];
    let people = people_analytics(&rows);
    assert_eq!(people.len(), 2);
    let bob = &people[0];
    assert_eq!(bob.user, "bob");
    assert_eq!((bob.actions, bob.work, bob.failures), (6, 5, 1));
    assert_eq!(bob.active_days, 2);
    assert_eq!(bob.last_active, "2026-08-02T10:00:00Z");
    let top: Vec<(&str, usize)> =
        bob.top_actions.iter().map(|a| (a.action.as_str(), a.count)).collect();
    assert_eq!(top, vec![("edit", 2), ("approve", 1), ("b", 1), ("c", 1)]);
    let ann = &people[1];
    assert_eq!((ann.actions, ann.work, ann.failures), (2, 1, 0));
    assert!(people_analytics(&Vec::new()).is_empty());
    assert!(admit_analytics(false, &None).is_ok());
    assert!(admit_analytics(true, &Some(user("m", AuthRole::Manager, &[]))).is_ok());
    let be = Some(user("be", AuthRole::Be, &[]));
    assert_eq!(admit_analytics(true, &be).expect_err("member").status, 403);
    assert_eq!(admit_analytics(true, &None).expect_err("anon").status, 403);
}

#[test]
fn a_device_is_named_by_browser_and_system() {
    assert_eq!(device_label("  "), "Unknown device");
    assert_eq!(
        device_label("Mozilla/5.0 (Macintosh; Intel Mac OS X 10_15) Chrome/120 Safari/537"),
        "Chrome on macOS"
    );
    assert_eq!(device_label("Mozilla/5.0 (Windows NT 10.0) Chrome/1 Edg/1"), "Edge on Windows");
    assert_eq!(device_label("Opera/9 (X11; Linux)"), "Opera on Linux");
    assert_eq!(device_label("Mozilla (iPhone; Mac OS X) Safari"), "Safari on iPhone");
    assert_eq!(device_label("curl/8"), "Browser on device");
}

#[test]
fn a_session_cookie_is_kept_from_scripts_and_strangers() {
    assert_eq!(cookie_secure(Some("HTTPS"), None), "; Secure");
    assert_eq!(cookie_secure(None, Some("1")), "; Secure");
    assert_eq!(cookie_secure(None, Some("True")), "; Secure");
    assert_eq!(cookie_secure(Some("http"), Some("0")), "");
    let c = session_cookie("tok", "; Secure");
    assert!(c.ends_with("=tok; HttpOnly; SameSite=Strict; Path=/; Max-Age=43200; Secure"));
}

#[test]
fn sessions_and_contacts_are_ones_own() {
    let me = Some(user("ann", AuthRole::Fe, &[]));
    assert_eq!(admit_sessions(false, &None).expect("open"), None);
    assert_eq!(admit_sessions(true, &me).expect("mine"), Some("ann".to_owned()));
    assert_eq!(admit_sessions(true, &None).expect_err("anonymous").status, 401);
    let contact = |n: &str| Contact {
        username: "ann".to_owned(),
        name: n.to_owned(),
        email: String::new(),
    };
    let (name, _) = current_contact(&contact("old"), &vec![contact("new")]);
    assert_eq!(name, "new");
    let (name, _) = current_contact(&contact("old"), &Vec::new());
    assert_eq!(name, "old");
}

#[test]
fn a_bearer_is_read_from_its_header() {
    assert_eq!(bearer_token(Some("Bearer  abc ")), Some("abc".to_owned()));
    assert_eq!(bearer_token(Some("bearer abc")), None);
    assert_eq!(bearer_token(None), None);
}

#[test]
fn tokens_have_labels_and_owners() {
    let ann = Some(user("Ann", AuthRole::Fe, &[]));
    let bob = Some(user("bob", AuthRole::TechLead, &[]));
    assert_eq!(admit_token(true, " ci ").ok(), Some("ci".to_owned()));
    assert_eq!(admit_token(true, " ").expect_err("blank").status, 400);
    assert_eq!(admit_token(false, "ci").expect_err("no accounts").status, 501);
    assert_eq!(token_minted(Some("s".to_owned())).ok(), Some("s".to_owned()));
    assert_eq!(token_minted(None).expect_err("taken").status, 409);
    assert_eq!(personal_token_prefix("Ann"), "user:ann:");
    let t = admit_own_token(true, &ann, " my key!? ").expect("minted");
    assert_eq!(t.label, "user:ann:mykey");
    assert_eq!(t.role, AuthRole::Fe);
    assert_eq!(t.audit, "personal token minted: user:ann:mykey");
    assert_eq!(admit_own_token(true, &ann, "!?").expect_err("nothing left").status, 400);
    assert_eq!(admit_own_token(true, &None, "x").expect_err("anonymous").status, 401);
    let long = admit_own_token(true, &ann, &"x".repeat(60)).expect("minted");
    assert_eq!(long.label.len(), "user:ann:".len() + 40);
    assert!(admit_revocation(true, &ann, &t.label).is_ok());
    let e = admit_revocation(true, &bob, &t.label).expect_err("not bob's");
    assert_eq!((e.status, e.text.as_str()), (403, "not your token"));
    assert_eq!(token_revoked(true, false).expect_err("gone").status, 404);
    assert!(token_revoked(true, true).is_ok());
    let labels = vec![
        "ci".to_owned(),
        "internal:mcp:op".to_owned(),
        "user:ann:mykey".to_owned(),
        "user:bob:k".to_owned(),
    ];
    assert_eq!(
        list_tokens(true, &bob, &labels).expect("listed"),
        vec!["ci".to_owned(), "user:ann:mykey".to_owned(), "user:bob:k".to_owned()]
    );
    assert_eq!(list_tokens(true, &ann, &labels).expect_err("member").status, 403);
    assert_eq!(my_tokens(true, &ann, &labels).expect("mine"), vec!["user:ann:mykey".to_owned()]);
    assert_eq!(my_tokens(true, &None, &labels).expect_err("anonymous").status, 401);
    assert!(my_tokens(false, &None, &labels).expect("open").is_empty());
}

#[test]
fn media_tokens_are_instant_and_number() {
    assert_eq!(mint_media_token(0x1234, 0xf), "1234f");
    assert_ne!(mint_media_token(7, 1), mint_media_token(7, 2));
}

#[test]
fn the_tool_protocol_is_dispatched() {
    assert_eq!(mcp_method("initialize"), McpMethod::Initialize);
    assert_eq!(mcp_method("notifications/cancelled"), McpMethod::Notification);
    assert_eq!(mcp_method("ping"), McpMethod::Ping);
    assert_eq!(mcp_method("tools/list"), McpMethod::ListTools);
    assert_eq!(mcp_method("tools/call"), McpMethod::CallTool);
    assert_eq!(mcp_method("nope"), McpMethod::Unknown);
    assert_eq!(mcp_project(r#"{"project":"p"}"#), Ok("p".to_owned()));
    assert_eq!(mcp_project(r#"{"project":3}"#), Err("missing 'project'".to_owned()));
    assert_eq!(mcp_project("[]"), Err("missing 'project'".to_owned()));
    assert!(matches!(
        plan_call("search_symbols", r#"{"query":" q "}"#),
        Ok(McpCall::SearchSymbols(q)) if q == "q"
    ));
    assert!(matches!(
        plan_call("symbol_refs", r#"{"name":"n"}"#),
        Ok(McpCall::SymbolRefs(q)) if q == "n"
    ));
    assert!(matches!(
        plan_call("get_ticket", r#"{"id":"T-1"}"#),
        Ok(McpCall::GetTicket(q)) if q == "T-1"
    ));
    assert!(matches!(plan_call("pr_queue", "{}"), Ok(McpCall::PrQueue)));
    assert!(matches!(
        plan_call("report_blocker", r#"{"note":"stuck"}"#),
        Ok(McpCall::ReportBlocker(q)) if q == "stuck"
    ));
    assert_eq!(
        plan_call("get_ticket", r#"{"id":"  "}"#).err(),
        Some("missing 'id'".to_owned())
    );
    assert_eq!(plan_call("search_symbols", "{}").err(), Some("missing 'query'".to_owned()));
    assert_eq!(plan_call("symbol_refs", "{}").err(), Some("missing 'name'".to_owned()));
    assert_eq!(plan_call("report_blocker", "{}").err(), Some("missing 'note'".to_owned()));
    assert_eq!(plan_call("rm", "{}").err(), Some("unknown tool rm".to_owned()));
    assert_eq!(call_audit("get_ticket", "p"), "MCP get_ticket p");
    assert_eq!(blocker_message("stuck"), "🚧 Blocker: stuck");
}

#[test]
fn models_are_read_from_what_an_engine_prints() {
    let models = engine_models(Some(
        " anthropic/large \nplain\n\nNo models/found\nError: a/b\nopenai/x/y\n",
    ));
    assert_eq!(models.len(), 2);
    assert_eq!((models[0].provider.as_str(), models[0].model.as_str()), ("anthropic", "large"));
    assert_eq!(models[0].full, "anthropic/large");
    assert_eq!((models[1].provider.as_str(), models[1].model.as_str()), ("openai", "x/y"));
    assert!(engine_models(None).is_empty());
}

#[test]
fn savings_skip_torn_lines() {
    let s = token_savings("100 40\n7\n50 60\nx y\n10 10 extra\n");
    assert_eq!((s.samples, s.before, s.after), (2, 110, 50));
    assert_eq!(s.saved(), 60);
    let s = token_savings("18446744073709551615 0\n18446744073709551615 1\n");
    assert_eq!((s.samples, s.before, s.after), (2, 2 * u128::from(u64::MAX), 1));
    assert_eq!(token_savings("").samples, 0);
}
