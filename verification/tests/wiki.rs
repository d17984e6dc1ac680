//! Comments, goals, the wiki and the hub's knowledge.

use coxagent_presentation::comments::{
    admit_comment, admit_reaction, files_to_read, list_comments, Comment, CommentFile,
};
use coxagent_presentation::deps::admit_scan;
use coxagent_presentation::docs::{
    admit_edit, admit_editor, doc_category, doc_frame, drop_page, folder_path, merge_pages,
    mint_doc_id, moved_page, pages_under, pick_page, plan_save, put_page, revised, room_of,
    stored_page, DocFrame, DocPage,
};
use coxagent_presentation::goals::{
    admit_binding, admit_goal, admit_restatement, bind_goal, goal_added, goal_restated,
};
use coxagent_presentation::hub_knowledge::{
    admit_curation, admit_index, curate, filter_rows, index_rows, row_json, KnowledgeEntry,
};

fn strings(list: &[&str]) -> Vec<String> {
    list.iter().map(|s| (*s).to_owned()).collect()
}

fn comment(id: &str, ticket: Option<&str>) -> Comment {
    Comment {
        id: id.to_owned(),
        author: "ann".to_owned(),
        body: String::new(),
        ticket: ticket.map(str::to_owned),
    }
}

#[test]
fn comments_are_listed_by_ticket() {
    let all = || vec![comment("1", Some("F1")), comment("2", None), comment("3", Some("F1"))];
    assert_eq!(list_comments(true, all(), &None).expect("all").len(), 3);
    let on = list_comments(true, all(), &Some("F1".to_owned())).expect("some");
    let ids: Vec<&str> = on.iter().map(|c| c.id.as_str()).collect();
    assert_eq!(ids, vec!["1", "3"]);
    assert_eq!(list_comments(false, all(), &None).expect_err("project").status, 404);
}

#[test]
fn a_comment_says_something_or_brings_a_file() {
    assert_eq!(admit_comment(true, " hi ", 0, true).ok(), Some("hi".to_owned()));
    assert_eq!(admit_comment(true, " ", 1, true).ok(), Some(String::new()));
    assert_eq!(admit_comment(true, " ", 0, true).expect_err("empty").text, "empty comment");
    assert_eq!(admit_comment(false, "hi", 0, true).expect_err("project").status, 404);
    assert_eq!(admit_comment(true, "hi", 0, false).expect_err("load").status, 500);
    assert_eq!(admit_reaction(true, "👍👍👍👍👍👍👍👍👍", true, true).ok(), Some("👍".repeat(8)));
    assert_eq!(admit_reaction(true, "", true, true).expect_err("none").status, 400);
    assert_eq!(admit_reaction(true, "x", false, true).expect_err("load").status, 500);
    assert_eq!(admit_reaction(true, "x", true, false).expect_err("comment").status, 404);
    let files = files_to_read(
        "acme",
        &vec![CommentFile {
            name: "shot".to_owned(),
            mime: "image/png".to_owned(),
            url: "/api/projects/acme/media/12-shot.png".to_owned(),
        }],
    );
    assert_eq!(files[0].key, "proj/acme/12-shot.png");
    assert_eq!(files[0].file_name, "12-shot.png");
    assert!(admit_scan(true, true).is_ok());
    assert_eq!(admit_scan(true, false).expect_err("adapter").status, 500);
    assert_eq!(admit_scan(false, true).expect_err("project").status, 404);
}

#[test]
fn goals_pass_their_gate() {
    assert_eq!(admit_goal(true, true, " Grow ").ok(), Some("Grow".to_owned()));
    assert_eq!(admit_goal(false, true, "Grow").expect_err("role").status, 403);
    assert_eq!(admit_goal(true, false, "Grow").expect_err("project").status, 404);
    assert_eq!(admit_goal(true, true, " ").expect_err("title").status, 400);
    assert_eq!(goal_added(Ok(Some("G1".to_owned()))).ok(), Some("G1".to_owned()));
    assert_eq!(goal_added(Ok(None)).expect_err("no id").status, 500);
    assert_eq!(goal_added(Err("down".to_owned())).expect_err("store").text, "down");
    assert!(admit_restatement(true, true, true, "New").is_ok());
    assert_eq!(admit_restatement(true, true, false, "New").expect_err("id").text, "invalid goal id");
    assert_eq!(
        admit_restatement(false, true, true, "New").expect_err("role").text,
        "only the PO's goal gate may restate goals"
    );
    assert!(goal_restated(Ok(true)).is_ok());
    assert_eq!(goal_restated(Ok(false)).expect_err("missing").status, 404);
    assert_eq!(goal_restated(Err("down".to_owned())).expect_err("store").status, 500);
    assert!(admit_binding(true, true, true).is_ok());
    assert_eq!(admit_binding(false, true, true).expect_err("role").status, 403);
    let goals = strings(&["G1"]);
    let tickets = strings(&["F1", "F2"]);
    assert_eq!(bind_goal(&goals, &tickets, "G1", "F2").ok(), Some(1));
    assert_eq!(bind_goal(&goals, &tickets, "G9", "F2").expect_err("goal").text, "no such goal G9");
    assert_eq!(bind_goal(&goals, &tickets, "G1", "F9").expect_err("ticket").status, 404);
}

fn page(id: &str, folder: &str, body: &str) -> DocPage {
    DocPage {
        id: id.to_owned(),
        folder: folder.to_owned(),
        category: String::new(),
        title: id.to_owned(),
        body: body.to_owned(),
        updated_at: String::new(),
        updated_by: String::new(),
    }
}

#[test]
fn folders_have_a_colour() {
    assert_eq!(doc_category("Architecture/Auth"), "technical");
    assert_eq!(doc_category(" Design /x"), "flows");
    assert_eq!(doc_category("QA"), "qa");
    assert_eq!(doc_category("Release Notes/1.0"), "ops");
    assert_eq!(doc_category(""), "product");
    assert_eq!(mint_doc_id(42), "doc-42");
    assert_eq!(room_of("p", "d"), "p/d");
}

#[test]
fn the_wiki_merges_both_stores() {
    let merged = merge_pages(
        vec![page("a", "", "agent"), page("b", "", "agent")],
        &vec![page("b", "", "mine"), page("c", "", "mine")],
    );
    let shown: Vec<(&str, &str)> =
        merged.iter().map(|p| (p.id.as_str(), p.body.as_str())).collect();
    assert_eq!(shown, vec![("a", "agent"), ("b", "mine"), ("c", "mine")]);
}

#[test]
fn pages_are_saved_moved_and_revised() {
    let s = plan_save(true, "new-1700", " Design ", " Login ", "body", "ann").expect("saved");
    assert_eq!((s.id.as_str(), s.folder.as_str(), s.title.as_str()), ("", "Design", "Login"));
    let p = stored_page(&s, "doc-1", "now");
    assert_eq!((p.id.as_str(), p.category.as_str()), ("doc-1", "flows"));
    let s = plan_save(true, "doc-7", "", "T", "", "ann").expect("saved");
    assert_eq!(stored_page(&s, "doc-1", "now").id, "doc-7");
    assert_eq!(plan_save(true, "d", "", " ", "", "a").expect_err("title").status, 400);
    assert_eq!(plan_save(false, "d", "", "t", "", "a").expect_err("project").status, 404);
    assert_eq!(admit_edit(true, true, " shorter ").ok(), Some("shorter".to_owned()));
    assert_eq!(admit_edit(true, false, "x").expect_err("page").status, 404);
    assert_eq!(admit_edit(true, true, " ").expect_err("instruction").status, 400);
    let s = revised(&page("d", "QA", "old"), &Ok("new".to_owned())).expect("revised");
    assert_eq!((s.body.as_str(), s.author.as_str(), s.folder.as_str()), ("new", "DOCS", "QA"));
    let e = revised(&page("d", "QA", "old"), &Err("boom".to_owned())).expect_err("failed");
    assert_eq!(e.text, "doc edit failed: boom");
    let m = moved_page(true, &Some(page("d", "QA", "b")), "d", "Ops").expect("moved");
    assert_eq!((m.folder.as_str(), m.author.as_str()), ("Ops", "USER"));
    assert_eq!(moved_page(true, &None, "d", "Ops").expect_err("page").text, "no such page");
}

#[test]
fn a_folder_goes_with_everything_under_it() {
    let path = folder_path(" /Design/ ");
    assert_eq!(path, "Design");
    let pages = vec![
        page("a", "Design", ""),
        page("b", "Design/Flows", ""),
        page("c", "Designs", ""),
        page("d", "", ""),
    ];
    assert_eq!(pages_under(&pages, &path), strings(&["a", "b"]));
    assert_eq!(pages_under(&pages, ""), strings(&["d"]));
}

#[test]
fn editors_send_saves_and_pings() {
    match doc_frame(r#"{"op":"save","title":"T","body":"b","origin":"o"}"#) {
        DocFrame::Save { title, folder, body, origin } => {
            assert_eq!((title.as_str(), folder.as_str()), ("T", ""));
            assert_eq!((body.as_str(), origin.as_str()), ("b", "o"));
        }
        _ => panic!("a save"),
    }
    assert!(matches!(doc_frame(r#"{"op":"save","title":" "}"#), DocFrame::Ignored));
    assert!(matches!(doc_frame(r#"{"op":"ping"}"#), DocFrame::Ping));
    assert!(matches!(doc_frame("nonsense"), DocFrame::Ignored));
    let ann = Some("ann".to_owned());
    assert_eq!(admit_editor(true, true, true, &ann, true).ok(), ann);
    assert_eq!(admit_editor(true, true, false, &None, true).ok(), Some("user".to_owned()));
    assert_eq!(admit_editor(false, true, true, &ann, true).expect_err("part").status, 503);
    assert_eq!(admit_editor(true, false, true, &ann, true).expect_err("origin").status, 403);
    assert_eq!(admit_editor(true, true, true, &None, true).expect_err("anon").status, 401);
    assert_eq!(admit_editor(true, true, true, &ann, false).expect_err("project").status, 404);
}

fn entry(id: &str, title: &str) -> KnowledgeEntry {
    KnowledgeEntry {
        entry_id: id.to_owned(),
        project_id: "p".to_owned(),
        kind: "doc".to_owned(),
        title: title.to_owned(),
    }
}

#[test]
fn knowledge_is_indexed_filtered_and_curated() {
    let mut hidden = Vec::new();
    curate(&mut hidden, &"b".to_owned(), true);
    curate(&mut hidden, &"b".to_owned(), true);
    assert_eq!(hidden.len(), 1);
    let rows = index_rows(&vec![entry("b", "Beta \"x\""), entry("a", "Alpha")], &hidden);
    assert_eq!(rows[0].entry.entry_id, "a");
    assert!(!rows[0].hidden && rows[1].hidden);
    let json: Vec<String> = rows.iter().map(row_json).collect();
    let value: serde_json::Value = serde_json::from_str(&json[1]).expect("valid JSON");
    assert_eq!(value["title"], "Beta \"x\"");
    assert_eq!(
        json[1],
        "{\"curated\":{\"hidden_in_briefs\":true},\"entry_id\":\"b\",\"kind\":\"doc\",\
         \"project_id\":\"p\",\"title\":\"Beta \\\"x\\\"\"}"
    );
    let odd = index_rows(&vec![entry("c", "\\ \t\u{8}\u{c}\r\n\u{1}\u{1f}\u{7f}é")], &Vec::new());
    assert!(row_json(&odd[0]).ends_with(
        "\"title\":\"\\\\ \\t\\b\\f\\r\\n\\u0001\\u001f\u{7f}é\"}"
    ));
    assert_eq!(value["project_id"], "p");
    assert_eq!(value["kind"], "doc");
    assert_eq!(value["curated"]["hidden_in_briefs"], true);
    assert_eq!(filter_rows(&json, "ALPHA").len(), 1);
    assert_eq!(filter_rows(&json, "").len(), 2);
    assert!(filter_rows(&json, "gamma").is_empty());
    curate(&mut hidden, &"b".to_owned(), false);
    assert!(hidden.is_empty());
    assert!(admit_index(false, false).is_ok());
    assert_eq!(admit_index(true, false).expect_err("anon").status, 401);
    assert_eq!(admit_curation(" ", true, true).expect_err("blank").text, "empty entry_id");
    assert_eq!(admit_curation("a", true, false).expect_err("anon").status, 401);
    assert!(admit_curation("a", true, true).is_ok());
}

#[test]
fn a_page_is_read_back_until_it_is_deleted() {
    let mut pages = vec![page("a", "x", "one"), page("b", "y", "two")];
    put_page(&mut pages, page("b", "y", "three"));
    put_page(&mut pages, page("c", "", "four"));
    let ids: Vec<&str> = pages.iter().map(|p| p.id.as_str()).collect();
    assert_eq!(ids, vec!["a", "b", "c"]);
    let body = |pages: &Vec<DocPage>, id: &str| pick_page(None, pages, id).map(|p| p.body);
    assert_eq!(body(&pages, "b"), Some("three".to_owned()));
    assert_eq!(body(&pages, "a"), Some("one".to_owned()));
    let stored = pick_page(Some(page("b", "y", "stored")), &pages, "b");
    assert_eq!(stored.map(|p| p.body), Some("stored".to_owned()));
    assert!(drop_page(&mut pages, "b"));
    assert_eq!(body(&pages, "b"), None);
    assert_eq!(body(&pages, "c"), Some("four".to_owned()));
    assert!(!drop_page(&mut pages, "b"));
    assert_eq!(pages.len(), 2);
}
