//! The description that the API gives of itself.

use coxagent_presentation::openapi::{
    autosummary, autotag, build_document, operation, parameters, routes, security_for, tail_word,
    RouteSpec, SecurityLevel,
};
use std::collections::BTreeSet;

fn tagged(path: &str) -> RouteSpec {
    RouteSpec {
        path: path.to_owned(),
        methods: vec!["get".to_owned()],
        tag: None,
        summary: None,
    }
}

#[test]
fn colon_segments_become_named_path_parameters_in_order() {
    let params = parameters("/api/projects/:pid/tickets/:id");
    assert_eq!(params.len(), 2);
    assert_eq!(params[0].name, "pid");
    assert_eq!(params[1].name, "id");
    assert!(params.iter().all(|p| p.required));
    assert!(params.iter().all(|p| p.place == "path"));
    assert!(params.iter().all(|p| p.kind == "string"));
}

#[test]
fn static_routes_have_no_parameters() {
    assert!(parameters("/api/health").is_empty());
}

#[test]
fn tail_word_is_snake_case_from_static_segments() {
    assert_eq!(
        tail_word("/api/projects/:pid/ticket/:id/priority"),
        "api_projects_pid_ticket_id_priority"
    );
}

#[test]
fn every_route_and_method_from_the_table_is_in_the_document() {
    let table = routes();
    let doc = build_document(&table);
    assert_eq!(doc.len(), table.len());
    for spec in &table {
        let item = doc
            .iter()
            .find(|i| i.path == spec.path)
            .unwrap_or_else(|| panic!("missing path item for {}", spec.path));
        for method in &spec.methods {
            assert!(
                item.operations.iter().any(|o| &o.method == method),
                "missing {method} operation for {}",
                spec.path
            );
        }
    }
}

#[test]
fn operation_ids_are_unique_across_the_whole_document() {
    let mut seen = BTreeSet::new();
    for item in build_document(&routes()) {
        for op in item.operations {
            assert!(
                seen.insert(op.operation_id.clone()),
                "duplicate OpenAPI operationId: {}",
                op.operation_id
            );
        }
    }
    assert!(seen.contains("post_api_auth_login"));
}

#[test]
fn every_operation_carries_non_empty_tag_summary_and_security() {
    for item in build_document(&routes()) {
        for op in item.operations {
            assert!(!op.tag.is_empty(), "operation lacks a tag: {}", op.operation_id);
            assert!(!op.summary.is_empty(), "operation lacks a summary: {}", op.operation_id);
            assert_eq!(op.security.needs_bearer(), op.security != SecurityLevel::Public);
        }
    }
}

#[test]
fn tags_are_derived_from_the_first_api_segment() {
    let op = operation(&tagged("/api/projects/:pid/metrics/summary"), "get");
    assert_eq!(op.tag, "Projects");
}

#[test]
fn the_table_holds_the_routes_of_the_server() {
    let table = routes();
    let methods = |path: &str| {
        table
            .iter()
            .find(|r| r.path == path)
            .map(|r| r.methods.join(" "))
            .unwrap_or_default()
    };
    assert_eq!(methods("/api/projects/:pid/ticket/:id/attachments"), "delete post");
    assert_eq!(methods("/api/fleet/ceiling"), "put");
    assert_eq!(methods("/api/search"), "get");
    assert_eq!(methods("/s/:token"), "get");
    assert_eq!(methods("/assets/app.css"), "");
}

#[test]
fn descriptions_follow_from_the_path() {
    assert_eq!(autotag("/api/audit-log"), "Auditlog");
    assert_eq!(autotag("/s/:token"), "Misc");
    assert_eq!(autotag("/api/"), "Misc");
    assert_eq!(autotag("/api/:tenant/audit-log"), "Auditlog");
    assert_eq!(autotag("/api/:tenant"), "Misc");
    assert_eq!(autotag("/api/\u{e9}quipe"), "\u{c9}quipe");
    assert_eq!(autotag("/api/\u{df}"), "SS");
    assert_eq!(autosummary("/api/projects/:pid/metrics"), "Metrics");
    assert_eq!(autosummary("/api/\u{e9}quipe"), "\u{c9}quipe");
    assert_eq!(autosummary("/api/projects/:pid/ticket-refine"), "Refine");
    assert_eq!(autosummary("/api/chat/messages/:mid"), "Messages");
    assert_eq!(autosummary("/api/projects/:pid/operators/:operator/:action"), "Operators");
    assert_eq!(autosummary("/s/:token"), "S");
    assert_eq!(autosummary("/:token"), "Operation");
    assert_eq!(autosummary("/"), "Operation");
    let over = RouteSpec {
        tag: Some("T".to_owned()),
        summary: Some("S".to_owned()),
        ..tagged("/api/health")
    };
    let op = operation(&over, "GET");
    assert_eq!((op.tag.as_str(), op.summary.as_str()), ("T", "S"));
    assert_eq!(op.operation_id, "get_api_health");
    assert_eq!(op.method, "GET");
}

#[test]
fn only_a_route_that_asks_for_it_has_an_empty_label() {
    let bare = build_document(&vec![tagged("/"), tagged("/:token")]);
    for op in bare.iter().flat_map(|i| &i.operations) {
        assert_eq!((op.tag.as_str(), op.summary.as_str()), ("Misc", "Operation"));
    }
    let asked = build_document(&vec![RouteSpec { tag: Some(String::new()), ..tagged("/") }]);
    assert_eq!(asked[0].operations[0].tag, "");
    assert_eq!(asked[0].operations[0].summary, "Operation");
}

#[test]
fn security_mirrors_what_is_enforced() {
    for path in ["/api/health", "/api/openapi.json", "/api/auth/login", "/s/:token"] {
        assert_eq!(security_for(path), SecurityLevel::Public, "{path}");
    }
    for path in [
        "/api/auth/users/:username",
        "/api/auth/tokens",
        "/api/projects/:pid/share-links",
    ] {
        assert_eq!(security_for(path), SecurityLevel::Admin, "{path}");
    }
    for path in ["/api/auth/me", "/api/auth/my/tokens", "/api/projects"] {
        assert_eq!(security_for(path), SecurityLevel::Authenticated, "{path}");
    }
}

#[test]
fn of_two_routes_of_one_path_the_later_wins() {
    let table = vec![
        RouteSpec { tag: Some("old".to_owned()), ..tagged("/api/b") },
        tagged("/api/a"),
        RouteSpec {
            methods: vec!["post".to_owned(), "get".to_owned()],
            tag: Some("new".to_owned()),
            ..tagged("/api/b")
        },
    ];
    let doc = build_document(&table);
    let paths: Vec<&str> = doc.iter().map(|i| i.path.as_str()).collect();
    assert_eq!(paths, vec!["/api/a", "/api/b"]);
    let ops: Vec<(&str, &str)> = doc[1]
        .operations
        .iter()
        .map(|o| (o.method.as_str(), o.tag.as_str()))
        .collect();
    assert_eq!(ops, vec![("get", "new"), ("post", "new")]);
}
