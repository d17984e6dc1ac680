//! Adopting a codebase.

use coxagent_presentation::project_import::{
    codebase_owned_by, refused_import_owned_by_registered, refused_import_path,
};

fn registry(entries: &[(&str, &str)]) -> Vec<(String, String)> {
    entries
        .iter()
        .map(|(id, p)| ((*id).to_owned(), (*p).to_owned()))
        .collect()
}

#[test]
fn the_exact_tree_of_a_registered_project_is_owned() {
    let owned = registry(&[("default", "/ws/default/codebase")]);
    assert_eq!(
        codebase_owned_by("/ws/default/codebase", &owned),
        Some("default".to_owned())
    );
}

#[test]
fn a_subtree_of_a_registered_codebase_is_owned() {
    let owned = registry(&[("default", "/ws/default/codebase")]);
    assert_eq!(
        codebase_owned_by("/ws/default/codebase/crates/app", &owned),
        Some("default".to_owned())
    );
}

#[test]
fn a_parent_of_a_registered_codebase_is_owned() {
    let owned = registry(&[("default", "/ws/default/codebase")]);
    assert_eq!(
        codebase_owned_by("/ws/default", &owned),
        Some("default".to_owned())
    );
}

#[test]
fn a_sibling_path_is_free() {
    let owned = registry(&[("default", "/ws/default/codebase")]);
    assert_eq!(codebase_owned_by("/ws/other/codebase", &owned), None);
}

#[test]
fn a_path_merely_sharing_a_string_prefix_is_free() {
    let owned = registry(&[("default", "/ws/default/codebase")]);
    assert_eq!(
        codebase_owned_by("/ws/default/codebase-archive", &owned),
        None
    );
}

#[test]
fn paths_compare_by_their_components() {
    let owned = registry(&[("default", "/ws/default/codebase")]);
    assert_eq!(
        codebase_owned_by("/ws//default/./codebase/", &owned),
        Some("default".to_owned())
    );
    assert_eq!(codebase_owned_by("ws/default/codebase", &owned), None);
}

#[test]
fn a_system_path_is_refused_and_an_unresolved_one_is_not() {
    assert!(refused_import_path(&Some("/etc".to_owned())).is_some());
    assert!(refused_import_path(&None).is_none());
    let owned = registry(&[("default", "/ws/default/codebase")]);
    let e = refused_import_owned_by_registered(
        "/link",
        &Some("/ws/default/codebase".to_owned()),
        &owned,
    )
    .expect("owned");
    assert_eq!(e.status, 409);
    assert!(e.text.contains("default"));
    assert!(refused_import_owned_by_registered("/link", &None, &owned).is_none());
}

#[test]
fn paths_are_compared_piece_by_piece_from_where_they_start() {
    let owner = |requested: &str, tree: &str| {
        codebase_owned_by(requested, &vec![("p".to_owned(), tree.to_owned())]).is_some()
    };
    assert!(owner("/a//b/./c/", "/a/b"));
    assert!(owner("a/./b", "a/b"));
    assert!(owner("./a", "."));
    assert!(owner("././a", "./a"));
    assert!(owner("/./a", "/a"));
    assert!(!owner("./a", "a"));
    assert!(!owner("/a", "a"));
    assert!(owner("", "/a"));
    assert!(owner("/a", ""));
    assert!(owner("", ""));
    assert!(owner("/", "/a"));
    assert!(!owner("..", "a"));
    for (a, b) in [("./a", "a"), ("", "/a"), ("/./a", "/a"), ("a/.", "a"), ("./.", "."), ("/a", "/ab")] {
        let (x, y) = (std::path::Path::new(a), std::path::Path::new(b));
        assert_eq!(owner(a, b), x.starts_with(y) || y.starts_with(x), "{a} and {b}");
    }
}
