//! What the docker janitor reads and sweeps.

use coxagent_presentation::janitor::{
    compose_projects, image_referenced, image_repositories, label_value, preview_is_stale,
    project_verdict, projects_with_containers, to_sweep, volumes_with_project_labels, Answer,
    Reclaim,
};

fn joined() -> &'static str {
    "com.docker.compose.volume=pgdata,\
     com.docker.compose.project=cox--dead-preview,\
     com.docker.compose.version=5.1.4"
}

#[test]
fn docker_janitor_the_compose_project_label_is_read_from_the_joined_rendering() {
    assert_eq!(
        label_value(joined(), "com.docker.compose.project"),
        Some("cox--dead-preview".to_owned())
    );
}

#[test]
fn docker_janitor_an_absent_or_empty_label_renders_no_project() {
    assert_eq!(label_value("", "com.docker.compose.project"), None);
    assert_eq!(
        label_value("com.docker.volume.anonymous=", "com.docker.compose.project"),
        None
    );
}

#[test]
fn docker_janitor_keys_match_exactly_and_values_may_contain_equals() {
    assert_eq!(
        label_value("a=b=c,ab=c", "ab"),
        Some("c".to_owned()),
        "the first '=' splits the pair"
    );
    assert_eq!(label_value("abx=c", "ab"), None, "no prefix matching");
}

#[test]
fn docs_the_compose_project_label_is_read_from_the_joined_rendering() {
    assert_eq!(
        label_value(joined(), "com.docker.compose.project"),
        Some("cox--dead-preview".to_owned())
    );
}

#[test]
fn docs_an_absent_or_empty_label_renders_no_project() {
    assert_eq!(label_value("", "com.docker.compose.project"), None);
    assert_eq!(
        label_value("com.docker.volume.anonymous=", "com.docker.compose.project"),
        None
    );
}

#[test]
fn docs_keys_match_exactly_and_values_may_contain_equals() {
    assert_eq!(
        label_value("a=b=c,ab=c", "ab"),
        Some("c".to_owned()),
        "the first '=' splits the pair"
    );
    assert_eq!(label_value("abx=c", "ab"), None, "no prefix matching");
    assert_eq!(label_value("a=b=c", "a"), Some("b=c".to_owned()));
}

#[test]
fn compose_projects_are_read_from_their_listing() {
    let all = compose_projects(
        r#"[{"Name":"cox--a","Status":"running(1)"},{"Status":"x"},{"Name":"cox--b"}]"#,
    )
    .expect("a listing");
    assert_eq!(all.len(), 2);
    assert_eq!((all[0].name.as_str(), all[0].status.as_str()), ("cox--a", "running(1)"));
    assert_eq!((all[1].name.as_str(), all[1].status.as_str()), ("cox--b", ""));
    assert!(compose_projects("not json").is_none());
    assert!(compose_projects(r#"{"Name":"a"}"#).is_none());
}

#[test]
fn only_the_dead_and_the_expired_are_reclaimed() {
    assert_eq!(project_verdict(false, "hub", "exited(1)", true), Reclaim::Keep);
    assert_eq!(project_verdict(true, "cox--a", "exited(1)", false), Reclaim::Dead);
    assert_eq!(project_verdict(true, "cox--a", "running(1)", true), Reclaim::Keep);
    assert_eq!(
        project_verdict(true, "cox--preview-7", "running(1)", true),
        Reclaim::ExpiredPreview
    );
    assert_eq!(project_verdict(true, "cox--preview-7", "running(1)", false), Reclaim::Keep);
}

#[test]
fn silence_keeps_everything() {
    assert!(projects_with_containers(false, "cox--a\n").is_none());
    assert_eq!(
        projects_with_containers(true, " cox--b \n\ncox--a\ncox--b\n"),
        Some(vec!["cox--a".to_owned(), "cox--b".to_owned()])
    );
    assert!(!preview_is_stale(&None));
    assert!(image_referenced(&None));
    assert!(image_referenced(&Some(Answer { success: false, stdout: String::new() })));
    assert!(image_referenced(&Some(Answer { success: true, stdout: "abc\n".to_owned() })));
    assert!(!image_referenced(&Some(Answer { success: true, stdout: " \n".to_owned() })));
    let candidates = vec![("a".to_owned(), true), ("b".to_owned(), false)];
    assert_eq!(to_sweep(true, &candidates), vec!["a".to_owned()]);
    assert!(to_sweep(false, &candidates).is_empty());
}

#[test]
fn images_and_volumes_are_read_line_by_line() {
    assert_eq!(
        image_repositories("b\n<none>\n a \n\nb\n"),
        vec!["a".to_owned(), "b".to_owned()]
    );
    let volumes = volumes_with_project_labels(
        "{\"Name\":\"v1\",\"Labels\":\"com.docker.compose.project=p\"}\nnot json\n{\"Name\":\"v2\"}\n",
    );
    assert_eq!(volumes.len(), 2);
    assert_eq!(volumes[0].project.as_deref(), Some("p"));
    assert_eq!(volumes[1].project, None);
}
