//! What the readiness check reads of the host.

use coxagent_presentation::preflight::{
    bool_probe, deploy_probes, docker_tooling, plan_probe, DockerTooling, PreflightProbe, ProbePlan,
};

fn tooling_with(entries: &str) -> String {
    format!(r#"{{ "os": "macos", "has_brew": true, "brew_install": "", "tools": {entries} }}"#)
}

#[test]
fn the_docker_entry_is_found_with_its_install_hint() {
    let tooling = tooling_with(
        r#"[
            { "name": "git", "present": true, "install": "xcode-select --install" },
            { "name": "docker", "present": false, "install": "brew install docker" }
        ]"#,
    );

    let docker = docker_tooling(&tooling).expect("docker entry exists");

    assert!(!docker.present);
    assert_eq!(docker.install, "brew install docker");
}

#[test]
fn a_tooling_report_without_a_docker_entry_reads_as_unknown() {
    let tooling = tooling_with(r#"[{ "name": "git", "present": true, "install": "" }]"#);

    assert!(docker_tooling(&tooling).is_none());
}

#[test]
fn a_null_tooling_report_reads_as_unknown() {
    assert!(docker_tooling("null").is_none());
}

#[test]
fn a_docker_entry_missing_the_install_key_defaults_to_an_empty_hint() {
    let tooling = tooling_with(r#"[{ "name": "docker", "present": true }]"#);

    let docker = docker_tooling(&tooling).expect("docker entry exists");

    assert!(docker.present);
    assert_eq!(docker.install, "");
}

#[test]
fn the_daemon_is_asked_only_where_it_can_answer() {
    let there = Some(DockerTooling { present: true, install: String::new() });
    let missing = Some(DockerTooling { present: false, install: String::new() });
    assert_eq!(plan_probe(true, &there), ProbePlan::Ask);
    assert_eq!(plan_probe(true, &None), ProbePlan::Answer(PreflightProbe::Unknown));
    assert_eq!(plan_probe(true, &missing), ProbePlan::Answer(PreflightProbe::Unavailable));
    assert_eq!(plan_probe(false, &there), ProbePlan::Answer(PreflightProbe::Unavailable));
    assert_eq!(plan_probe(false, &None), ProbePlan::Answer(PreflightProbe::Unavailable));
    assert_eq!(bool_probe(true), PreflightProbe::Available);
    assert_eq!(bool_probe(false), PreflightProbe::Unavailable);
}

#[test]
fn what_the_daemon_and_compose_answered_is_named() {
    let named = |plan, daemon, compose| {
        let (d, c) = deploy_probes(plan, daemon, compose);
        (d.label(), c.label())
    };
    assert_eq!(named(ProbePlan::Ask, true, false), ("available", "unavailable"));
    assert_eq!(named(ProbePlan::Ask, false, true), ("unavailable", "available"));
    let skipped = ProbePlan::Answer(PreflightProbe::Unknown);
    assert_eq!(named(skipped, true, true), ("unknown", "unknown"));
}
