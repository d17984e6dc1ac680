//! Previews of pull requests and the health of their port.

use coxagent_presentation::forge::{
    admit_forge, checkout_failed, checkout_steps, configured_port, parse_preview_host_port,
    preview_branch, preview_gate, preview_started, preview_stopped, run_preview_health_gate,
    sweep_settings, Deployed, Gate,
};
use coxagent_presentation::reply::Refusal;

fn healthy() -> Deployed {
    Deployed::Report {
        success: true,
        summary: "docker compose up -d --build succeeded".to_owned(),
    }
}

fn config(raw_host_port: &str) -> String {
    format!(r#"{{"deploy":{{"host_port":{raw_host_port}}}}}"#)
}

fn gate_of(raw_config: &str, answers: bool) -> bool {
    run_preview_health_gate(preview_gate(&parse_preview_host_port(raw_config)), answers)
}

fn restore(raw_config: &str, answers: bool) -> Result<String, Refusal> {
    preview_stopped(1, &healthy(), gate_of(raw_config, answers)).map(|d| d.chat)
}

fn start(raw_config: &str, answers: bool) -> Result<Option<String>, Refusal> {
    let head = preview_branch(true, &Ok(vec![(1, "feat/preview".to_owned())]), 1)?;
    assert_eq!(head, "feat/preview");
    preview_started(
        1,
        &healthy(),
        gate_of(raw_config, answers),
        configured_port(Some(raw_config)),
    )
    .map(|d| d.url)
}

#[test]
fn restore_reports_failure_when_the_app_never_binds_its_port() {
    let e = restore(&config("8101"), false).expect_err("unhealthy");
    assert_eq!(e.status, 500);
    assert!(
        e.text.contains("health check failed"),
        "expected the health-gate failure reason in the response: {}",
        e.text
    );
}

#[test]
fn restore_reports_ok_when_the_app_is_healthy() {
    assert!(restore(&config("8101"), true).is_ok());
}

#[test]
fn preview_start_reports_failure_when_the_app_never_binds_its_port() {
    let e = start(&config("8101"), false).expect_err("unhealthy");
    assert_eq!(e.status, 500);
    assert!(
        e.text.contains("health check failed"),
        "expected the health-gate failure reason in the response: {}",
        e.text
    );
}

#[test]
fn preview_start_reports_ok_when_the_app_is_healthy() {
    let url = start(&config("8101"), true).expect("live");
    assert_eq!(url.as_deref(), Some("http://localhost:8101"));
}

#[test]
fn an_unset_host_port_leaves_the_gate_nothing_to_probe() {
    assert!(start(r#"{"deploy":{}}"#, false).is_ok());
}

#[test]
fn an_explicit_null_host_port_leaves_the_gate_nothing_to_probe() {
    assert!(restore(&config("null"), false).is_ok());
}

#[test]
fn a_negative_host_port_is_rejected_rather_than_skipping_the_gate() {
    assert_eq!(restore(&config("-1"), true).expect_err("rejected").status, 500);
}

#[test]
fn a_float_host_port_is_rejected_rather_than_skipping_the_gate() {
    assert_eq!(restore(&config("8101.5"), true).expect_err("rejected").status, 500);
}

#[test]
fn a_string_host_port_is_rejected_rather_than_skipping_the_gate() {
    assert_eq!(restore(&config("\"8101\""), true).expect_err("rejected").status, 500);
}

#[test]
fn a_boolean_host_port_is_rejected_rather_than_skipping_the_gate() {
    assert_eq!(restore(&config("true"), true).expect_err("rejected").status, 500);
}

#[test]
fn a_zero_host_port_is_rejected_rather_than_probed() {
    assert_eq!(restore(&config("0"), true).expect_err("rejected").status, 500);
}

#[test]
fn an_out_of_range_host_port_is_rejected_rather_than_skipping_the_gate() {
    assert_eq!(restore(&config("70000"), true).expect_err("rejected").status, 500);
}

#[test]
fn corrupt_json_is_rejected_rather_than_skipping_the_gate() {
    let e = restore("{not valid json at all", false).expect_err("rejected");
    assert_eq!(e.status, 500);
    assert!(e.text.contains("health check failed"));
}

#[test]
fn a_non_object_deploy_section_is_rejected_rather_than_skipping_the_gate() {
    for section in ["\"8101\"", "[8101]", "7", "true"] {
        let raw = format!(r#"{{"deploy":{section}}}"#);
        assert_eq!(restore(&raw, true).expect_err("rejected").status, 500, "{section}");
    }
}

#[test]
fn a_port_is_what_the_configuration_honestly_publishes() {
    assert_eq!(parse_preview_host_port(&config("8101")), Ok(Some(8101)));
    assert_eq!(parse_preview_host_port(&config("65535")), Ok(Some(65535)));
    assert_eq!(parse_preview_host_port("{}"), Ok(None));
    assert_eq!(parse_preview_host_port(&config("65536")), Err(()));
    assert_eq!(configured_port(Some(&config("8101"))), Some(8101));
    assert_eq!(configured_port(Some(&config("0"))), None);
    assert_eq!(configured_port(None), None);
    assert_eq!(preview_gate(&Ok(None)), Gate::Pass);
    assert_eq!(preview_gate(&Ok(Some(80))), Gate::Probe(80));
    assert_eq!(preview_gate(&Err(())), Gate::Fail);
    assert!(!run_preview_health_gate(Gate::Fail, true));
}

#[test]
fn a_preview_needs_a_deploy_adapter_and_an_open_pull_request() {
    let open = Ok(vec![(1, "feat/a".to_owned())]);
    assert!(preview_branch(false, &open, 1).is_err());
    assert_eq!(preview_branch(true, &open, 2).err().map(|e| e.status), Some(404));
    assert_eq!(
        preview_branch(true, &Err("boom".to_owned()), 1).err().map(|e| e.status),
        Some(500)
    );
    assert!(!checkout_steps(false, "feat/a", ".preview/1").is_empty());
    assert_eq!(checkout_failed("no such ref").status, 500);
}

#[test]
fn what_takes_a_forge_says_so() {
    assert!(admit_forge(true, true).is_ok());
    let e = admit_forge(true, false).expect_err("no forge");
    assert_eq!((e.status, e.text.as_str()), (501, "forge not configured"));
    assert_eq!(admit_forge(false, true).expect_err("no project").status, 404);
}

#[test]
fn a_sweep_reads_its_settings_with_defaults() {
    let s = sweep_settings("{}");
    assert_eq!(s.target, "main");
    assert!(!s.vietnamese);
    assert!(s.require_ci);
    let s = sweep_settings(
        r#"{"git":{"target_branch":" ","default_branch":"develop","require_ci":false},"workflow":{"language":"vi"}}"#,
    );
    assert_eq!(s.target, "develop");
    assert!(s.vietnamese);
    assert!(!s.require_ci);
    let s = sweep_settings(r#"{"git":{"target_branch":"release"}}"#);
    assert_eq!(s.target, "release");
    assert_eq!(sweep_settings("not json").target, "main");
}
