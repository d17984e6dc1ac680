//! The accounts of a forge's command line.

use coxagent_presentation::hub::CliOutput;
use coxagent_presentation::pr_listing::{
    auth_status, claim_force, list_prs, parse_account, parse_accounts, release_force, PrReview,
};

#[test]
fn gh_multi_account_picks_active() {
    let out = "\
github.com
  ✓ Logged in to github.com account stevejrrogers (keyring)
  - Active account: true
  - Git operations protocol: ssh

  ✓ Logged in to github.com account kyroc3 (keyring)
  - Active account: false
  - Git operations protocol: ssh
";
    let all = parse_accounts(out);
    assert_eq!(all.len(), 2);
    assert_eq!(all[0], ("stevejrrogers".to_owned(), true));
    assert_eq!(all[1], ("kyroc3".to_owned(), false));
    assert_eq!(parse_account(out).as_deref(), Some("stevejrrogers"));
}

#[test]
fn gh_single_account_legacy_as_form() {
    let out = "github.com\n  ✓ Logged in to github.com as alice (oauth_token)\n";
    let all = parse_accounts(out);
    assert_eq!(all, vec![("alice".to_owned(), true)]);
    assert_eq!(parse_account(out).as_deref(), Some("alice"));
}

#[test]
fn glab_single_account_no_active_line_is_active() {
    let out = "- Logged in to gitlab.com as alice using token\n";
    let all = parse_accounts(out);
    assert_eq!(all, vec![("alice".to_owned(), true)]);
    assert_eq!(parse_account(out).as_deref(), Some("alice"));
}

#[test]
fn empty_output_yields_empty() {
    assert!(parse_accounts("").is_empty());
    assert!(parse_account("").is_none());
}

#[test]
fn duplicate_account_across_hosts_is_deduped() {
    let out = "\
github.com
  ✓ Logged in to github.com account alice (keyring)
  - Active account: true
ghe.example.com
  ✓ Logged in to ghe.example.com account alice (keyring)
  - Active account: false
";
    let all = parse_accounts(out);
    assert_eq!(all, vec![("alice".to_owned(), true)]);
}

#[test]
fn no_active_marker_falls_back_to_first() {
    let out = "\
github.com
  ✓ Logged in to github.com account alice (keyring)
  ✓ Logged in to github.com account bob (keyring)
";
    let all = parse_accounts(out);
    assert_eq!(all[0], ("alice".to_owned(), true));
    assert_eq!(all[1], ("bob".to_owned(), false));
    assert_eq!(parse_account(out).as_deref(), Some("alice"));
}

#[test]
fn the_status_reads_both_outputs_and_a_missing_tool_is_none() {
    let s = auth_status(&Some(CliOutput {
        success: true,
        stdout: "gitlab.com\n".to_owned(),
        stderr: "- Logged in to gitlab.com as alice using token\n".to_owned(),
    }));
    assert!(s.present && s.authenticated);
    assert_eq!(s.account.as_deref(), Some("alice"));
    let s = auth_status(&None);
    assert!(!s.present && !s.authenticated && s.account.is_none());
}

#[test]
fn one_forced_merge_runs_at_a_time() {
    let mut running = Vec::new();
    assert!(claim_force(&mut running, "p", 7).is_ok());
    assert!(claim_force(&mut running, "p", 8).is_ok());
    assert!(claim_force(&mut running, "q", 7).is_ok());
    let e = claim_force(&mut running, "p", 7).expect_err("already running");
    assert_eq!(e.status, 409);
    release_force(&mut running, "p", 7);
    assert_eq!(running.len(), 2);
    assert!(claim_force(&mut running, "p", 7).is_ok());
}

fn review(number: u64, decision: &str) -> PrReview {
    PrReview {
        number,
        decision: decision.to_owned(),
        summary: String::new(),
        at: String::new(),
    }
}

#[test]
fn open_pull_requests_carry_their_first_review() {
    let reviews = vec![review(2, "approve"), review(2, "request-changes")];
    let l = list_prs(true, &Some(vec![1, 2]), &reviews, true, true).ok().expect("listed");
    assert!(l.configured && l.auto_merge);
    assert!(l.reviews[0].is_none());
    assert_eq!(l.reviews[1].as_ref().map(|r| r.decision.as_str()), Some("approve"));
    let l = list_prs(true, &None, &reviews, true, true).ok().expect("unreadable state");
    assert!(!l.configured && !l.auto_merge && l.reviews.is_empty());
    let e = list_prs(false, &None, &reviews, true, true).err().expect("no project");
    assert_eq!((e.status, e.text.as_str()), (404, "no such project"));
}
