//! Pull requests as the dashboard acts on them: the connection to the forge, review actions,
//! forced merges and previews.

use crate::json::{json_at, json_value, parse_json, read_at, value_view, Json, JsonView};
use crate::reply::{internal_error, not_found, plain, Refusal};
use crate::text::{
    a_decimal_reads_back, decimal, digits_value, head, is_blank, join2, lines, opt_text, owned, same, spec_decimal, spec_head,
    spec_lines, spec_starts, spec_strip_prefixes, spec_trim, spec_trim_end_char, starts_with,
    strip_prefixes, texts, trim, trim_end_char,
};
use vstd::prelude::*;

verus! {

/// Whether the forge is the one that `glab` speaks to.
pub open spec fn is_gitlab(provider: Seq<char>) -> bool {
    provider == "gitlab"@
}

/// The command line of a provider and the variable that names its host.
pub fn git_cli(provider: &str) -> (r: (&'static str, &'static str))
    ensures
        r.0@ == if is_gitlab(provider@) { "glab"@ } else { "gh"@ },
        r.1@ == if is_gitlab(provider@) { "GITLAB_HOST"@ } else { "GH_HOST"@ },
{
    if same(provider, "gitlab") {
        ("glab", "GITLAB_HOST")
    } else {
        ("gh", "GH_HOST")
    }
}

/// The host in a base URL: without the scheme and the slashes at the end.
pub open spec fn spec_host(base: Seq<char>) -> Seq<char> {
    spec_trim_end_char(
        spec_strip_prefixes(spec_strip_prefixes(base, "https://"@), "http://"@),
        '/',
    )
}

/// The host in a base URL.
pub fn host_of(base: &str) -> (r: String)
    ensures
        r@ == spec_host(base@),
{
    proof {
        reveal_strlit("https://");
        reveal_strlit("http://");
    }
    let a = strip_prefixes(base, "https://");
    let b = strip_prefixes(a.as_str(), "http://");
    trim_end_char(b.as_str(), '/')
}

/// The last line of what a command printed, at most 200 characters of it.
pub open spec fn spec_detail(stderr: Seq<char>) -> Seq<char> {
    let l = spec_lines(stderr);
    if l.len() == 0 {
        Seq::empty()
    } else {
        spec_head(l.last(), 200)
    }
}

fn detail_of(stderr: &str) -> (r: String)
    ensures
        r@ == spec_detail(stderr@),
{
    let l = lines(stderr);
    assert(texts(l@).len() == l@.len());
    let n: usize = l.len();
    if n == 0 {
        return String::new();
    }
    assert(texts(l@).last() == l@[n - 1]@);
    head(l[n - 1].as_str(), 200)
}

/// How a command ended.
#[derive(Clone, Debug)]
pub enum Ran {
    TimedOut,
    Ended { success: bool, stderr: String },
}

/// What a test of the connection found, stage after stage.
#[derive(Clone, Debug)]
pub struct GitTest {
    pub repo: bool,
    pub remote: Option<String>,
    pub reachable: bool,
    pub push_ok: bool,
    pub detail: String,
}

impl GitTest {
    /// No stage holds without the one before it: a push takes an answer, an answer a remote, a
    /// remote a repository.
    pub open spec fn staged(self) -> bool {
        &&& self.push_ok ==> self.reachable
        &&& self.reachable ==> self.remote is Some
        &&& self.remote is Some ==> self.repo
    }
}

/// The next command that a test runs.
#[derive(Clone, Copy, Debug, PartialEq, Eq, Structural)]
pub enum GitProbe {
    RemoteUrl,
    ListRemote,
    DryPush,
    Done,
}

/// The test begins: without a repository there is nothing to ask.
pub fn git_test_start(is_repo: bool) -> (r: (GitTest, GitProbe))
    ensures
        r.0.repo == is_repo,
        r.0.remote is None,
        !r.0.reachable,
        !r.0.push_ok,
        r.0.detail@.len() == 0,
        r.0.staged(),
        r.1 == if is_repo {
            GitProbe::RemoteUrl
        } else {
            GitProbe::Done
        },
{
    (
        GitTest {
            repo: is_repo,
            remote: None,
            reachable: false,
            push_ok: false,
            detail: String::new(),
        },
        if is_repo {
            GitProbe::RemoteUrl
        } else {
            GitProbe::Done
        },
    )
}

/// The remote was asked for: a blank answer is none.
pub fn git_test_remote(t: &mut GitTest, success: bool, stdout: &str) -> (next: GitProbe)
    ensures
        final(t).repo == old(t).repo,
        final(t).reachable == old(t).reachable,
        final(t).push_ok == old(t).push_ok,
        final(t).detail == old(t).detail,
        if success && spec_trim(stdout@).len() > 0 {
            final(t).remote is Some && final(t).remote->0@ == spec_trim(stdout@) && next
                == GitProbe::ListRemote
        } else {
            final(t).remote == old(t).remote && next == if old(t).remote is Some {
                GitProbe::ListRemote
            } else {
                GitProbe::Done
            }
        },
        old(t).staged() && old(t).repo ==> final(t).staged(),
        next == GitProbe::ListRemote <==> final(t).remote is Some,
{
    let url = trim(stdout);
    if success && !url.as_str().is_empty() {
        t.remote = Some(url);
    }
    if t.remote.is_some() {
        GitProbe::ListRemote
    } else {
        GitProbe::Done
    }
}

/// The branches of the remote were asked for: only a server that answers is asked to take a push.
pub fn git_test_reach(t: &mut GitTest, ran: &Ran) -> (next: GitProbe)
    ensures
        final(t).repo == old(t).repo,
        final(t).remote == old(t).remote,
        final(t).push_ok == old(t).push_ok,
        match ran {
            Ran::TimedOut => final(t).reachable == old(t).reachable && final(t).detail@
                == "ls-remote timed out"@,
            Ran::Ended { success, stderr } => final(t).reachable == *success && final(t).detail@
                == if *success {
                old(t).detail@
            } else {
                spec_detail(stderr@)
            },
        },
        next == if final(t).reachable {
            GitProbe::DryPush
        } else {
            GitProbe::Done
        },
        old(t).staged() && old(t).remote is Some && !old(t).push_ok ==> final(t).staged(),
{
    match ran {
        Ran::TimedOut => {
            t.detail = owned("ls-remote timed out");
        },
        Ran::Ended { success, stderr } => {
            t.reachable = *success;
            if !*success {
                t.detail = detail_of(stderr.as_str());
            }
        },
    }
    if t.reachable {
        GitProbe::DryPush
    } else {
        GitProbe::Done
    }
}

/// A push that writes nothing was tried.
pub fn git_test_push(t: &mut GitTest, ran: &Ran)
    ensures
        final(t).repo == old(t).repo,
        final(t).remote == old(t).remote,
        final(t).reachable == old(t).reachable,
        match ran {
            Ran::TimedOut => final(t).push_ok == old(t).push_ok && final(t).detail@
                == "push --dry-run timed out"@,
            Ran::Ended { success, stderr } => final(t).push_ok == *success && final(t).detail@
                == if *success {
                old(t).detail@
            } else {
                spec_detail(stderr@)
            },
        },
        old(t).staged() && old(t).reachable ==> final(t).staged(),
{
    match ran {
        Ran::TimedOut => {
            t.detail = owned("push --dry-run timed out");
        },
        Ran::Ended { success, stderr } => {
            t.push_ok = *success;
            if !*success {
                t.detail = detail_of(stderr.as_str());
            }
        },
    }
}

/// What a sign-in runs: the arguments, the variable to set (if any) and the host.
#[derive(Clone, Debug)]
pub struct Login {
    pub token: String,
    pub bin: &'static str,
    pub args: Vec<String>,
    pub host_env: Option<&'static str>,
    pub host: String,
}

pub open spec fn login_args(provider: Seq<char>, base: Seq<char>) -> Seq<Seq<char>> {
    let how = if is_gitlab(provider) { "--stdin"@ } else { "--with-token"@ };
    let first = seq!["auth"@, "login"@, how];
    let host = spec_host(base);
    let with_host = if host.len() > 0 {
        first.push("--hostname"@).push(host)
    } else {
        first
    };
    if is_gitlab(provider) && spec_starts(spec_trim(base), "http://"@) {
        with_host.push("--api-protocol"@).push("http"@)
    } else {
        with_host
    }
}

/// Prepares the sign-in of a project's command line. The token travels beside the arguments, so
/// it never shows in the list of processes.
pub fn prepare_login(token: &str, provider: &str, base: &str) -> (r: Result<Login, Refusal>)
    ensures
        match r {
            Ok(l) => {
                &&& spec_trim(token@).len() > 0
                &&& l.token@ == spec_trim(token@)
                &&& l.bin@ == if is_gitlab(provider@) { "glab"@ } else { "gh"@ }
                &&& texts(l.args@) == login_args(provider@, base@)
                &&& l.host@ == spec_host(base@)
                &&& match l.host_env {
                    Some(v) => spec_host(base@).len() > 0 && v@ == if is_gitlab(provider@) {
                        "GITLAB_HOST"@
                    } else {
                        "GH_HOST"@
                    },
                    None => spec_host(base@).len() == 0,
                }
            },
            Err(e) => spec_trim(token@).len() == 0 && e.v() == (400u16, "token required"@, false),
        },
{
    broadcast use crate::text::texts_push, crate::text::texts_empty;

    let token = trim(token);
    if token.as_str().is_empty() {
        return Err(plain(400, "token required"));
    }
    let gitlab = same(provider, "gitlab");
    let (bin, env) = git_cli(provider);
    let host = host_of(base);
    let mut args: Vec<String> = Vec::new();
    args.push(owned("auth"));
    args.push(owned("login"));
    if gitlab {
        args.push(owned("--stdin"));
    } else {
        args.push(owned("--with-token"));
    }
    let ghost how = if is_gitlab(provider@) { "--stdin"@ } else { "--with-token"@ };
    assert(texts(args@) =~= seq!["auth"@, "login"@, how]);
    let has_host = !host.as_str().is_empty();
    if has_host {
        args.push(owned("--hostname"));
        args.push(host.clone());
    }
    let bare = trim(base);
    if gitlab && starts_with(bare.as_str(), "http://") {
        args.push(owned("--api-protocol"));
        args.push(owned("http"));
    }
    Ok(
        Login {
            token,
            bin,
            args,
            host_env: if has_host {
                Some(env)
            } else {
                None
            },
            host,
        },
    )
}

/// The answer to a sign-in that the command line refused.
pub fn login_failed(out: &str) -> (e: Refusal)
    ensures
        e.v() == (400u16, "sign-in failed: "@ + out@, false),
{
    let text = join2("sign-in failed: ", out);
    plain(400, text.as_str())
}

/// How a sign-in ends: with an account, or with the host to sign out from again.
#[derive(Clone, Debug)]
pub enum Connected {
    Account(String),
    SignOut { host: String, refusal: Refusal },
}

/// Checks that a stored token is good: the status has to name an account. A token that is not
/// is signed out again, so that no broken credential stays behind.
pub fn confirm_login(status_ok: bool, account: &Option<String>, provider: &str, host: &str) -> (r:
    Connected)
    ensures
        match r {
            Connected::Account(a) => status_ok && account is Some && a == account->0,
            Connected::SignOut { host: h, refusal } => (!status_ok || account is None) && h@
                == if host@.len() > 0 {
                host@
            } else if is_gitlab(provider@) {
                "gitlab.com"@
            } else {
                "github.com"@
            } && refusal.v() == (
                400u16,
                "token was rejected — check the token value and its scopes"@,
                false,
            ),
        },
{
    if status_ok {
        if let Some(a) = account {
            return Connected::Account(a.clone());
        }
    }
    let h = if !host.is_empty() {
        owned(host)
    } else if same(provider, "gitlab") {
        owned("gitlab.com")
    } else {
        owned("github.com")
    };
    Connected::SignOut {
        host: h,
        refusal: plain(400, "token was rejected — check the token value and its scopes"),
    }
}

/// A review action on a pull request.
#[derive(Clone, Debug)]
pub enum PrAction {
    Preview,
    PreviewStop,
    ForceMerge,
    Merge,
    RequestChanges(String),
    Close,
}

/// What a review action is, given its name and comment.
pub fn pr_action(has_forge: bool, action: &str, comment: &str) -> (r: Result<PrAction, Refusal>)
    ensures
        match r {
            Ok(a) => has_forge && match a {
                PrAction::Preview => action@ == "preview"@,
                PrAction::PreviewStop => action@ == "preview-stop"@,
                PrAction::ForceMerge => action@ == "force-merge"@,
                PrAction::Merge => action@ == "merge"@,
                PrAction::RequestChanges(c) => action@ == "request-changes"@ && c@ == if spec_trim(
                    comment@,
                ).len() == 0 {
                    "Changes requested via CoXAgent review."@
                } else {
                    comment@
                },
                PrAction::Close => action@ == "close"@,
            },
            Err(e) => if !has_forge {
                e.v() == (501u16, "forge not configured"@, false)
            } else {
                action@ != "preview"@ && action@ != "preview-stop"@ && action@ != "force-merge"@
                    && action@ != "merge"@ && action@ != "request-changes"@ && action@ != "close"@
                    && e.v() == (400u16, "unknown action"@, false)
            },
        },
{
    if !has_forge {
        return Err(plain(501, "forge not configured"));
    }
    if same(action, "preview") {
        Ok(PrAction::Preview)
    } else if same(action, "preview-stop") {
        Ok(PrAction::PreviewStop)
    } else if same(action, "force-merge") {
        Ok(PrAction::ForceMerge)
    } else if same(action, "merge") {
        Ok(PrAction::Merge)
    } else if same(action, "request-changes") {
        if is_blank(comment) {
            Ok(PrAction::RequestChanges(owned("Changes requested via CoXAgent review.")))
        } else {
            Ok(PrAction::RequestChanges(owned(comment)))
        }
    } else if same(action, "close") {
        Ok(PrAction::Close)
    } else {
        Err(plain(400, "unknown action"))
    }
}

/// A job that waits for a runner.
#[derive(Clone, Debug)]
pub struct Job {
    pub id: String,
    pub kind: String,
    pub pr: Option<u64>,
    pub queued_at: String,
    pub queued_by: String,
}

/// Whether a forced merge of that pull request waits already.
pub open spec fn force_queued(jobs: Seq<Job>, number: u64) -> bool {
    exists|i: int|
        0 <= i < jobs.len() && (#[trigger] jobs[i]).kind@ == "force_merge"@ && jobs[i].pr == Some(
            number,
        )
}

/// Queues a forced merge for a runner, once.
pub fn queue_force(jobs: &mut Vec<Job>, number: u64, id: &str, at: &str)
    ensures
        force_queued(final(jobs)@, number),
        if force_queued(old(jobs)@, number) {
            final(jobs)@ == old(jobs)@
        } else {
            &&& final(jobs)@.len() == old(jobs)@.len() + 1
            &&& final(jobs)@.take(old(jobs)@.len() as int) == old(jobs)@
            &&& final(jobs)@.last().id@ == id@
            &&& final(jobs)@.last().kind@ == "force_merge"@
            &&& final(jobs)@.last().pr == Some(number)
            &&& final(jobs)@.last().queued_at@ == at@
            &&& final(jobs)@.last().queued_by@ == "web"@
        },
{
    let mut i: usize = 0;
    while i < jobs.len()
        invariant
            i <= jobs.len(),
            jobs@ == old(jobs)@,
            forall|j: int|
                0 <= j < i ==> !((#[trigger] jobs@[j]).kind@ == "force_merge"@ && jobs@[j].pr
                    == Some(number)),
        decreases jobs.len() - i,
    {
        let hit = match jobs[i].pr {
            Some(n) => n == number,
            None => false,
        };
        if hit && same(jobs[i].kind.as_str(), "force_merge") {
            return;
        }
        i += 1;
    }
    let ghost before = jobs@;
    jobs.push(
        Job {
            id: owned(id),
            kind: owned("force_merge"),
            pr: Some(number),
            queued_at: owned(at),
            queued_by: owned("web"),
        },
    );
    assert(jobs@.take(before.len() as int) =~= before);
    assert(jobs@[before.len() as int].kind@ == "force_merge"@);
}

/// Where a forced merge runs.
#[derive(Clone, Copy, Debug, PartialEq, Eq, Structural)]
pub enum ForceRoute {
    /// It is queued for a runner.
    Queue,
    /// It runs in this process.
    Here,
}

/// Decides where a forced merge runs: with a live runner it is queued for it. This process runs
/// it only where there is none, or the queue could not be written.
pub fn force_route(live_runner: bool, queue_failed: bool) -> (r: ForceRoute)
    ensures
        r == if live_runner && !queue_failed {
            ForceRoute::Queue
        } else {
            ForceRoute::Here
        },
{
    if live_runner && !queue_failed {
        ForceRoute::Queue
    } else {
        ForceRoute::Here
    }
}

/// The pull request that a forced merge is about.
#[derive(Clone, Debug)]
pub struct ForcePr {
    pub head: String,
    pub base: String,
    pub url: String,
    pub mergeable: bool,
}

/// What a forced merge does next.
#[derive(Clone, Debug)]
pub enum ForceNext {
    /// Says this and is over.
    Stop { say: String },
    /// Says this and has an engine resolve the conflicts.
    Fix { say: String, prompt: String },
    /// Waits and merges.
    Merge { wait_secs: u64, attempt: u8 },
}

pub open spec fn force_says(number: u64) -> Seq<char> {
    "⚡ Force-merge #"@ + spec_decimal(number as nat)
}

fn force_start(number: u64) -> (r: String)
    ensures
        r@ == force_says(number),
{
    let n = decimal(number);
    join2("⚡ Force-merge #", n.as_str())
}

/// The task of the engine that resolves the conflicts.
pub open spec fn conflict_prompt(number: u64, h: Seq<char>, b: Seq<char>) -> Seq<char> {
    let n = spec_decimal(number as nat);
    "URGENT: a human ordered PR #"@ + n + " (branch `"@ + h
        + "`) force-merged. It has merge conflicts with `"@ + b
        + "`.\n1. `git fetch origin && git checkout "@ + h + " && git pull origin "@ + h
        + "`\n2. `git merge origin/"@ + b
        + "` and resolve EVERY conflict, preserving both this branch's fix and what already landed on "@
        + b
        + ".\n3. Run the build/tests to make sure nothing broke.\n4. `git add -A && git commit -m \"fix: resolve conflicts for #"@
        + n + "\"` then `git push origin "@ + h + "`."@
}

fn prompt_for(number: u64, h: &str, b: &str) -> (r: String)
    ensures
        r@ == conflict_prompt(number, h@, b@),
{
    let n = decimal(number);
    let mut r = owned("URGENT: a human ordered PR #");
    r.append(n.as_str());
    r.append(" (branch `");
    r.append(h);
    r.append("`) force-merged. It has merge conflicts with `");
    r.append(b);
    r.append("`.\n1. `git fetch origin && git checkout ");
    r.append(h);
    r.append(" && git pull origin ");
    r.append(h);
    r.append("`\n2. `git merge origin/");
    r.append(b);
    r.append(
        "` and resolve EVERY conflict, preserving both this branch's fix and what already landed on ",
    );
    r.append(b);
    r.append(
        ".\n3. Run the build/tests to make sure nothing broke.\n4. `git add -A && git commit -m \"fix: resolve conflicts for #",
    );
    r.append(n.as_str());
    r.append("\"` then `git push origin ");
    r.append(h);
    r.append("`.");
    r
}

/// The open pull request was looked for: one that is gone ends it, one in conflict is fixed
/// first, another is merged at once.
pub fn force_found(number: u64, pr: &Option<ForcePr>) -> (r: ForceNext)
    ensures
        match pr {
            None => r is Stop && r->Stop_say@ == force_says(number)
                + ": PR không còn mở — bỏ qua."@,
            Some(p) => if p.mergeable {
                r == (ForceNext::Merge { wait_secs: 0, attempt: 0 })
            } else {
                r is Fix && r->Fix_say@ == force_says(number) + ": đang gỡ conflict trên `"@
                    + p.head@ + "` ngay bây giờ…"@ && r->prompt@ == conflict_prompt(
                    number,
                    p.head@,
                    p.base@,
                )
            },
        },
{
    let mut say = force_start(number);
    match pr {
        None => {
            say.append(": PR không còn mở — bỏ qua.");
            ForceNext::Stop { say }
        },
        Some(p) => if p.mergeable {
            ForceNext::Merge { wait_secs: 0, attempt: 0 }
        } else {
            say.append(": đang gỡ conflict trên `");
            say.append(p.head.as_str());
            say.append("` ngay bây giờ…");
            ForceNext::Fix { say, prompt: prompt_for(number, p.head.as_str(), p.base.as_str()) }
        },
    }
}

/// The engine came back. The forge gets a moment to see the push.
pub fn force_fixed(number: u64, pr: &ForcePr, succeeded: bool) -> (r: ForceNext)
    ensures
        if succeeded {
            r == (ForceNext::Merge { wait_secs: 10, attempt: 0 })
        } else {
            r is Stop && r->Stop_say@ == force_says(number)
                + ": gỡ conflict THẤT BẠI — cần bạn xử lý tay: "@ + pr.url@
        },
{
    if succeeded {
        return ForceNext::Merge { wait_secs: 10, attempt: 0 };
    }
    let mut say = force_start(number);
    say.append(": gỡ conflict THẤT BẠI — cần bạn xử lý tay: ");
    say.append(pr.url.as_str());
    ForceNext::Stop { say }
}

/// The attempt that follows one, if any: mergeability can lag a push, so a first refusal is tried
/// once more.
pub open spec fn next_attempt(attempt: u8, failed: bool) -> Option<u8> {
    if failed && attempt == 0 {
        Some(1)
    } else {
        None
    }
}

/// The attempts that a forced merge makes from one on, given which of them fail.
pub open spec fn attempts_made(attempt: u8, fails: spec_fn(u8) -> bool) -> Seq<u8>
    decreases (if attempt == 0 { 1nat } else { 0nat }),
{
    match next_attempt(attempt, fails(attempt)) {
        Some(next) => seq![attempt] + attempts_made(next, fails),
        None => seq![attempt],
    }
}

/// A forced merge is tried twice at most, and a second time only where the first was refused.
pub proof fn a_forced_merge_gives_up(fails: spec_fn(u8) -> bool)
    ensures
        attempts_made(0, fails) == if fails(0) {
            seq![0u8, 1u8]
        } else {
            seq![0u8]
        },
{
    reveal_with_fuel(attempts_made, 3);
}

/// A merge was tried. A first refusal is tried once more, a second one is final.
pub fn force_merged(number: u64, pr: &ForcePr, attempt: u8, result: &Result<(), String>) -> (r:
    ForceNext)
    ensures
        match result {
            Ok(_) => r is Stop && r->Stop_say@ == force_says(number) + ": ĐÃ MERGE ✓"@,
            Err(why) => match next_attempt(attempt, true) {
                Some(next) => r == (ForceNext::Merge { wait_secs: 15, attempt: next }),
                None => r is Stop && r->Stop_say@ == force_says(number) + ": merge bị từ chối ("@
                    + why@ + ") — xem PR: "@ + pr.url@,
            },
        },
{
    match result {
        Ok(_) => {
            let mut say = force_start(number);
            say.append(": ĐÃ MERGE ✓");
            ForceNext::Stop { say }
        },
        Err(why) => if attempt == 0 {
            ForceNext::Merge { wait_secs: 15, attempt: 1 }
        } else {
            let mut say = force_start(number);
            say.append(": merge bị từ chối (");
            say.append(why.as_str());
            say.append(") — xem PR: ");
            say.append(pr.url.as_str());
            ForceNext::Stop { say }
        },
    }
}

/// What a value of `host_port` means: nothing configured, a port, or (`Err`) a corrupt
/// configuration. Only whole numbers from 1 to 65535 are ports.
pub open spec fn spec_port(value: Option<JsonView>) -> Result<Option<u16>, ()> {
    match value {
        Some(JsonView::Null) => Ok(None),
        Some(JsonView::Uint(n)) => if 1 <= n <= 65535 {
            Ok(Some(n as u16))
        } else {
            Err(())
        },
        _ => Err(()),
    }
}

/// Reads the value of `host_port`.
pub fn port_of(value: &Option<Json>) -> (r: Result<Option<u16>, ()>)
    ensures
        r == spec_port(value_view(*value)),
{
    match value {
        Some(Json::Null) => Ok(None),
        Some(Json::Uint(n)) => if 1 <= *n && *n <= 65535 {
            Ok(Some(*n as u16))
        } else {
            Err(())
        },
        _ => Err(()),
    }
}

/// The port in the `deploy` section: nothing where the section has none, `Err` where the section
/// is not an object.
pub open spec fn section_port(section: Option<JsonView>) -> Result<Option<u16>, ()> {
    match section {
        Some(v) => if v is Object {
            match v.get("host_port"@) {
                None => Ok(None),
                Some(t) => spec_port(json_value(t)),
            }
        } else {
            Err(())
        },
        None => Err(()),
    }
}

/// The port in a configuration: `Err` where the text is not JSON or says something else than a
/// port.
pub open spec fn spec_preview_port(raw: Seq<char>) -> Result<Option<u16>, ()> {
    match json_value(raw) {
        None => Err(()),
        Some(v) => match v.get("deploy"@) {
            None => Ok(None),
            Some(t) => section_port(json_value(t)),
        },
    }
}

/// Reads `deploy.host_port` out of a project's configuration. What is absent is not configured;
/// what is there and is not a port is corrupt, and must never pass for absent.
pub fn parse_preview_host_port(raw_config: &str) -> (r: Result<Option<u16>, ()>)
    ensures
        r == spec_preview_port(raw_config@),
{
    let value = match parse_json(raw_config) {
        None => {
            return Err(());
        },
        Some(v) => v,
    };
    match value.get("deploy") {
        None => Ok(None),
        Some(t) => {
            let section = parse_json(t.as_str());
            match section {
                Some(v) => match v {
                    Json::Object(m) => {
                        let o = Json::Object(m);
                        match o.get("host_port") {
                            None => Ok(None),
                            Some(p) => {
                                let port = parse_json(p.as_str());
                                port_of(&port)
                            },
                        }
                    },
                    _ => Err(()),
                },
                None => Err(()),
            }
        },
    }
}

/// What the health gate after a deployment asks for.
#[derive(Clone, Copy, Debug, PartialEq, Eq, Structural)]
pub enum Gate {
    /// Nothing is configured: there is nothing to ask.
    Pass,
    /// The port to ask.
    Probe(u16),
    /// The configuration is corrupt: no answer could pass.
    Fail,
}

/// The health gate that goes with what the configuration says.
pub fn preview_gate(port: &Result<Option<u16>, ()>) -> (g: Gate)
    ensures
        g == match *port {
            Ok(None) => Gate::Pass,
            Ok(Some(p)) => Gate::Probe(p),
            Err(_) => Gate::Fail,
        },
{
    match port {
        Ok(None) => Gate::Pass,
        Ok(Some(p)) => Gate::Probe(*p),
        Err(_) => Gate::Fail,
    }
}

/// Whether a gate is passed, given whether the application answered on its port.
pub open spec fn gate_passes(g: Gate, answered: bool) -> bool {
    match g {
        Gate::Pass => true,
        Gate::Probe(_) => answered,
        Gate::Fail => false,
    }
}

/// Decides whether a health gate is passed.
pub fn run_preview_health_gate(g: Gate, answered: bool) -> (b: bool)
    ensures
        b == gate_passes(g, answered),
{
    match g {
        Gate::Pass => true,
        Gate::Probe(_) => answered,
        Gate::Fail => false,
    }
}

/// A `git` command of a preview: where it runs, and its arguments.
#[derive(Clone, Debug)]
pub struct GitStep {
    pub in_preview: bool,
    pub args: Vec<String>,
}

/// Finds the branch of a preview among the open pull requests.
pub fn preview_branch(
    has_deploy: bool,
    prs: &Result<Vec<(u64, String)>, String>,
    number: u64,
) -> (r: Result<String, Refusal>)
    ensures
        match r {
            Ok(head) => has_deploy && prs is Ok && exists|i: int|
                0 <= i < prs->Ok_0@.len() && (#[trigger] prs->Ok_0@[i]).0 == number
                    && prs->Ok_0@[i].1 == head && forall|j: int|
                    0 <= j < i ==> (#[trigger] prs->Ok_0@[j]).0 != number,
            Err(e) => if !has_deploy {
                e.v() == (501u16, "deploy not configured"@, false)
            } else {
                match prs {
                    Err(why) => e.v() == (500u16, why@, true),
                    Ok(list) => e.v() == (404u16, "PR not open"@, false) && forall|j: int|
                        0 <= j < list@.len() ==> (#[trigger] list@[j]).0 != number,
                }
            },
        },
{
    if !has_deploy {
        return Err(plain(501, "deploy not configured"));
    }
    match prs {
        Err(why) => Err(internal_error(why.as_str())),
        Ok(list) => {
            let mut i: usize = 0;
            while i < list.len()
                invariant
                    i <= list.len(),
                    has_deploy,
                    *prs == Ok::<Vec<(u64, String)>, String>(*list),
                    forall|j: int| 0 <= j < i ==> (#[trigger] list@[j]).0 != number,
                decreases list.len() - i,
            {
                if list[i].0 == number {
                    let head = list[i].1.clone();
                    assert(prs->Ok_0@[i as int].0 == number && prs->Ok_0@[i as int].1 == head);
                    return Ok(head);
                }
                i += 1;
            }
            Err(plain(404, "PR not open"))
        },
    }
}

/// The commands that bring the branch into the preview's directory: a fresh worktree, or a reset
/// of the one that is there.
pub fn checkout_steps(dir_exists: bool, head: &str, dir: &str) -> (r: Vec<GitStep>)
    ensures
        r@.len() == 2,
        !r@[0].in_preview,
        texts(r@[0].args@) == seq!["fetch"@, "origin"@, head@],
        r@[1].in_preview == dir_exists,
        texts(r@[1].args@) == if dir_exists {
            seq!["reset"@, "--hard"@, "origin/"@ + head@]
        } else {
            seq!["worktree"@, "add"@, "--force"@, dir@, "origin/"@ + head@]
        },
{
    broadcast use crate::text::texts_push, crate::text::texts_empty;

    let refspec = join2("origin/", head);
    let mut fetch: Vec<String> = Vec::new();
    fetch.push(owned("fetch"));
    fetch.push(owned("origin"));
    fetch.push(owned(head));
    assert(texts(fetch@) =~= seq!["fetch"@, "origin"@, head@]);
    let mut next: Vec<String> = Vec::new();
    if dir_exists {
        next.push(owned("reset"));
        next.push(owned("--hard"));
        next.push(refspec);
        assert(texts(next@) =~= seq!["reset"@, "--hard"@, "origin/"@ + head@]);
    } else {
        next.push(owned("worktree"));
        next.push(owned("add"));
        next.push(owned("--force"));
        next.push(owned(dir));
        next.push(refspec);
        assert(texts(next@) =~= seq!["worktree"@, "add"@, "--force"@, dir@, "origin/"@ + head@]);
    }
    let mut r: Vec<GitStep> = Vec::new();
    r.push(GitStep { in_preview: false, args: fetch });
    r.push(GitStep { in_preview: dir_exists, args: next });
    r
}

/// The answer to a checkout that failed.
pub fn checkout_failed(why: &str) -> (e: Refusal)
    ensures
        e.v() == (500u16, "preview checkout: "@ + why@, true),
{
    let text = join2("preview checkout: ", why);
    internal_error(text.as_str())
}

/// How a deployment went.
#[derive(Clone, Debug)]
pub enum Deployed {
    Failed(String),
    Report { success: bool, summary: String },
}

/// A preview that started, or a main build that is back.
#[derive(Clone, Debug)]
pub struct PreviewDone {
    pub url: Option<String>,
    pub chat: String,
}

/// Whether a deployment may be reported as live.
pub open spec fn is_live(d: Deployed, gate: bool) -> bool {
    d is Report && d->success && gate
}

pub open spec fn local_url(port: Option<u16>) -> Option<Seq<char>> {
    match port {
        Some(p) => Some("http://localhost:"@ + spec_decimal(p as nat)),
        None => None,
    }
}

pub open spec fn live_chat(number: u64, port: Option<u16>) -> Seq<char> {
    "👁 Preview of PR #"@ + spec_decimal(number as nat) + " is LIVE"@ + (match local_url(port) {
        Some(u) => " at "@ + u,
        None => Seq::empty(),
    }) + " — the main build is paused; restore it from the Review tab when done."@
}

/// Ends the start of a preview. It is told to be live only when it was deployed and the health
/// gate was passed.
pub fn preview_started(number: u64, d: &Deployed, gate: bool, port: Option<u16>) -> (r: Result<
    PreviewDone,
    Refusal,
>)
    ensures
        r is Ok <==> is_live(*d, gate),
        match r {
            Ok(p) => opt_text(p.url) == local_url(port) && p.chat@ == live_chat(
                number,
                port,
            ),
            Err(e) => match d {
                Deployed::Failed(why) => e.v() == (500u16, why@, true),
                Deployed::Report { success, summary } => e.v() == (
                    500u16,
                    if *success {
                        "preview deploy failed: "@ + summary@
                            + " (containers started but the app never bound its port — health check failed)"@
                    } else {
                        "preview deploy failed: "@ + summary@
                    },
                    true,
                ),
            },
        },
{
    match d {
        Deployed::Failed(why) => Err(internal_error(why.as_str())),
        Deployed::Report { success, summary } => {
            if *success && gate {
                let n = decimal(number);
                let mut chat = owned("👁 Preview of PR #");
                chat.append(n.as_str());
                chat.append(" is LIVE");
                let ghost said = chat@;
                let url = match port {
                    Some(p) => {
                        let digits = decimal(p as u64);
                        let u = join2("http://localhost:", digits.as_str());
                        let at = join2(" at ", u.as_str());
                        chat.append(at.as_str());
                        Some(u)
                    },
                    None => {
                        assert(said + Seq::<char>::empty() =~= said);
                        None
                    },
                };
                chat.append(
                    " — the main build is paused; restore it from the Review tab when done.",
                );
                Ok(PreviewDone { url, chat })
            } else {
                let mut text = owned("preview deploy failed: ");
                text.append(summary.as_str());
                if *success {
                    text.append(
                        " (containers started but the app never bound its port — health check failed)",
                    );
                }
                Err(internal_error(text.as_str()))
            }
        },
    }
}

/// Ends a preview: the main build has to come back on its port too.
pub fn preview_stopped(number: u64, d: &Deployed, gate: bool) -> (r: Result<PreviewDone, Refusal>)
    ensures
        r is Ok <==> is_live(*d, gate),
        match r {
            Ok(p) => p.url is None && p.chat@ == "↩️ Preview of PR #"@ + spec_decimal(number as nat)
                + " stopped — main build restored."@,
            Err(e) => match d {
                Deployed::Failed(why) => e.v() == (500u16, why@, true),
                Deployed::Report { success, summary } => e.v() == (
                    500u16,
                    "restore failed: "@ + summary@
                        + " (containers started but the app never bound its port — health check failed)"@,
                    true,
                ),
            },
        },
{
    match d {
        Deployed::Failed(why) => Err(internal_error(why.as_str())),
        Deployed::Report { success, summary } => {
            if *success && gate {
                let n = decimal(number);
                let mut chat = owned("↩️ Preview of PR #");
                chat.append(n.as_str());
                chat.append(" stopped — main build restored.");
                Ok(PreviewDone { url: None, chat })
            } else {
                let mut text = owned("restore failed: ");
                text.append(summary.as_str());
                text.append(
                    " (containers started but the app never bound its port — health check failed)",
                );
                Err(internal_error(text.as_str()))
            }
        },
    }
}

/// A corrupt port never passes for a configuration without one: whatever is deployed and
/// whatever answers, its health gate stays shut and nothing is reported live.
pub proof fn a_corrupt_port_is_never_live(raw: Seq<char>, d: Deployed, answered: bool)
    requires
        spec_preview_port(raw) is Err,
    ensures
        !is_live(
            d,
            gate_passes(
                match spec_preview_port(raw) {
                    Ok(None) => Gate::Pass,
                    Ok(Some(p)) => Gate::Probe(p),
                    Err(_) => Gate::Fail,
                },
                answered,
            ),
        ),
{
}

/// What a sweep of the merge queue goes by.
#[derive(Clone, Debug)]
pub struct SweepSettings {
    pub target: String,
    pub vietnamese: bool,
    pub require_ci: bool,
}

/// The branch to merge into: the target branch where it is not blank, else the default branch,
/// else `main`.
pub open spec fn sweep_target(target: Option<JsonView>, default: Option<JsonView>) -> Seq<char> {
    match target {
        Some(JsonView::Text(t)) => if spec_trim(t).len() > 0 {
            t
        } else {
            default_target(default)
        },
        _ => default_target(default),
    }
}

pub open spec fn default_target(default: Option<JsonView>) -> Seq<char> {
    match default {
        Some(JsonView::Text(t)) => t,
        _ => "main"@,
    }
}

fn pick_default(default: &Option<Json>) -> (r: String)
    ensures
        r@ == default_target(value_view(*default)),
{
    match default {
        Some(Json::Text(t)) => t.clone(),
        _ => owned("main"),
    }
}

/// Picks the settings out of the values that the configuration holds.
pub fn sweep_settings_of(
    target: &Option<Json>,
    default: &Option<Json>,
    language: &Option<Json>,
    require_ci: &Option<Json>,
) -> (r: SweepSettings)
    ensures
        r.target@ == sweep_target(value_view(*target), value_view(*default)),
        r.vietnamese == (value_view(*language) == Some(JsonView::Text("vi"@))),
        r.require_ci == match value_view(*require_ci) {
            Some(JsonView::Bool(b)) => b,
            _ => true,
        },
{
    let target = match target {
        Some(Json::Text(t)) => if !is_blank(t.as_str()) {
            t.clone()
        } else {
            pick_default(default)
        },
        _ => pick_default(default),
    };
    let vietnamese = match language {
        Some(Json::Text(t)) => same(t.as_str(), "vi"),
        _ => false,
    };
    let require_ci = match require_ci {
        Some(Json::Bool(b)) => *b,
        _ => true,
    };
    SweepSettings { target, vietnamese, require_ci }
}

/// Reads the settings of a sweep from a project's configuration; one that cannot be read has the
/// settings of an empty one.
pub fn sweep_settings(config: &str) -> (r: SweepSettings)
    ensures
        r.target@ == sweep_target(
            json_at(config@, "git"@, "target_branch"@),
            json_at(config@, "git"@, "default_branch"@),
        ),
        r.vietnamese == (json_at(config@, "workflow"@, "language"@) == Some(
            JsonView::Text("vi"@),
        )),
        r.require_ci == match json_at(config@, "git"@, "require_ci"@) {
            Some(JsonView::Bool(b)) => b,
            _ => true,
        },
{
    let target = read_at(config, "git", "target_branch");
    let default = read_at(config, "git", "default_branch");
    let language = read_at(config, "workflow", "language");
    let require_ci = read_at(config, "git", "require_ci");
    sweep_settings_of(&target, &default, &language, &require_ci)
}

/// Admits what takes a forge: a look at a pull request, a sweep of the merge queue.
pub fn admit_forge(exists_: bool, has_forge: bool) -> (r: Result<(), Refusal>)
    ensures
        match r {
            Ok(_) => exists_ && has_forge,
            Err(e) => if !exists_ {
                e.v() == (404u16, "no such project"@, false)
            } else {
                !has_forge && e.v() == (501u16, "forge not configured"@, false)
            },
        },
{
    if !exists_ {
        return Err(not_found());
    }
    if !has_forge {
        return Err(plain(501, "forge not configured"));
    }
    Ok(())
}

/// The port that a configuration publishes, where there is one and it says so honestly.
pub open spec fn honest_port(config: Option<&str>) -> Option<u16> {
    match config {
        None => None,
        Some(text) => match spec_preview_port(text@) {
            Ok(p) => p,
            Err(_) => None,
        },
    }
}

/// The port that a configuration publishes. A corrupt one publishes none.
pub fn configured_port(config: Option<&str>) -> (r: Option<u16>)
    ensures
        r == honest_port(config),
{
    match config {
        None => None,
        Some(text) => match parse_preview_host_port(text) {
            Ok(p) => p,
            Err(_) => None,
        },
    }
}

/// The host of a base address is what stands between the scheme and the slashes at the end.
pub proof fn the_host_is_read_from_the_address(host: Seq<char>)
    requires
        host.len() > 0,
        host.last() != '/',
        !spec_starts(host, "http://"@),
        !spec_starts(host, "https://"@),
    ensures
        spec_host(host) == host,
        spec_host(host + seq!['/']) == host,
        spec_host("https://"@ + host) == host,
        spec_host("http://"@ + host) == host,
        spec_host("https://"@ + host + seq!['/']) == host,
{
    reveal_strlit("https://");
    reveal_strlit("http://");
    let slash = host + seq!['/'];
    assert(slash.drop_last() =~= host);
    assert(spec_trim_end_char(host, '/') == host);
    assert(spec_trim_end_char(slash, '/') == host);
    still_no_scheme(host, "http://"@);
    still_no_scheme(host, "https://"@);
    let a = "https://"@ + host;
    assert(a.take(8) =~= "https://"@);
    assert(a.skip(8) =~= host);
    let b = "https://"@ + host + seq!['/'];
    assert(b.take(8) =~= "https://"@);
    assert(b.skip(8) =~= slash);
    let c = "http://"@ + host;
    assert(c.take(7) =~= "http://"@);
    assert(c.skip(7) =~= host);
    if spec_starts(c, "https://"@) {
        assert(c.take(8)[4] == c[4]);
        assert("https://"@[4] == 's');
    }
    assert(spec_strip_prefixes(a, "https://"@) == spec_strip_prefixes(host, "https://"@));
    assert(spec_strip_prefixes(b, "https://"@) == spec_strip_prefixes(slash, "https://"@));
    assert(spec_strip_prefixes(c, "http://"@) == spec_strip_prefixes(host, "http://"@));
}

proof fn still_no_scheme(host: Seq<char>, scheme: Seq<char>)
    requires
        host.len() > 0,
        host.last() != '/',
        !spec_starts(host, scheme),
        scheme.len() > 1,
        scheme.last() == '/',
        scheme[scheme.len() - 2] == '/',
    ensures
        !spec_starts(host + seq!['/'], scheme),
{
    let slash = host + seq!['/'];
    if spec_starts(slash, scheme) {
        if scheme.len() <= host.len() {
            assert(host.take(scheme.len() as int) =~= slash.take(scheme.len() as int));
        } else {
            assert(slash.take(scheme.len() as int)[scheme.len() - 2] == slash[scheme.len() - 2]);
            assert(host.last() == slash[scheme.len() - 2]);
        }
    }
}

/// What is reported of a command is a line that it printed, its last one, cut to two hundred
/// characters.
pub proof fn the_last_line_is_reported(stderr: Seq<char>)
    ensures
        spec_detail(stderr).len() <= 200,
        spec_lines(stderr).len() == 0 ==> spec_detail(stderr).len() == 0,
        spec_lines(stderr).len() > 0 ==> spec_detail(stderr).is_prefix_of(
            spec_lines(stderr)[spec_lines(stderr).len() - 1],
        ),
        spec_lines(stderr).len() > 0 && spec_lines(stderr).last().len() <= 200 ==> spec_detail(
            stderr,
        ) == spec_lines(stderr)[spec_lines(stderr).len() - 1],
{
    if spec_lines(stderr).len() > 0 {
        let l = spec_lines(stderr).last();
        assert(spec_detail(stderr) =~= l.subrange(0, spec_detail(stderr).len() as int));
    }
}

/// A sign-in names the host exactly where there is one, and speaks plainly to a GitLab that is
/// reached without encryption alone.
pub proof fn a_sign_in_names_its_host(provider: Seq<char>, base: Seq<char>)
    ensures
        login_args(provider, base).len() >= 3,
        login_args(provider, base)[0] == "auth"@,
        login_args(provider, base)[1] == "login"@,
        login_args(provider, base)[2] == if provider == "gitlab"@ {
            "--stdin"@
        } else {
            "--with-token"@
        },
        spec_host(base).len() > 0 ==> login_args(provider, base).len() >= 5 && login_args(
            provider,
            base,
        )[3] == "--hostname"@ && login_args(provider, base)[4] == spec_host(base),
        login_args(provider, base).len() == 3 + (if spec_host(base).len() > 0 {
            2int
        } else {
            0
        }) + (if provider == "gitlab"@ && spec_starts(spec_trim(base), "http://"@) {
            2int
        } else {
            0
        }),
        provider == "gitlab"@ && spec_starts(spec_trim(base), "http://"@) ==> login_args(
            provider,
            base,
        )[login_args(provider, base).len() - 2] == "--api-protocol"@ && login_args(
            provider,
            base,
        ).last() == "http"@,
{
}

/// A port is a whole number from 1 to 65535. Nothing is configured where the value is null; what
/// is neither is corrupt.
pub proof fn a_port_is_a_port(value: Option<JsonView>, n: u64)
    ensures
        spec_port(Some(JsonView::Uint(n))) == (if 0 < n < 65536 {
            Ok::<Option<u16>, ()>(Some(n as u16))
        } else {
            Err::<Option<u16>, ()>(())
        }),
        spec_port(Some(JsonView::Null)) == Ok::<Option<u16>, ()>(None),
        value is None || !(value->0 is Uint || value->0 is Null) ==> spec_port(value) is Err,
        spec_port(value) matches Ok(Some(p)) ==> p > 0 && value == Some(JsonView::Uint(p as u64)),
{
}

/// A configuration without a `deploy` section, or whose section has no port, configures none; one
/// that is not JSON, or whose section is no object, is corrupt; otherwise its port is what the
/// value says.
pub proof fn a_configuration_is_read_honestly(raw: Seq<char>)
    ensures
        json_value(raw) is None ==> spec_preview_port(raw) is Err,
        json_value(raw) is Some && json_value(raw)->0.get("deploy"@) is None ==> spec_preview_port(
            raw,
        ) == Ok::<Option<u16>, ()>(None),
        json_value(raw) is Some && json_value(raw)->0.get("deploy"@) is Some ==> {
            let section = json_value(json_value(raw)->0.get("deploy"@)->0);
            &&& section is None || !(section->0 is Object) ==> spec_preview_port(raw) is Err
            &&& section is Some && section->0 is Object && section->0.get("host_port"@) is None
                ==> spec_preview_port(raw) == Ok::<Option<u16>, ()>(None)
            &&& section is Some && section->0 is Object && section->0.get("host_port"@) is Some
                ==> spec_preview_port(raw) == spec_port(
                json_value(section->0.get("host_port"@)->0),
            )
        },
{
}

/// A preview is live exactly where it was deployed with success and, where a port is configured,
/// the application answered on it. A port that is not configured is not asked for.
pub proof fn a_preview_is_live_when_it_answers(
    port: Option<u16>,
    answered: bool,
    success: bool,
    summary: String,
    why: String,
)
    ensures
        is_live(
            Deployed::Report { success, summary },
            gate_passes(
                match port {
                    None => Gate::Pass,
                    Some(p) => Gate::Probe(p),
                },
                answered,
            ),
        ) <==> success && (port is None || answered),
        !is_live(Deployed::Failed(why), true),
        !gate_passes(Gate::Fail, answered),
        !is_live(Deployed::Report { success, summary }, false),
{
}

/// The address of a live preview is on this machine, at its port.
pub proof fn a_preview_is_found_at_its_port(number: u64, port: u16)
    ensures
        local_url(Some(port)) == Some("http://localhost:"@ + spec_decimal(port as nat)),
        local_url(None) is None,
        live_chat(number, Some(port)).len() == live_chat(number, None).len() + 4
            + "http://localhost:"@.len() + spec_decimal(port as nat).len(),
        digits_value(spec_decimal(port as nat)) == port,
{
    reveal_strlit(" at ");
    a_decimal_reads_back(port as nat);
}

/// A sweep merges into the target branch where one is set, else into the default branch, else
/// into `main`.
pub proof fn a_sweep_has_a_target(
    target: Seq<char>,
    default: Seq<char>,
    other: Option<JsonView>,
)
    requires
        other is None || !(other->0 is Text),
    ensures
        spec_trim(target).len() > 0 ==> sweep_target(Some(JsonView::Text(target)), other) == target
            && sweep_target(Some(JsonView::Text(target)), Some(JsonView::Text(default))) == target,
        spec_trim(target).len() == 0 ==> sweep_target(
            Some(JsonView::Text(target)),
            Some(JsonView::Text(default)),
        ) == default,
        sweep_target(other, Some(JsonView::Text(default))) == default,
        sweep_target(other, other) == "main"@,
{
}

/// The port that a configuration publishes is the one that it says; where it says none, or
/// something else than a port, it publishes none.
pub proof fn only_an_honest_port_is_published(config: Option<&str>)
    ensures
        honest_port(config) is Some <==> config is Some && spec_preview_port(config->0@) is Ok
            && spec_preview_port(config->0@)->Ok_0 is Some,
        honest_port(config) is Some ==> spec_preview_port(config->0@) == Ok::<Option<u16>, ()>(
            honest_port(config),
        ),
{
}

/// A whole test of the connection to the code host, given how its commands ended: a push goes
/// through exactly where there is a repository with a remote that answers and takes it, and no
/// later question is asked once one has failed.
pub fn whole_git_test(
    is_repo: bool,
    remote_ok: bool,
    remote: &str,
    reach: &Ran,
    push: &Ran,
) -> (t: GitTest)
    ensures
        t.repo == is_repo,
        t.remote is Some <==> is_repo && remote_ok && spec_trim(remote@).len() > 0,
        t.remote is Some ==> t.remote->0@ == spec_trim(remote@),
        t.reachable <==> t.remote is Some && *reach is Ended && reach->success,
        t.push_ok <==> t.reachable && *push is Ended && push->success,
        t.push_ok || t.remote is None ==> t.detail@.len() == 0,
        t.remote is Some && *reach is Ended && !reach->success ==> t.detail@ == spec_detail(
            reach->stderr@,
        ),
        t.remote is Some && *reach is TimedOut ==> t.detail@ == "ls-remote timed out"@,
        t.reachable && *push is Ended && !push->success ==> t.detail@ == spec_detail(push->stderr@),
        t.reachable && *push is TimedOut ==> t.detail@ == "push --dry-run timed out"@,
{
    let (mut t, first) = git_test_start(is_repo);
    if first == GitProbe::RemoteUrl {
        let second = git_test_remote(&mut t, remote_ok, remote);
        if second == GitProbe::ListRemote {
            let third = git_test_reach(&mut t, reach);
            if third == GitProbe::DryPush {
                git_test_push(&mut t, push);
            }
        }
    }
    t
}

/// A whole forced merge, given what the engine and the two merges came to: it lands exactly where
/// the pull request is open, its conflicts were resolved where there were any, and the first or the
/// second merge was taken.
pub fn whole_force_merge(
    number: u64,
    pr: &Option<ForcePr>,
    resolved: bool,
    first: &Result<(), String>,
    second: &Result<(), String>,
) -> (say: String)
    ensures
        say@ == "⚡ Force-merge #"@ + spec_decimal(number as nat) + (if *pr is None {
            ": PR không còn mở — bỏ qua."@
        } else if !pr->0.mergeable && !resolved {
            ": gỡ conflict THẤT BẠI — cần bạn xử lý tay: "@ + pr->0.url@
        } else if *first is Ok || *second is Ok {
            ": ĐÃ MERGE ✓"@
        } else {
            ": merge bị từ chối ("@ + second->Err_0@ + ") — xem PR: "@ + pr->0.url@
        }),
{
    let begun = force_found(number, pr);
    match pr {
        None => match begun {
            ForceNext::Stop { say } => {
                assert(say@ =~= "⚡ Force-merge #"@ + spec_decimal(number as nat)
                    + ": PR không còn mở — bỏ qua."@);
                say
            },
            _ => String::new(),
        },
        Some(p) => {
            let ready = match begun {
                ForceNext::Fix { .. } => force_fixed(number, p, resolved),
                other => other,
            };
            match ready {
                ForceNext::Stop { say } => {
                    assert(say@ =~= "⚡ Force-merge #"@ + spec_decimal(number as nat) + (
                    ": gỡ conflict THẤT BẠI — cần bạn xử lý tay: "@ + p.url@));
                    say
                },
                ForceNext::Merge { attempt, .. } => match force_merged(number, p, attempt, first) {
                    ForceNext::Stop { say } => say,
                    ForceNext::Merge { attempt, .. } => match force_merged(
                        number,
                        p,
                        attempt,
                        second,
                    ) {
                        ForceNext::Stop { say } => {
                            if let Err(why) = second {
                                assert(say@ =~= "⚡ Force-merge #"@ + spec_decimal(number as nat) + (
                                ": merge bị từ chối ("@ + why@ + ") — xem PR: "@ + p.url@));
                            }
                            say
                        },
                        _ => String::new(),
                    },
                    _ => String::new(),
                },
                _ => String::new(),
            }
        },
    }
}

/// A merge that failed is tried once more, and no more than once.
pub proof fn a_merge_is_tried_twice_at_most(attempt: u8, failed: bool)
    ensures
        failed ==> next_attempt(0, failed) == Some(1u8),
        !failed ==> next_attempt(attempt, failed) is None,
        next_attempt(0, failed) is Some ==> next_attempt(next_attempt(0, failed)->0, true) is None,
        attempt > 0 ==> next_attempt(attempt, failed) is None,
{
}

/// A forced merge waits once a job of that kind and number is queued; other jobs do not make it
/// wait.
pub proof fn a_forced_merge_waits_once_queued(jobs: Seq<Job>, job: Job, number: u64)
    ensures
        !force_queued(Seq::empty(), number),
        force_queued(jobs.push(job), number) <==> force_queued(jobs, number) || (job.kind@
            == "force_merge"@ && job.pr == Some(number)),
{
    let more = jobs.push(job);
    if force_queued(jobs, number) {
        let i = choose|i: int|
            0 <= i < jobs.len() && (#[trigger] jobs[i]).kind@ == "force_merge"@ && jobs[i].pr
                == Some(number);
        assert(more[i].kind@ == "force_merge"@);
    }
    if job.kind@ == "force_merge"@ && job.pr == Some(number) {
        assert(more[jobs.len() as int].kind@ == "force_merge"@);
    }
    if force_queued(more, number) {
        let i = choose|i: int|
            0 <= i < more.len() && (#[trigger] more[i]).kind@ == "force_merge"@ && more[i].pr
                == Some(number);
        if i < jobs.len() {
            assert(jobs[i].kind@ == "force_merge"@);
        }
    }
}

/// A test of the connection never reports a stage as good behind one that is not.
pub proof fn no_stage_is_good_behind_a_bad_one(t: GitTest)
    requires
        t.staged(),
    ensures
        !t.repo ==> t.remote is None && !t.reachable && !t.push_ok,
        t.remote is None ==> !t.reachable && !t.push_ok,
        !t.reachable ==> !t.push_ok,
{
}

} // verus!
