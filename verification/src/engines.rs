//! The tool protocol for agents, the engines' models, and the tokens that programs sign in with.

use crate::guards::{AuthRole, AuthUser};
use crate::json::{json_member, read_member, value_view, Json, JsonView};
use crate::lists::{collect, collect_step, kept_is_filtered};
use crate::reply::{plain, Refusal};
use crate::text::{
    a_text_is_cut_at_the_first_place, ascii_alnum, ascii_lower, chars_of, contains, hexadecimal, hexadecimal_tells_numbers_apart,
    is_ascii_alnum, join2, join3, lines, owned, parse_number, same, spec_ascii_lower, spec_contains,
    spec_hexadecimal, spec_lines, spec_number, spec_split_once, spec_starts, spec_trim, spec_words,
    split_once, starts_with, strip_prefix, texts, trim, words,
};
use vstd::prelude::*;

verus! {

/// What a request of the tool protocol asks for.
#[derive(Clone, Copy, Debug, PartialEq, Eq, Structural)]
pub enum McpMethod {
    Initialize,
    /// A notification, which has no reply.
    Notification,
    Ping,
    ListTools,
    CallTool,
    Unknown,
}

pub open spec fn method_named(name: Seq<char>) -> McpMethod {
    if name == "initialize"@ {
        McpMethod::Initialize
    } else if name == "notifications/initialized"@ || name == "notifications/cancelled"@ {
        McpMethod::Notification
    } else if name == "ping"@ {
        McpMethod::Ping
    } else if name == "tools/list"@ {
        McpMethod::ListTools
    } else if name == "tools/call"@ {
        McpMethod::CallTool
    } else {
        McpMethod::Unknown
    }
}

/// What a method asks for.
pub fn mcp_method(name: &str) -> (r: McpMethod)
    ensures
        r == method_named(name@),
{
    if same(name, "initialize") {
        McpMethod::Initialize
    } else if same(name, "notifications/initialized") || same(name, "notifications/cancelled") {
        McpMethod::Notification
    } else if same(name, "ping") {
        McpMethod::Ping
    } else if same(name, "tools/list") {
        McpMethod::ListTools
    } else if same(name, "tools/call") {
        McpMethod::CallTool
    } else {
        McpMethod::Unknown
    }
}

/// A call of a tool, with what it takes.
#[derive(Clone, Debug)]
pub enum McpCall {
    SearchSymbols(String),
    SymbolRefs(String),
    GetTicket(String),
    PrQueue,
    ReportBlocker(String),
}

/// The project that a call is about, given the argument.
pub fn project_of_argument(value: &Option<Json>) -> (r: Result<String, String>)
    ensures
        match r {
            Ok(pid) => value_view(*value) == Some(JsonView::Text(pid@)),
            Err(e) => !(*value is Some && value->0 is Text) && e@ == "missing 'project'"@,
        },
{
    match value {
        Some(Json::Text(pid)) => Ok(pid.clone()),
        _ => Err(owned("missing 'project'")),
    }
}

/// The project that a call is about, given its arguments (a JSON text).
pub fn mcp_project(args: &str) -> (r: Result<String, String>)
    ensures
        match r {
            Ok(pid) => json_member(args@, "project"@) == Some(JsonView::Text(pid@)),
            Err(e) => !(json_member(args@, "project"@) is Some && json_member(
                args@,
                "project"@,
            )->0 is Text) && e@ == "missing 'project'"@,
        },
{
    let value = read_member(args, "project");
    project_of_argument(&value)
}

/// The argument that a tool takes besides the project.
pub open spec fn argument_of(tool: Seq<char>) -> Option<Seq<char>> {
    if tool == "search_symbols"@ {
        Some("query"@)
    } else if tool == "symbol_refs"@ {
        Some("name"@)
    } else if tool == "get_ticket"@ {
        Some("id"@)
    } else if tool == "report_blocker"@ {
        Some("note"@)
    } else {
        None
    }
}

/// A given text that is not blank, trimmed.
pub open spec fn given(value: Option<JsonView>) -> Option<Seq<char>> {
    match value {
        Some(JsonView::Text(s)) => if spec_trim(s).len() > 0 {
            Some(spec_trim(s))
        } else {
            None
        },
        _ => None,
    }
}

fn given_text(value: &Option<Json>) -> (r: Option<String>)
    ensures
        match r {
            Some(t) => given(value_view(*value)) == Some(t@),
            None => given(value_view(*value)) is None,
        },
{
    match value {
        Some(Json::Text(s)) => {
            let t = trim(s.as_str());
            if t.as_str().is_empty() {
                None
            } else {
                Some(t)
            }
        },
        _ => None,
    }
}

/// Whether a plan is the one for a tool and the value of its argument.
pub open spec fn call_planned(
    tool: Seq<char>,
    value: Option<JsonView>,
    r: Result<McpCall, String>,
) -> bool {
    if tool == "pr_queue"@ && argument_of(tool) is None {
        r is Ok && r->Ok_0 is PrQueue
    } else {
        match argument_of(tool) {
            None => r is Err && r->Err_0@ == "unknown tool "@ + tool,
            Some(key) => match given(value) {
                None => r is Err && r->Err_0@ == "missing '"@ + key + "'"@,
                Some(t) => match r {
                    Ok(McpCall::SearchSymbols(q)) => tool == "search_symbols"@ && q@ == t,
                    Ok(McpCall::SymbolRefs(q)) => tool == "symbol_refs"@ && q@ == t,
                    Ok(McpCall::GetTicket(q)) => tool == "get_ticket"@ && q@ == t,
                    Ok(McpCall::ReportBlocker(q)) => tool == "report_blocker"@ && q@ == t,
                    _ => false,
                },
            },
        }
    }
}

fn missing(key: &str) -> (r: String)
    ensures
        r@ == "missing '"@ + key@ + "'"@,
{
    join3("missing '", key, "'")
}

/// Plans the call of a tool, given the value of its argument.
pub fn plan_of_argument(tool: &str, value: &Option<Json>) -> (r: Result<McpCall, String>)
    ensures
        call_planned(tool@, value_view(*value), r),
{
    if same(tool, "search_symbols") {
        match given_text(value) {
            Some(q) => Ok(McpCall::SearchSymbols(q)),
            None => Err(missing("query")),
        }
    } else if same(tool, "symbol_refs") {
        match given_text(value) {
            Some(q) => Ok(McpCall::SymbolRefs(q)),
            None => Err(missing("name")),
        }
    } else if same(tool, "get_ticket") {
        match given_text(value) {
            Some(q) => Ok(McpCall::GetTicket(q)),
            None => Err(missing("id")),
        }
    } else if same(tool, "report_blocker") {
        match given_text(value) {
            Some(q) => Ok(McpCall::ReportBlocker(q)),
            None => Err(missing("note")),
        }
    } else if same(tool, "pr_queue") {
        Ok(McpCall::PrQueue)
    } else {
        Err(join2("unknown tool ", tool))
    }
}

/// The value of a tool's argument among all arguments.
pub open spec fn argument_value(tool: Seq<char>, args: Seq<char>) -> Option<JsonView> {
    match argument_of(tool) {
        Some(key) => json_member(args, key),
        None => None,
    }
}

/// Plans the call of a tool on a known project, given its arguments (a JSON text).
pub fn plan_call(tool: &str, args: &str) -> (r: Result<McpCall, String>)
    ensures
        call_planned(tool@, argument_value(tool@, args@), r),
{
    let value = if same(tool, "search_symbols") {
        read_member(args, "query")
    } else if same(tool, "symbol_refs") {
        read_member(args, "name")
    } else if same(tool, "get_ticket") {
        read_member(args, "id")
    } else if same(tool, "report_blocker") {
        read_member(args, "note")
    } else {
        None
    };
    plan_of_argument(tool, &value)
}

/// The audit line of a call.
pub fn call_audit(tool: &str, project: &str) -> (r: String)
    ensures
        r@ == "MCP "@ + tool@ + " "@ + project@,
{
    let head = join3("MCP ", tool, " ");
    join2(head.as_str(), project)
}

/// The message that tells people of a blocker.
pub fn blocker_message(note: &str) -> (r: String)
    ensures
        r@ == "🚧 Blocker: "@ + note@,
{
    join2("🚧 Blocker: ", note)
}

/// A model of an engine.
#[derive(Clone, Debug)]
pub struct EngineModel {
    pub provider: String,
    pub model: String,
    pub full: String,
}

/// Whether a line names the model.
pub open spec fn model_line(line: Seq<char>, m: EngineModel) -> bool {
    m.full@ == spec_trim(line) && spec_split_once(spec_trim(line), '/') == Some(
        (m.provider@, m.model@),
    )
}

/// Whether a line is one of a model: a provider and a model, and no complaint.
pub open spec fn names_model(line: Seq<char>) -> bool {
    let t = spec_trim(line);
    t.len() > 0 && !spec_contains(t, "No models"@) && !spec_contains(t, "Error"@)
        && spec_split_once(t, '/') is Some
}

/// The lines of models among the lines.
pub open spec fn model_lines(all: Seq<Seq<char>>) -> Seq<Seq<char>>
    decreases all.len(),
{
    if all.len() == 0 {
        Seq::empty()
    } else if names_model(all.last()) {
        model_lines(all.drop_last()).push(all.last())
    } else {
        model_lines(all.drop_last())
    }
}

/// Reads the models that an engine lists. One that failed lists none.
pub fn engine_models(printed: Option<&str>) -> (r: Vec<EngineModel>)
    ensures
        match printed {
            None => r@.len() == 0,
            Some(text) => {
                let found = model_lines(spec_lines(text@));
                &&& r@.len() == found.len()
                &&& forall|i: int| 0 <= i < r@.len() ==> model_line(found[i], #[trigger] r@[i])
            },
        },
{
    let mut r: Vec<EngineModel> = Vec::new();
    let text = match printed {
        None => {
            return r;
        },
        Some(t) => t,
    };
    let all = lines(text);
    let ghost seen = texts(all@);
    let mut i: usize = 0;
    assert(seen.take(0) =~= Seq::empty());
    while i < all.len()
        invariant
            i <= all.len(),
            seen == texts(all@),
            r@.len() == model_lines(seen.take(i as int)).len(),
            forall|k: int|
                0 <= k < r@.len() ==> model_line(
                    model_lines(seen.take(i as int))[k],
                    #[trigger] r@[k],
                ),
        decreases all.len() - i,
    {
        proof {
            assert(seen.take(i + 1).drop_last() =~= seen.take(i as int));
            assert(seen[i as int] == all@[i as int]@);
        }
        let line = trim(all[i].as_str());
        if !line.as_str().is_empty() && !contains(line.as_str(), "No models") && !contains(
            line.as_str(),
            "Error",
        ) {
            if let Some((provider, model)) = split_once(line.as_str(), '/') {
                r.push(EngineModel { provider, model, full: line });
            }
        }
        i += 1;
    }
    assert(seen.take(seen.len() as int) =~= seen);
    r
}

/// What the compressor saved: how many samples there are, and the bytes before and after.
#[derive(Clone, Copy, Debug, PartialEq, Eq, Structural)]
pub struct Savings {
    pub samples: u128,
    pub before: u128,
    pub after: u128,
}

impl Savings {
    /// The bytes that were saved.
    pub fn saved(&self) -> (r: u128)
        ensures
            r == if self.before >= self.after {
                self.before - self.after
            } else {
                0
            },
    {
        self.before.saturating_sub(self.after)
    }
}

/// The sizes that a line of the log tells. A line on which the size grew was torn by two writers
/// and tells nothing.
pub open spec fn sample(line: Seq<char>) -> Option<(nat, nat)> {
    let w = spec_words(line);
    if w.len() < 2 {
        None
    } else {
        match (spec_number(w[0], u64::MAX as nat), spec_number(w[1], u64::MAX as nat)) {
            (Some(b), Some(a)) => if a <= b {
                Some((b, a))
            } else {
                None
            },
            _ => None,
        }
    }
}

/// The samples and their sums over the lines.
pub open spec fn summed(all: Seq<Seq<char>>) -> (nat, nat, nat)
    decreases all.len(),
{
    if all.len() == 0 {
        (0, 0, 0)
    } else {
        let s = summed(all.drop_last());
        match sample(all.last()) {
            Some((b, a)) => (s.0 + 1, s.1 + b, s.2 + a),
            None => s,
        }
    }
}

proof fn sum_fits(n: int)
    requires
        0 <= n <= u64::MAX,
    ensures
        n * u64::MAX <= u64::MAX * u64::MAX,
        u64::MAX * u64::MAX + u64::MAX <= u128::MAX,
{
    assert(n * u64::MAX <= u64::MAX * u64::MAX) by (nonlinear_arith)
        requires
            0 <= n <= u64::MAX,
    ;
}

/// Sums up the compressor's log.
pub fn token_savings(log: &str) -> (r: Savings)
    ensures
        (r.samples as nat, r.before as nat, r.after as nat) == summed(spec_lines(log@)),
{
    let all = lines(log);
    let ghost seen = texts(all@);
    let mut samples: u128 = 0;
    let mut before: u128 = 0;
    let mut after: u128 = 0;
    let mut i: usize = 0;
    assert(seen.take(0) =~= Seq::empty());
    while i < all.len()
        invariant
            i <= all.len(),
            seen == texts(all@),
            (samples as nat, before as nat, after as nat) == summed(seen.take(i as int)),
            samples <= i,
            before <= i * u64::MAX,
            after <= i * u64::MAX,
        decreases all.len() - i,
    {
        proof {
            assert(seen.take(i + 1).drop_last() =~= seen.take(i as int));
            assert(seen[i as int] == all@[i as int]@);
            sum_fits(i as int);
            assert((i + 1) * u64::MAX == i * u64::MAX + u64::MAX) by (nonlinear_arith);
        }
        let w = words(all[i].as_str());
        if w.len() >= 2 {
            assert(texts(w@)[0] == w@[0]@);
            assert(texts(w@)[1] == w@[1]@);
            let b = parse_number(w[0].as_str(), u64::MAX);
            let a = parse_number(w[1].as_str(), u64::MAX);
            if let (Some(b), Some(a)) = (b, a) {
                if a <= b {
                    samples += 1;
                    before += b as u128;
                    after += a as u128;
                }
            }
        }
        i += 1;
    }
    assert(seen.take(seen.len() as int) =~= seen);
    Savings { samples, before, after }
}

/// What was saved is never negative: no sample grows.
pub proof fn nothing_grows(all: Seq<Seq<char>>)
    ensures
        summed(all).2 <= summed(all).1,
    decreases all.len(),
{
    if all.len() > 0 {
        nothing_grows(all.drop_last());
    }
}

/// A token for the name of a stored file: the instant and a running number, in hexadecimal.
pub fn mint_media_token(nanos: u128, seq_no: u64) -> (r: String)
    ensures
        r@ == spec_hexadecimal(nanos as nat) + spec_hexadecimal(seq_no as nat),
{
    let a = hexadecimal(nanos);
    let b = hexadecimal(seq_no as u128);
    join2(a.as_str(), b.as_str())
}

/// Two tokens of one instant differ.
pub proof fn media_tokens_of_an_instant_differ(nanos: nat, one: nat, other: nat)
    requires
        one != other,
    ensures
        spec_hexadecimal(nanos) + spec_hexadecimal(one) != spec_hexadecimal(nanos)
            + spec_hexadecimal(other),
{
    let n = spec_hexadecimal(nanos);
    let x = spec_hexadecimal(one);
    let y = spec_hexadecimal(other);
    if n + x == n + y {
        assert((n + x).skip(n.len() as int) =~= x);
        assert((n + y).skip(n.len() as int) =~= y);
        hexadecimal_tells_numbers_apart(one, other);
    }
}

/// The token of an `Authorization` header.
pub open spec fn spec_bearer(header: Option<&str>) -> Option<Seq<char>> {
    match header {
        Some(raw) => if spec_starts(raw@, "Bearer "@) {
            Some(spec_trim(raw@.skip("Bearer "@.len() as int)))
        } else {
            None
        },
        None => None,
    }
}

/// The token of an `Authorization` header.
pub fn bearer_token(header: Option<&str>) -> (r: Option<String>)
    ensures
        match r {
            Some(t) => spec_bearer(header) == Some(t@),
            None => spec_bearer(header) is None,
        },
{
    match header {
        Some(raw) => match strip_prefix(raw, "Bearer ") {
            Some(rest) => Some(trim(rest.as_str())),
            None => None,
        },
        None => None,
    }
}

/// Admits a token for a program and gives its label.
pub fn admit_token(accounts: bool, label: &str) -> (r: Result<String, Refusal>)
    ensures
        match r {
            Ok(l) => accounts && l@ == spec_trim(label@) && l@.len() > 0,
            Err(e) => if !accounts {
                e.v() == (501u16, "auth not configured"@, false)
            } else {
                spec_trim(label@).len() == 0 && e.v() == (400u16, "label is required"@, false)
            },
        },
{
    if !accounts {
        return Err(plain(501, "auth not configured"));
    }
    let l = trim(label);
    if l.as_str().is_empty() {
        return Err(plain(400, "label is required"));
    }
    Ok(l)
}

/// The reply to a request for a token: the secret, which is shown this once.
pub fn token_minted(secret: Option<String>) -> (r: Result<String, Refusal>)
    ensures
        match (secret, r) {
            (Some(s), Ok(t)) => t == s,
            (None, Err(e)) => e.v() == (409u16, "label already in use"@, false),
            _ => false,
        },
{
    match secret {
        Some(s) => Ok(s),
        None => Err(plain(409, "label already in use")),
    }
}

pub open spec fn for_people() -> spec_fn(String) -> Option<String> {
    |label: String|
        if spec_starts(label@, "internal:mcp:"@) {
            None
        } else {
            Some(label)
        }
}

/// Lists the labels of the tokens that people manage; those that the hub mints for its own
/// agents are plumbing.
#[verifier::loop_isolation(false)]
pub fn list_tokens(accounts: bool, user: &Option<AuthUser>, labels: &Vec<String>) -> (r: Result<
    Vec<String>,
    Refusal,
>)
    ensures
        match r {
            Ok(list) => if !accounts {
                list@.len() == 0
            } else {
                user is Some && user->0.role.spec_can_manage() && list@ == collect(
                    labels@,
                    for_people(),
                )
            },
            Err(e) => accounts && (user is None || !user->0.role.spec_can_manage()) && e.v() == (
                403u16,
                "admin role required"@,
                false,
            ),
        },
{
    let mut r: Vec<String> = Vec::new();
    if !accounts {
        return Ok(r);
    }
    let manages = match user {
        Some(u) => u.role.can_manage(),
        None => false,
    };
    if !manages {
        return Err(plain(403, "admin role required"));
    }
    let ghost f = for_people();
    let mut i: usize = 0;
    assert(labels@.take(0) =~= Seq::empty());
    while i < labels.len()
        invariant
            i <= labels.len(),
            r@ == collect(labels@.take(i as int), f),
        decreases labels.len() - i,
    {
        proof {
            collect_step(labels@, f, i as int);
        }
        if !starts_with(labels[i].as_str(), "internal:mcp:") {
            r.push(labels[i].clone());
        }
        i += 1;
    }
    assert(labels@.take(labels@.len() as int) =~= labels@);
    Ok(r)
}

/// What the labels of a person's own tokens begin with.
pub open spec fn own_prefix(username: Seq<char>) -> Seq<char> {
    "user:"@ + spec_ascii_lower(username) + ":"@
}

/// What the labels of a person's own tokens begin with.
pub fn personal_token_prefix(username: &str) -> (r: String)
    ensures
        r@ == own_prefix(username@),
{
    let low = ascii_lower(username);
    join3("user:", low.as_str(), ":")
}

pub open spec fn own_rule(username: Seq<char>) -> spec_fn(String) -> Option<String> {
    |label: String|
        if spec_starts(label@, own_prefix(username)) {
            Some(label)
        } else {
            None
        }
}

/// Lists the labels of a person's own tokens.
#[verifier::loop_isolation(false)]
pub fn my_tokens(accounts: bool, user: &Option<AuthUser>, labels: &Vec<String>) -> (r: Result<
    Vec<String>,
    Refusal,
>)
    ensures
        match r {
            Ok(list) => if !accounts {
                list@.len() == 0
            } else {
                user is Some && list@ == collect(labels@, own_rule(user->0.username@))
            },
            Err(e) => accounts && user is None && e.v() == (401u16, "sign in first"@, false),
        },
{
    let mut r: Vec<String> = Vec::new();
    if !accounts {
        return Ok(r);
    }
    let who = match user {
        None => {
            return Err(plain(401, "sign in first"));
        },
        Some(u) => u.username.as_str(),
    };
    let prefix = personal_token_prefix(who);
    let ghost f = own_rule(who@);
    let mut i: usize = 0;
    assert(labels@.take(0) =~= Seq::empty());
    while i < labels.len()
        invariant
            i <= labels.len(),
            r@ == collect(labels@.take(i as int), f),
        decreases labels.len() - i,
    {
        proof {
            collect_step(labels@, f, i as int);
        }
        if starts_with(labels[i].as_str(), prefix.as_str()) {
            r.push(labels[i].clone());
        }
        i += 1;
    }
    assert(labels@.take(labels@.len() as int) =~= labels@);
    Ok(r)
}

/// Whether a character may stand in the label of a token.
pub open spec fn label_char(c: char) -> bool {
    is_ascii_alnum(c) || c == '-' || c == '_' || c == '.'
}

/// The characters of a text that may stand in a label, `n` of them at the most.
pub open spec fn spec_short(s: Seq<char>, n: nat) -> Seq<char>
    decreases s.len(),
{
    if s.len() == 0 {
        Seq::empty()
    } else {
        let before = spec_short(s.drop_last(), n);
        if label_char(s.last()) && before.len() < n {
            before.push(s.last())
        } else {
            before
        }
    }
}

/// What is left of a label.
pub fn short_label(label: &str) -> (r: String)
    ensures
        r@ == spec_short(spec_trim(label@), 40),
{
    let t = trim(label);
    let v = chars_of(t.as_str());
    let mut r = String::new();
    let mut n: usize = 0;
    let mut i: usize = 0;
    assert(v@.take(0) =~= Seq::empty());
    assert(r@ =~= Seq::empty());
    while i < v.len()
        invariant
            i <= v.len(),
            n == r@.len(),
            n <= 40,
            r@ == spec_short(v@.take(i as int), 40),
        decreases v.len() - i,
    {
        assert(v@.take(i + 1).drop_last() =~= v@.take(i as int));
        let c = v[i];
        if (ascii_alnum(c) || c == '-' || c == '_' || c == '.') && n < 40 {
            r.push(c);
            n += 1;
        }
        i += 1;
    }
    assert(v@.take(v@.len() as int) =~= v@);
    r
}

/// A token that a person makes for themselves: its label, the role it has and the audit line.
#[derive(Clone, Debug)]
pub struct OwnToken {
    pub label: String,
    pub role: AuthRole,
    pub audit: String,
}

/// Why a person's own token is not made.
pub open spec fn own_token_refusal(accounts: bool, user: Option<AuthUser>, label: Seq<char>) -> Option<
    (u16, Seq<char>, bool),
> {
    if !accounts {
        Some((501, "auth not configured"@, false))
    } else if user is None {
        Some((401, "sign in first"@, false))
    } else if spec_short(spec_trim(label), 40).len() == 0 {
        Some((400, "label is required"@, false))
    } else {
        None
    }
}

/// Admits a token that a person makes for themselves. It has their role, never more.
pub fn admit_own_token(accounts: bool, user: &Option<AuthUser>, label: &str) -> (r: Result<
    OwnToken,
    Refusal,
>)
    ensures
        match r {
            Err(e) => own_token_refusal(accounts, *user, label@) == Some(e.v()),
            Ok(t) => {
                &&& own_token_refusal(accounts, *user, label@) is None
                &&& t.label@ == own_prefix(user->0.username@) + spec_short(spec_trim(label@), 40)
                &&& t.role == user->0.role
                &&& t.audit@ == "personal token minted: "@ + t.label@
            },
        },
{
    if !accounts {
        return Err(plain(501, "auth not configured"));
    }
    match user {
        None => Err(plain(401, "sign in first")),
        Some(u) => {
            let short = short_label(label);
            if short.as_str().unicode_len() == 0 {
                return Err(plain(400, "label is required"));
            }
            let prefix = personal_token_prefix(u.username.as_str());
            let full = join2(prefix.as_str(), short.as_str());
            let audit = join2("personal token minted: ", full.as_str());
            Ok(OwnToken { label: full, role: u.role, audit })
        },
    }
}

/// Why a person may not revoke a token.
pub open spec fn revocation_refusal(accounts: bool, user: Option<AuthUser>, label: Seq<char>) -> Option<
    (u16, Seq<char>, bool),
> {
    if !accounts {
        Some((501, "auth not configured"@, false))
    } else if user is None {
        Some((401, "sign in first"@, false))
    } else if !spec_starts(label, own_prefix(user->0.username@)) {
        Some((403, "not your token"@, false))
    } else {
        None
    }
}

/// Admits the revocation of one of a person's own tokens and gives the audit line.
pub fn admit_revocation(accounts: bool, user: &Option<AuthUser>, label: &str) -> (r: Result<
    String,
    Refusal,
>)
    ensures
        match r {
            Err(e) => revocation_refusal(accounts, *user, label@) == Some(e.v()),
            Ok(audit) => revocation_refusal(accounts, *user, label@) is None && audit@
                == "personal token revoked: "@ + label@,
        },
{
    if !accounts {
        return Err(plain(501, "auth not configured"));
    }
    match user {
        None => Err(plain(401, "sign in first")),
        Some(u) => {
            let prefix = personal_token_prefix(u.username.as_str());
            if !starts_with(label, prefix.as_str()) {
                return Err(plain(403, "not your token"));
            }
            Ok(join2("personal token revoked: ", label))
        },
    }
}

/// The reply to a revocation.
pub fn token_revoked(accounts: bool, done: bool) -> (r: Result<(), Refusal>)
    ensures
        match r {
            Ok(_) => accounts && done,
            Err(e) => if !accounts {
                e.v() == (501u16, "auth not configured"@, false)
            } else {
                !done && e.v() == (404u16, "no such token"@, false)
            },
        },
{
    if !accounts {
        return Err(plain(501, "auth not configured"));
    }
    if !done {
        return Err(plain(404, "no such token"));
    }
    Ok(())
}

/// A person can revoke the tokens that they made.
pub proof fn own_tokens_can_be_revoked(user: AuthUser, label: Seq<char>)
    requires
        own_token_refusal(true, Some(user), label) is None,
    ensures
        revocation_refusal(
            true,
            Some(user),
            own_prefix(user.username@) + spec_short(spec_trim(label), 40),
        ) is None,
{
    let p = own_prefix(user.username@);
    let full = p + spec_short(spec_trim(label), 40);
    assert(full.take(p.len() as int) =~= p);
}

/// Nobody can revoke the token that another person made: names that differ by more than the case
/// of their letters never share a prefix. (A name with a colon in it is none that this holds of.)
pub proof fn foreign_tokens_cannot_be_revoked(user: AuthUser, owner: AuthUser, short: Seq<char>)
    requires
        spec_ascii_lower(user.username@) != spec_ascii_lower(owner.username@),
        !spec_ascii_lower(user.username@).contains(':'),
        !spec_ascii_lower(owner.username@).contains(':'),
    ensures
        revocation_refusal(true, Some(user), own_prefix(owner.username@) + short) == Some(
            (403u16, "not your token"@, false),
        ),
{
    reveal_strlit("user:");
    reveal_strlit(":");
    let a = spec_ascii_lower(user.username@);
    let b = spec_ascii_lower(owner.username@);
    let p = own_prefix(user.username@);
    let label = own_prefix(owner.username@) + short;
    if spec_starts(label, p) {
        assert forall|i: int| 0 <= i < p.len() implies label[i] == p[i] by {
            assert(label.take(p.len() as int)[i] == p[i]);
        }
        if a.len() < b.len() {
            assert(p[5 + a.len() as int] == ':');
            assert(label[5 + a.len() as int] == b[a.len() as int]);
            assert(b.contains(':'));
        } else if b.len() < a.len() {
            assert(label[5 + b.len() as int] == ':');
            assert(p[5 + b.len() as int] == a[b.len() as int]);
            assert(a.contains(':'));
        } else {
            assert forall|i: int| 0 <= i < a.len() implies a[i] == b[i] by {
                assert(p[5 + i] == a[i]);
                assert(label[5 + i] == b[i]);
            }
            assert(a =~= b);
        }
    }
}

/// Each method of the protocol is told by its name, and what bears none of the names is unknown.
pub proof fn a_method_is_told_by_its_name(name: Seq<char>)
    ensures
        method_named(name) == McpMethod::Initialize <==> name == "initialize"@,
        method_named(name) == McpMethod::Notification <==> name == "notifications/initialized"@
            || name == "notifications/cancelled"@,
        method_named(name) == McpMethod::Ping <==> name == "ping"@,
        method_named(name) == McpMethod::ListTools <==> name == "tools/list"@,
        method_named(name) == McpMethod::CallTool <==> name == "tools/call"@,
{
    reveal_strlit("initialize");
    reveal_strlit("notifications/initialized");
    reveal_strlit("notifications/cancelled");
    reveal_strlit("ping");
    reveal_strlit("tools/list");
    reveal_strlit("tools/call");
    assert("initialize"@[0] == 'i' && "tools/list"@[0] == 't' && "tools/call"@[0] == 't');
    assert("tools/list"@[6] == 'l' && "tools/call"@[6] == 'c');
    assert("initialize"@.len() == 10 && "tools/list"@.len() == 10 && "ping"@.len() == 4
        && "notifications/initialized"@.len() == 25 && "notifications/cancelled"@.len() == 23);
}

/// A tool is called with the argument that is its own, trimmed; a blank or missing one stops the
/// call, and so does a tool that is not known.
pub proof fn a_tool_gets_its_own_argument(
    tool: Seq<char>,
    value: Option<JsonView>,
    r: Result<McpCall, String>,
)
    requires
        call_planned(tool, value, r),
    ensures
        ({
            let told = match value {
                Some(JsonView::Text(s)) => spec_trim(s).len() > 0,
                _ => false,
            };
            let text = match value {
                Some(JsonView::Text(s)) => spec_trim(s),
                _ => Seq::empty(),
            };
            &&& r is Ok <==> tool == "pr_queue"@ || told && (tool == "search_symbols"@ || tool
                == "symbol_refs"@ || tool == "get_ticket"@ || tool == "report_blocker"@)
            &&& tool == "pr_queue"@ ==> r->Ok_0 is PrQueue
            &&& r is Ok && tool == "search_symbols"@ ==> match r->Ok_0 {
                McpCall::SearchSymbols(q) => q@ == text,
                _ => false,
            }
            &&& r is Ok && tool == "symbol_refs"@ ==> match r->Ok_0 {
                McpCall::SymbolRefs(q) => q@ == text,
                _ => false,
            }
            &&& r is Ok && tool == "get_ticket"@ ==> match r->Ok_0 {
                McpCall::GetTicket(q) => q@ == text,
                _ => false,
            }
            &&& r is Ok && tool == "report_blocker"@ ==> match r->Ok_0 {
                McpCall::ReportBlocker(q) => q@ == text,
                _ => false,
            }
            &&& r is Err && tool == "search_symbols"@ ==> r->Err_0@ == "missing '"@ + "query"@
                + "'"@
            &&& r is Err && tool == "symbol_refs"@ ==> r->Err_0@ == "missing '"@ + "name"@ + "'"@
            &&& r is Err && tool == "get_ticket"@ ==> r->Err_0@ == "missing '"@ + "id"@ + "'"@
            &&& r is Err && tool == "report_blocker"@ ==> r->Err_0@ == "missing '"@ + "note"@
                + "'"@
        }),
{
    tool_names_differ();
}

/// The argument of a tool is read under its own key.
pub proof fn an_argument_is_read_under_its_key(args: Seq<char>)
    ensures
        argument_value("search_symbols"@, args) == json_member(args, "query"@),
        argument_value("symbol_refs"@, args) == json_member(args, "name"@),
        argument_value("get_ticket"@, args) == json_member(args, "id"@),
        argument_value("report_blocker"@, args) == json_member(args, "note"@),
        argument_value("pr_queue"@, args) is None,
{
    tool_names_differ();
}

proof fn tool_names_differ()
    ensures
        "search_symbols"@.len() == 14,
        "symbol_refs"@.len() == 11,
        "get_ticket"@.len() == 10,
        "report_blocker"@.len() == 14,
        "pr_queue"@.len() == 8,
        "search_symbols"@[0] != "report_blocker"@[0],
{
    reveal_strlit("search_symbols");
    reveal_strlit("symbol_refs");
    reveal_strlit("get_ticket");
    reveal_strlit("report_blocker");
    reveal_strlit("pr_queue");
}

/// Every line that names a provider and a model is listed, in its order, and no other line.
pub proof fn every_model_is_listed(all: Seq<Seq<char>>)
    ensures
        model_lines(all) == all.filter(
            |line: Seq<char>|
                spec_trim(line).contains('/') && !spec_contains(spec_trim(line), "No models"@)
                    && !spec_contains(spec_trim(line), "Error"@),
        ),
    decreases all.len(),
{
    reveal(Seq::filter);
    if all.len() > 0 {
        every_model_is_listed(all.drop_last());
        let t = spec_trim(all.last());
        a_text_is_cut_at_the_first_place(t, '/');
        if spec_split_once(t, '/') is Some {
            let (a, b) = spec_split_once(t, '/')->0;
            let whole = a + seq!['/'] + b;
            assert(whole[a.len() as int] == '/');
            assert(t.contains('/'));
        }
    }
}

/// A model is listed as its provider and its name, which make up the line.
pub proof fn a_model_is_its_provider_and_name(line: Seq<char>, m: EngineModel)
    requires
        model_line(line, m),
    ensures
        m.full@ == spec_trim(line),
        m.provider@ + seq!['/'] + m.model@ == spec_trim(line),
        !m.provider@.contains('/'),
{
    a_text_is_cut_at_the_first_place(spec_trim(line), '/');
}

/// A line of the log counts exactly where its first two words are sizes and the second is not the
/// larger.
pub proof fn a_sample_never_grows(line: Seq<char>)
    ensures
        match sample(line) {
            Some((b, a)) => {
                let w = spec_words(line);
                &&& w.len() >= 2
                &&& spec_number(w[0], u64::MAX as nat) == Some(b)
                &&& spec_number(w[1], u64::MAX as nat) == Some(a)
                &&& a <= b
            },
            None => {
                let w = spec_words(line);
                w.len() >= 2 ==> match (
                    spec_number(w[0], u64::MAX as nat),
                    spec_number(w[1], u64::MAX as nat),
                ) {
                    (Some(b), Some(a)) => a > b,
                    _ => true,
                }
            },
        },
{
}

/// What is summed up over two logs, one after the other, is the sum of both; a log of one line
/// counts that line's sizes.
pub proof fn savings_add_up(a: Seq<Seq<char>>, b: Seq<Seq<char>>, line: Seq<char>)
    ensures
        summed(a + b) == (
            summed(a).0 + summed(b).0,
            summed(a).1 + summed(b).1,
            summed(a).2 + summed(b).2,
        ),
        summed(seq![line]) == match sample(line) {
            Some((before, after)) => (1nat, before, after),
            None => (0nat, 0nat, 0nat),
        },
        summed(Seq::empty()) == (0nat, 0nat, 0nat),
    decreases b.len(),
{
    assert(seq![line].drop_last() =~= Seq::<Seq<char>>::empty());
    reveal_with_fuel(summed, 2);
    if b.len() == 0 {
        assert(a + b =~= a);
    } else {
        savings_add_up(a, b.drop_last(), line);
        assert((a + b).drop_last() =~= a + b.drop_last());
    }
}

/// A token is read from the header exactly where it is announced as one, without the white space
/// around it.
pub proof fn a_bearer_token_is_announced(raw: &str, rest: Seq<char>)
    ensures
        raw@ == "Bearer "@ + rest ==> spec_bearer(Some(raw)) == Some(spec_trim(rest)),
        !"Bearer "@.is_prefix_of(raw@) ==> spec_bearer(Some(raw)) is None,
        spec_bearer(None) is None,
{
    let p = "Bearer "@;
    if raw@ == p + rest {
        assert(raw@.take(p.len() as int) =~= p);
        assert(raw@.skip(p.len() as int) =~= rest);
    }
    if spec_starts(raw@, p) {
        assert(p =~= raw@.subrange(0, p.len() as int));
    }
}

/// People see the labels of all tokens but those that the hub minted for its own agents.
pub proof fn plumbing_is_not_listed(labels: Seq<String>)
    ensures
        collect(labels, for_people()) == labels.filter(
            |l: String| !"internal:mcp:"@.is_prefix_of(l@),
        ),
{
    let keep = |l: String| !"internal:mcp:"@.is_prefix_of(l@);
    assert forall|l: String|
        #[trigger] for_people()(l) == if keep(l) {
            Some(l)
        } else {
            None
        } by {
        prefix_of_start(l@, "internal:mcp:"@);
    }
    kept_is_filtered(labels, for_people(), keep);
}

proof fn prefix_of_start(s: Seq<char>, p: Seq<char>)
    ensures
        spec_starts(s, p) <==> p.is_prefix_of(s),
{
    if spec_starts(s, p) {
        assert(p =~= s.subrange(0, p.len() as int));
    }
    if p.is_prefix_of(s) {
        assert(s.take(p.len() as int) =~= p);
    }
}

/// A person sees the labels of their own tokens, all of them and no other.
pub proof fn people_see_their_own_tokens(labels: Seq<String>, username: Seq<char>)
    ensures
        collect(labels, own_rule(username)) == labels.filter(
            |l: String| ("user:"@ + spec_ascii_lower(username) + ":"@).is_prefix_of(l@),
        ),
{
    let p = "user:"@ + spec_ascii_lower(username) + ":"@;
    let keep = |l: String| ("user:"@ + spec_ascii_lower(username) + ":"@).is_prefix_of(l@);
    assert forall|l: String|
        #[trigger] own_rule(username)(l) == if keep(l) {
            Some(l)
        } else {
            None
        } by {
        prefix_of_start(l@, p);
    }
    kept_is_filtered(labels, own_rule(username), keep);
}

/// A label keeps its letters, digits, dashes, underscores and dots, in their order, as many as fit.
pub proof fn a_label_keeps_what_may_stand_in_it(s: Seq<char>, n: nat)
    ensures
        ({
            let kept = s.filter(
                |c: char|
                    'a' <= c <= 'z' || 'A' <= c <= 'Z' || '0' <= c <= '9' || c == '-' || c == '_'
                        || c == '.',
            );
            spec_short(s, n) == kept.take(
                if kept.len() < n {
                    kept.len() as int
                } else {
                    n as int
                },
            )
        }),
    decreases s.len(),
{
    reveal(Seq::filter);
    let keep = |c: char|
        'a' <= c <= 'z' || 'A' <= c <= 'Z' || '0' <= c <= '9' || c == '-' || c == '_' || c == '.';
    let kept = s.filter(keep);
    if s.len() == 0 {
        assert(kept.take(0) =~= spec_short(s, n));
    } else {
        a_label_keeps_what_may_stand_in_it(s.drop_last(), n);
        let before = s.drop_last().filter(keep);
        assert(label_char(s.last()) <==> keep(s.last()));
        let m = if before.len() < n {
            before.len() as int
        } else {
            n as int
        };
        if keep(s.last()) {
            assert(kept == before.push(s.last()));
            if before.len() < n {
                assert(kept.take(kept.len() as int) =~= before.take(m).push(s.last()));
            } else {
                assert(kept.take(n as int) =~= before.take(n as int));
            }
        }
    }
}

/// A person makes a token exactly where they are signed in and the label has something in it.
pub proof fn who_may_make_a_token(accounts: bool, user: Option<AuthUser>, label: Seq<char>)
    ensures
        own_token_refusal(accounts, user, label) is None <==> {
            &&& accounts
            &&& user is Some
            &&& exists|i: int| 0 <= i < spec_trim(label).len() && label_char(#[trigger] spec_trim(label)[i])
        },
{
    something_is_left(spec_trim(label), 40);
}

proof fn something_is_left(s: Seq<char>, n: nat)
    requires
        n > 0,
    ensures
        spec_short(s, n).len() > 0 <==> exists|i: int|
            0 <= i < s.len() && label_char(#[trigger] s[i]),
    decreases s.len(),
{
    if s.len() > 0 {
        let init = s.drop_last();
        something_is_left(init, n);
        if exists|i: int| 0 <= i < init.len() && label_char(#[trigger] init[i]) {
            let i = choose|i: int| 0 <= i < init.len() && label_char(#[trigger] init[i]);
            assert(label_char(s[i]));
        }
        if label_char(s.last()) {
            assert(label_char(s[s.len() - 1]));
        }
        if exists|i: int| 0 <= i < s.len() && label_char(#[trigger] s[i]) {
            let i = choose|i: int| 0 <= i < s.len() && label_char(#[trigger] s[i]);
            if i < init.len() {
                assert(label_char(init[i]));
            }
        }
    }
}

/// A token is revoked by the person whose name its label begins with, and by nobody else.
pub proof fn a_token_is_revoked_by_its_owner(accounts: bool, user: Option<AuthUser>, label: Seq<char>)
    ensures
        revocation_refusal(accounts, user, label) is None <==> accounts && user is Some && (
        "user:"@ + spec_ascii_lower(user->0.username@) + ":"@).is_prefix_of(label),
{
    if user is Some {
        prefix_of_start(label, "user:"@ + spec_ascii_lower(user->0.username@) + ":"@);
    }
}

} // verus!
