//! What the server decides for the hub as a whole: which loops run here, where it listens, what
//! its front page is made of.

use crate::fleet::{may_see, may_see_broken};
use crate::guards::{may_write, write_gate_ok, AuthRole, AuthUser, HubRole};
use crate::json::{json_member, read_member, value_view, Json, JsonView};
use crate::openapi::{security_for, spec_security, SecurityLevel};
use crate::reply::{json, plain, Refusal};
use crate::text::{
    copy_texts, decimal, is_blank, join2, join3, owned, replace, same, spec_decimal, spec_replace,
    spec_split, spec_starts, spec_trim, split, split_nonempty, split_of_joined, split_without,
    starts_with, strip_prefix, texts, trim,
};
use vstd::prelude::*;

verus! {

/// The channel that everyone sees.
pub const GENERAL_CHANNEL: &'static str = "general";

/// The most characters of a chat message.
pub const CHAT_MAX_CHARS: usize = 2000;

/// The most chat messages of one socket in ten seconds.
pub const CHAT_RATE_MAX: usize = 12;

/// The policy under which the front page runs.
pub const INDEX_CSP: &'static str =
    "default-src 'self'; script-src 'self' 'unsafe-inline'; style-src 'self' 'unsafe-inline' https://fonts.googleapis.com; font-src 'self' data: https://fonts.gstatic.com; img-src 'self' data:; connect-src 'self' ws: wss:; object-src 'none'; base-uri 'self'; frame-ancestors 'none'";

/// The project that a path of the API is about.
pub open spec fn pid_in(path: Seq<char>) -> Option<Seq<char>> {
    if spec_starts(path, "/api/projects/"@) {
        Some(spec_split(path.skip("/api/projects/"@.len() as int), '/')[0])
    } else {
        None
    }
}

/// The project that a path of the API is about.
pub fn extract_pid_from_path(path: &str) -> (r: Option<String>)
    ensures
        match r {
            Some(pid) => pid_in(path@) == Some(pid@),
            None => pid_in(path@) is None,
        },
{
    match strip_prefix(path, "/api/projects/") {
        None => None,
        Some(rest) => {
            let parts = split(rest.as_str(), '/');
            proof {
                split_nonempty(rest@, '/');
                assert(texts(parts@)[0] == parts@[0]@);
            }
            Some(parts[0].clone())
        },
    }
}

/// Whether a path is served to everyone: the front page and its assets, what needs no session,
/// and the pages that an invitation or a share link opens.
pub open spec fn is_open_path(path: Seq<char>) -> bool {
    spec_security(path) == SecurityLevel::Public || path == "/"@ || path == "/api/workspace/join"@
        || spec_starts(path, "/assets/"@) || spec_starts(path, "/join/"@)
}

fn open_path(path: &str) -> (b: bool)
    ensures
        b == is_open_path(path@),
{
    security_for(path) == SecurityLevel::Public || same(path, "/") || same(
        path,
        "/api/workspace/join",
    ) || starts_with(path, "/assets/") || starts_with(path, "/join/")
}

/// Whether a path of a project is for those who manage to write to: the project itself, its
/// members, and its sign-in at the code host.
pub open spec fn is_managed_path(path: Seq<char>) -> bool {
    spec_starts(path, "/api/projects/"@) && {
        let parts = spec_split(path.skip("/api/projects/"@.len() as int), '/');
        ||| parts.len() == 1
        ||| (2 <= parts.len() <= 3 && parts[1] == "members"@)
        ||| (parts.len() == 3 && parts[1] == "git"@ && parts[2] == "connect"@)
    }
}

fn managed_path(path: &str) -> (b: bool)
    ensures
        b == is_managed_path(path@),
{
    match strip_prefix(path, "/api/projects/") {
        None => false,
        Some(rest) => {
            let parts = split(rest.as_str(), '/');
            let ghost all = texts(parts@);
            let n: usize = parts.len();
            if n < 2 {
                assert(all.len() == n);
                proof {
                    split_nonempty(rest@, '/');
                }
                return true;
            }
            assert(all[1] == parts@[1]@);
            if n > 3 {
                return false;
            }
            if same(parts[1].as_str(), "members") {
                return true;
            }
            if n == 3 {
                assert(all[2] == parts@[2]@);
                return same(parts[1].as_str(), "git") && same(parts[2].as_str(), "connect");
            }
            false
        },
    }
}

/// Whether a request takes a role that manages: for the accounts, the tokens and the share links
/// always, for the workspace and what a project's managers write when it writes.
pub open spec fn needs_manager(path: Seq<char>, reads: bool) -> bool {
    spec_security(path) == SecurityLevel::Admin || (!reads && (path == "/api/workspace"@
        || is_managed_path(path)))
}

/// Why a request is turned away before it reaches its handler: it takes a session, membership of
/// the project in its path, a role that manages where only those may go, and for a write a role
/// that may write there.
pub open spec fn request_refusal(
    accounts: bool,
    path: Seq<char>,
    reads: bool,
    user: Option<AuthUser>,
) -> Option<(u16, Seq<char>, bool)> {
    if !accounts || is_open_path(path) {
        None
    } else {
        match user {
            None => Some((401, "unauthenticated"@, true)),
            Some(u) => if pid_in(path) is Some && !may_see(Some(&u), pid_in(path)->0) {
                Some((403, "not a member of this project"@, true))
            } else if needs_manager(path, reads) && !u.role.spec_can_manage() {
                Some((403, "admin role required"@, false))
            } else if !reads && !may_write(u.role, path) {
                Some((403, "your role may not take this decision"@, false))
            } else {
                None
            },
        }
    }
}

/// Admits a request to its handler. Without accounts every request is the operator's.
pub fn admit_request(accounts: bool, path: &str, reads: bool, user: &Option<AuthUser>) -> (r: Result<
    (),
    Refusal,
>)
    ensures
        match r {
            Ok(_) => request_refusal(accounts, path@, reads, *user) is None,
            Err(e) => request_refusal(accounts, path@, reads, *user) == Some(e.v()),
        },
{
    if !accounts || open_path(path) {
        return Ok(());
    }
    let u = match user {
        None => {
            return Err(json(401, "unauthenticated"));
        },
        Some(u) => u,
    };
    if let Some(pid) = extract_pid_from_path(path) {
        if !may_see_broken(Some(u), pid.as_str()) {
            return Err(json(403, "not a member of this project"));
        }
    }
    let managers = security_for(path) == SecurityLevel::Admin || (!reads && (same(
        path,
        "/api/workspace",
    ) || managed_path(path)));
    if managers && !u.role.can_manage() {
        return Err(plain(403, "admin role required"));
    }
    if !reads && !write_gate_ok(u.role, path) {
        return Err(plain(403, "your role may not take this decision"));
    }
    Ok(())
}

/// A project is closed to strangers: where there are accounts, what reaches a handler of a
/// project comes from someone who may see it, what is for those who manage from one of them, and
/// a write never from a viewer.
pub proof fn a_project_is_closed_to_strangers(
    path: Seq<char>,
    reads: bool,
    user: Option<AuthUser>,
)
    requires
        request_refusal(true, path, reads, user) is None,
        !is_open_path(path),
    ensures
        user is Some,
        pid_in(path) is Some ==> may_see(Some(&user->0), pid_in(path)->0),
        needs_manager(path, reads) ==> user->0.role.spec_can_manage(),
        !reads ==> user->0.role != AuthRole::Viewer,
{
}

/// Whether a process runs the batch loops and watchdogs.
pub fn runs_loops(role: HubRole) -> (b: bool)
    ensures
        b == (role == HubRole::All || role == HubRole::Knowledge),
{
    role == HubRole::All || role == HubRole::Knowledge
}

/// Whether a process hands out metrics.
pub fn serves_metrics(role: HubRole) -> (b: bool)
    ensures
        b == (role != HubRole::Knowledge),
{
    role != HubRole::Knowledge
}

/// Whether a process bridges its chat to the others, over the bus at the address set.
pub fn bridges_bus(role: HubRole, url: Option<&str>) -> (b: bool)
    ensures
        b == (role != HubRole::Knowledge && url is Some && spec_trim(url->0@).len() > 0),
{
    match url {
        Some(u) => role != HubRole::Knowledge && !is_blank(u),
        None => false,
    }
}

/// Where the server listens: on this machine alone, unless a host is set.
pub fn bind_address(host: Option<&str>, port: u16) -> (r: String)
    ensures
        r@ == (match host {
            Some(h) => h@,
            None => "127.0.0.1"@,
        }) + ":"@ + spec_decimal(port as nat),
{
    let p = decimal(port as u64);
    match host {
        Some(h) => join3(h, ":", p.as_str()),
        None => join3("127.0.0.1", ":", p.as_str()),
    }
}

/// Whether the client's address is taken from the proxy.
pub fn trusts_proxy(setting: Option<&str>) -> (b: bool)
    ensures
        b == (setting is Some && setting->0@ == "1"@),
{
    match setting {
        Some(s) => same(s, "1"),
        None => false,
    }
}

/// The front page with the version in the address of each of its assets.
pub open spec fn spec_versioned(html: Seq<char>, v: Seq<char>) -> Seq<char> {
    let a = spec_replace(html, "/assets/app.css"@, "/assets/app.css?v="@ + v);
    let b = spec_replace(
        a,
        "/assets/tabler-icons.min.css"@,
        "/assets/tabler-icons.min.css?v="@ + v,
    );
    spec_replace(b, ".js\"></script>"@, ".js?v="@ + v + "\"></script>"@)
}

/// Puts the version into the address of each asset of the front page, so that a rebuilt page
/// never runs against an older asset that someone cached.
pub fn versioned(html: &str, v: &str) -> (r: String)
    ensures
        r@ == spec_versioned(html@, v@),
{
    proof {
        reveal_strlit("/assets/app.css");
        reveal_strlit("/assets/tabler-icons.min.css");
        reveal_strlit(".js\"></script>");
    }
    let app = join2("/assets/app.css?v=", v);
    let a = replace(html, "/assets/app.css", app.as_str());
    let icons = join2("/assets/tabler-icons.min.css?v=", v);
    let b = replace(a.as_str(), "/assets/tabler-icons.min.css", icons.as_str());
    let js = join3(".js?v=", v, "\"></script>");
    replace(b.as_str(), ".js\"></script>", js.as_str())
}

/// The position of the first asset of that name, from `i` on.
pub open spec fn asset_at(names: Seq<String>, name: Seq<char>, i: int) -> Option<int>
    decreases names.len() - i,
{
    if i < 0 || i >= names.len() {
        None
    } else if names[i]@ == name {
        Some(i)
    } else {
        asset_at(names, name, i + 1)
    }
}

/// Finds a script of the front page by its name.
pub fn find_asset(names: &Vec<String>, name: &str) -> (r: Option<usize>)
    ensures
        match r {
            Some(i) => asset_at(names@, name@, 0) == Some(i as int) && i < names.len(),
            None => asset_at(names@, name@, 0) is None,
        },
{
    let mut i: usize = 0;
    while i < names.len()
        invariant
            i <= names.len(),
            asset_at(names@, name@, 0) == asset_at(names@, name@, i as int),
        decreases names.len() - i,
    {
        if same(names[i].as_str(), name) {
            return Some(i);
        }
        i += 1;
    }
    None
}

/// What a command line tool came to: whether it succeeded, and what it printed.
#[derive(Clone, Debug)]
pub struct CliOutput {
    pub success: bool,
    pub stdout: String,
    pub stderr: String,
}

/// What is reported of a tool's run: both of its outputs, or that it is not there.
pub fn cli_report(bin: &str, out: &Option<CliOutput>) -> (r: (bool, String))
    ensures
        match out {
            Some(o) => r.0 == o.success && r.1@ == o.stdout@ + o.stderr@,
            None => !r.0 && r.1@ == bin@ + " not found"@,
        },
{
    match out {
        Some(o) => (o.success, join2(o.stdout.as_str(), o.stderr.as_str())),
        None => (false, join2(bin, " not found")),
    }
}

/// The name of this machine, from what the system printed for it.
pub fn machine_host(printed: Option<&str>) -> (r: String)
    ensures
        r@ == match printed {
            Some(s) => if spec_trim(s@).len() > 0 {
                spec_trim(s@)
            } else {
                "local"@
            },
            None => "local"@,
        },
{
    match printed {
        None => owned("local"),
        Some(s) => {
            let t = trim(s);
            if t.as_str().is_empty() {
                owned("local")
            } else {
                t
            }
        },
    }
}

/// The channel that a message is for, given its tag.
pub open spec fn tagged_channel(tag: Option<JsonView>) -> Seq<char> {
    match tag {
        Some(JsonView::Text(s)) => s,
        _ => GENERAL_CHANNEL@,
    }
}

/// The channel that a message is for, given its tag.
pub fn channel_of_tag(tag: &Option<Json>) -> (r: String)
    ensures
        r@ == tagged_channel(value_view(*tag)),
{
    match tag {
        Some(Json::Text(s)) => s.clone(),
        _ => owned(GENERAL_CHANNEL),
    }
}

/// The channel that a message (a JSON text) is for.
pub fn broadcast_channel(message: &str) -> (r: String)
    ensures
        r@ == tagged_channel(json_member(message@, "channel"@)),
{
    let tag = read_member(message, "channel");
    channel_of_tag(&tag)
}

/// Whether a person receives a message: everyone what is for everyone, and of a private channel
/// its members. `member` is unknown where there is no such channel, or it could not be read.
pub fn user_may_see_broadcast(channel: &str, member: Option<bool>) -> (b: bool)
    ensures
        b == (channel@ == GENERAL_CHANNEL@ || member == Some(true)),
{
    if same(channel, GENERAL_CHANNEL) {
        return true;
    }
    match member {
        Some(b) => b,
        None => false,
    }
}

/// A project as the chat knows it.
#[derive(Clone, Debug)]
pub struct ProjectRef {
    pub id: String,
    pub alias: String,
    pub name: String,
}

/// A person as the chat knows them.
#[derive(Clone, Debug)]
pub struct UserRef {
    pub username: String,
    pub admin: bool,
    pub projects: Vec<String>,
}

pub open spec fn ref_of(refs: Seq<ProjectRef>, id: Seq<char>) -> Option<ProjectRef>
    decreases refs.len(),
{
    if refs.len() == 0 {
        None
    } else if refs[0].id@ == id {
        Some(refs[0])
    } else {
        ref_of(refs.skip(1), id)
    }
}

/// The projects in the order of their registration; one that is not loaded is left out.
pub open spec fn in_registration_order(order: Seq<String>, refs: Seq<ProjectRef>) -> Seq<ProjectRef>
    decreases order.len(),
{
    if order.len() == 0 {
        Seq::empty()
    } else {
        let before = in_registration_order(order.drop_last(), refs);
        match ref_of(refs, order.last()@) {
            Some(p) => before.push(p),
            None => before,
        }
    }
}

fn find_ref(refs: &Vec<ProjectRef>, id: &str) -> (r: Option<ProjectRef>)
    ensures
        r == ref_of(refs@, id@),
{
    let mut i: usize = 0;
    assert(refs@.skip(0) =~= refs@);
    while i < refs.len()
        invariant
            i <= refs.len(),
            ref_of(refs@, id@) == ref_of(refs@.skip(i as int), id@),
        decreases refs.len() - i,
    {
        let p = &refs[i];
        if same(p.id.as_str(), id) {
            return Some(
                ProjectRef { id: p.id.clone(), alias: p.alias.clone(), name: p.name.clone() },
            );
        }
        assert(refs@.skip(i as int).skip(1) =~= refs@.skip(i + 1));
        i += 1;
    }
    None
}

/// The projects that the chat makes channels for.
pub fn chat_projects(order: &Vec<String>, refs: &Vec<ProjectRef>) -> (r: Vec<ProjectRef>)
    ensures
        r@ == in_registration_order(order@, refs@),
{
    let mut r: Vec<ProjectRef> = Vec::new();
    let mut i: usize = 0;
    assert(order@.take(0) =~= Seq::empty());
    while i < order.len()
        invariant
            i <= order.len(),
            r@ == in_registration_order(order@.take(i as int), refs@),
        decreases order.len() - i,
    {
        assert(order@.take(i + 1).drop_last() =~= order@.take(i as int));
        if let Some(p) = find_ref(refs, order[i].as_str()) {
            r.push(p);
        }
        i += 1;
    }
    assert(order@.take(order@.len() as int) =~= order@);
    r
}

/// A person for the chat. Whoever manages counts as an admin there, the owner of the hub first.
pub fn chat_user(username: &String, role: AuthRole, projects: &Vec<String>) -> (r: UserRef)
    ensures
        r.username == *username,
        r.admin == role.spec_can_manage(),
        r.projects@ == projects@,
{
    UserRef {
        username: username.clone(),
        admin: role.can_manage(),
        projects: copy_texts(projects),
    }
}

/// An expected conflict: the client can react to it.
pub fn conflict_error(text: &str) -> (r: Refusal)
    ensures
        r.v() == (409u16, text@, true),
{
    json(409, text)
}

/// A request that can never succeed as it stands.
pub fn bad_request_error(text: &str) -> (r: Refusal)
    ensures
        r.v() == (400u16, text@, true),
{
    json(400, text)
}

/// A path names its project: what stands after the common beginning, up to the next slash.
pub proof fn a_path_names_its_project(pid: Seq<char>, rest: Seq<char>)
    requires
        !pid.contains('/'),
    ensures
        pid_in("/api/projects/"@ + pid) == Some(pid),
        pid_in("/api/projects/"@ + pid + seq!['/'] + rest) == Some(pid),
{
    let head = "/api/projects/"@;
    let n = head.len() as int;
    let a = head + pid;
    let b = head + pid + seq!['/'] + rest;
    assert(a.take(n) =~= head && b.take(n) =~= head);
    assert(a.skip(n) =~= pid);
    assert(b.skip(n) =~= pid + seq!['/'] + rest);
    one_piece(pid);
    split_of_joined(pid, rest, '/');
}

proof fn one_piece(s: Seq<char>)
    requires
        !s.contains('/'),
    ensures
        spec_split(s, '/') == seq![s],
{
    assert forall|i: int| 0 <= i < s.len() implies (#[trigger] s[i]) != '/' by {
        assert(s.contains(s[i]));
    }
    split_without(s, '/');
}

/// What is a manager's to write: the project itself, its members and its sign-in at the code host,
/// whatever the project; the rest of a project is not.
pub proof fn what_a_manager_alone_writes(pid: Seq<char>, area: Seq<char>, rest: Seq<char>)
    requires
        !pid.contains('/'),
        !area.contains('/'),
        !rest.contains('/'),
    ensures
        is_managed_path("/api/projects/"@ + pid),
        is_managed_path("/api/projects/"@ + pid + seq!['/'] + area) <==> area == "members"@,
        is_managed_path("/api/projects/"@ + pid + seq!['/'] + area + seq!['/'] + rest) <==> area
            == "members"@ || (area == "git"@ && rest == "connect"@),
{
    let head = "/api/projects/"@;
    let n = head.len() as int;
    let a = head + pid;
    let b = a + seq!['/'] + area;
    let c = b + seq!['/'] + rest;
    assert(a.take(n) =~= head && b.take(n) =~= head && c.take(n) =~= head);
    assert(a.skip(n) =~= pid);
    assert(b.skip(n) =~= pid + seq!['/'] + area);
    assert(c.skip(n) =~= (pid + seq!['/'] + area) + seq!['/'] + rest);
    one_piece(pid);
    one_piece(area);
    one_piece(rest);
    split_of_joined(pid, area, '/');
    split_of_joined(pid + seq!['/'] + area, rest, '/');
    assert(spec_split(b.skip(n), '/') =~= seq![pid, area]);
    assert(spec_split(c.skip(n), '/') =~= seq![pid, area, rest]);
}

/// Without a session only what is served to everyone is reached: the front page and its assets,
/// the health, the description and the sign-in, the pages that an invitation or a share link
/// opens. Where there are no accounts everything is.
pub proof fn a_stranger_reaches_public_pages_alone(path: Seq<char>, reads: bool)
    ensures
        request_refusal(true, path, reads, None) is None <==> path == "/"@ || path
            == "/api/health"@ || path == "/api/openapi.json"@ || path == "/api/auth/login"@ || path
            == "/api/workspace/join"@ || "/s/"@.is_prefix_of(path) || "/assets/"@.is_prefix_of(path)
            || "/join/"@.is_prefix_of(path),
        request_refusal(true, path, reads, None) is Some ==> request_refusal(
            true,
            path,
            reads,
            None,
        ) == Some((401u16, "unauthenticated"@, true)),
        forall|user: Option<AuthUser>|
            #[trigger] request_refusal(false, path, reads, user) is None,
{
    prefix_is_start(path, "/s/"@);
    prefix_is_start(path, "/assets/"@);
    prefix_is_start(path, "/join/"@);
    not_public(path);
}

proof fn not_public(path: Seq<char>)
    ensures
        spec_security(path) == SecurityLevel::Public <==> path == "/api/health"@ || path
            == "/api/openapi.json"@ || path == "/api/auth/login"@ || spec_starts(path, "/s/"@),
{
}

proof fn prefix_is_start(s: Seq<char>, p: Seq<char>)
    ensures
        spec_starts(s, p) == p.is_prefix_of(s),
{
    if p.len() <= s.len() {
        assert(s.take(p.len() as int) =~= s.subrange(0, p.len() as int));
    }
}

/// A signed-in account reaches the surfaces of its own projects and no others: a stranger to the
/// project is refused whatever they ask for, a member reads all but what is for managers, and one
/// who manages also writes.
pub proof fn a_member_reaches_their_projects(
    pid: Seq<char>,
    rest: Seq<char>,
    reads: bool,
    u: AuthUser,
)
    requires
        !pid.contains('/'),
    ensures
        ({
            let path = "/api/projects/"@ + pid + seq!['/'] + rest;
            let member = u.role == AuthRole::Super || u.role == AuthRole::Admin || texts(
                u.projects@,
            ).contains(pid);
            let r = request_refusal(true, path, reads, Some(u));
            &&& !member ==> r == Some(
                (403u16, "not a member of this project"@, true),
            )
            &&& member && u.role.spec_can_manage() ==> r is None
            &&& member && reads && spec_security(path) != SecurityLevel::Admin ==> r is None
            &&& u.role == AuthRole::Viewer && !reads ==> r is Some
            &&& !u.role.spec_can_manage() && spec_security(path) == SecurityLevel::Admin ==> r is Some
        }),
{
    a_path_names_its_project(pid, rest);
    a_project_is_not_open("/api/projects/"@ + pid + seq!['/'] + rest);
}

proof fn a_project_is_not_open(path: Seq<char>)
    requires
        spec_starts(path, "/api/projects/"@),
    ensures
        !is_open_path(path),
{
    reveal_strlit("/api/projects/");
    reveal_strlit("/api/health");
    reveal_strlit("/api/openapi.json");
    reveal_strlit("/api/auth/login");
    reveal_strlit("/api/workspace/join");
    reveal_strlit("/");
    reveal_strlit("/s/");
    reveal_strlit("/assets/");
    reveal_strlit("/join/");
    let head = path.take(14);
    assert(head[1] == path[1] && head[2] == path[2] && head[5] == path[5]);
    assert(path[1] == 'a' && path[2] == 'p' && path[5] == 'p');
    if spec_starts(path, "/s/"@) {
        assert(path.take(3)[1] == path[1]);
    }
    if spec_starts(path, "/assets/"@) {
        assert(path.take(8)[2] == path[2]);
    }
    if spec_starts(path, "/join/"@) {
        assert(path.take(6)[1] == path[1]);
    }
}

/// An asset is found by its name: the first that has it, and none only where none has.
pub proof fn an_asset_is_found_by_its_name(names: Seq<String>, name: Seq<char>, i: int)
    requires
        0 <= i,
    ensures
        match asset_at(names, name, i) {
            Some(v) => i <= v < names.len() && names[v]@ == name && (forall|j: int|
                i <= j < v ==> !((#[trigger] names[j])@ == name)),
            None => forall|j: int| i <= j < names.len() ==> !((#[trigger] names[j])@ == name),
        },
    decreases names.len() - i,
{
    if i < names.len() && !(names[i]@ == name) {
        an_asset_is_found_by_its_name(names, name, i + 1);
    }
}

/// A project of the chat is found by its identifier: the first that has it.
pub proof fn a_project_is_found_by_its_id(refs: Seq<ProjectRef>, id: Seq<char>)
    ensures
        match ref_of(refs, id) {
            Some(v) => exists|i: int|
                0 <= i < refs.len() && (#[trigger] refs[i]).id@ == id && refs[i] == v && (forall|j: int|
                    0 <= j < i ==> !((#[trigger] refs[j]).id@ == id)),
            None => forall|j: int| 0 <= j < refs.len() ==> !((#[trigger] refs[j]).id@ == id),
        },
    decreases refs.len(),
{
    if refs.len() > 0 {
        let rest = refs.skip(1);
        a_project_is_found_by_its_id(rest, id);
        assert(forall|j: int| 0 <= j < rest.len() ==> #[trigger] rest[j] == refs[j + 1]);
        assert(forall|j: int| 1 <= j < refs.len() ==> #[trigger] refs[j] == rest[j - 1]);
        if !(refs[0].id@ == id) && ref_of(rest, id) is Some {
            let v = ref_of(rest, id)->0;
            let i = choose|i: int|
                0 <= i < rest.len() && (#[trigger] rest[i]).id@ == id && rest[i] == v && (forall|j: int|
                    0 <= j < i ==> !((#[trigger] rest[j]).id@ == id));
            assert(refs[i + 1].id@ == id);
        }
    }
}

/// Every registered project that is loaded has its channel, in the order of registration, and no
/// other project has one.
pub proof fn every_loaded_project_has_its_channel(order: Seq<String>, refs: Seq<ProjectRef>)
    ensures
        in_registration_order(order, refs).map_values(|p: ProjectRef| p.id@) == order.filter(
            |id: String| exists|j: int| 0 <= j < refs.len() && (#[trigger] refs[j]).id@ == id@,
        ).map_values(|id: String| id@),
    decreases order.len(),
{
    reveal(Seq::filter);
    let keep = |id: String| exists|j: int| 0 <= j < refs.len() && (#[trigger] refs[j]).id@ == id@;
    let name = |p: ProjectRef| p.id@;
    let text = |id: String| id@;
    let all = in_registration_order(order, refs);
    if order.len() == 0 {
        assert(all.map_values(name) =~= order.filter(keep).map_values(text));
    } else {
        let init = order.drop_last();
        every_loaded_project_has_its_channel(init, refs);
        a_project_is_found_by_its_id(refs, order.last()@);
        let before = in_registration_order(init, refs);
        let kept = init.filter(keep);
        if let Some(p) = ref_of(refs, order.last()@) {
            assert(keep(order.last()));
            assert(before.push(p).map_values(name) =~= before.map_values(name).push(p.id@));
            assert(kept.push(order.last()).map_values(text) =~= kept.map_values(text).push(
                order.last()@,
            ));
        }
    }
}

/// A message is for the channel that its tag names, and for everyone where it names none.
pub proof fn an_untagged_message_is_for_everyone(tag: Option<JsonView>, s: Seq<char>)
    ensures
        tagged_channel(Some(JsonView::Text(s))) == s,
        tag is None || !(tag->0 is Text) ==> tagged_channel(tag) == "general"@,
{
}

/// A role that manages is needed to read and write the accounts, the tokens and the share links,
/// and to write the workspace and what a project's managers write; for nothing else.
pub proof fn what_takes_a_role_that_manages(path: Seq<char>, reads: bool)
    ensures
        spec_security(path) == SecurityLevel::Admin ==> needs_manager(path, reads),
        spec_security(path) != SecurityLevel::Admin ==> !needs_manager(path, true),
        needs_manager("/api/workspace"@, false),
        is_managed_path(path) ==> needs_manager(path, false),
        spec_security(path) != SecurityLevel::Admin && path != "/api/workspace"@
            && !is_managed_path(path) ==> !needs_manager(path, reads),
{
}

} // verus!
