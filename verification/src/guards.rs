//! Who is calling, and what they may reach.

use crate::reply::{plain, Refusal};
use crate::text::{
    find_value, first_index, first_value, is_white, opt_text, owned, same, spec_split, split,
    split_of_joined, split_without, texts, trim_without_white,
};
use vstd::prelude::*;

verus! {

/// The name of the session cookie.
pub const SESSION_COOKIE: &'static str = "cox_session";

/// What an account may do.
#[derive(Clone, Copy, Debug, PartialEq, Eq, Structural)]
pub enum AuthRole {
    Super,
    Admin,
    Director,
    Manager,
    TechLead,
    DsLead,
    DaLead,
    Reviewer,
    Ba,
    Fe,
    Be,
    Aie,
    Ds,
    Da,
    De,
    Viewer,
}

impl AuthRole {
    /// Whether the role owns the whole hub.
    pub open spec fn spec_is_super(self) -> bool {
        self == AuthRole::Super
    }

    /// Whether the role manages: the hub's owner, admins and the lead tier.
    pub open spec fn spec_can_manage(self) -> bool {
        self == AuthRole::Super || self == AuthRole::Admin || self == AuthRole::Director || self
            == AuthRole::Manager || self == AuthRole::TechLead || self == AuthRole::DsLead || self
            == AuthRole::DaLead
    }

    /// Whether the role takes review decisions.
    pub open spec fn spec_can_review(self) -> bool {
        self.spec_can_manage() || self == AuthRole::Reviewer
    }

    /// Whether the role sees every project: its own membership does not matter.
    pub open spec fn spec_sees_all(self) -> bool {
        self == AuthRole::Super || self == AuthRole::Admin
    }

    pub fn is_super(self) -> (b: bool)
        ensures
            b == self.spec_is_super(),
    {
        self == AuthRole::Super
    }

    pub fn can_manage(self) -> (b: bool)
        ensures
            b == self.spec_can_manage(),
    {
        self == AuthRole::Super || self == AuthRole::Admin || self == AuthRole::Director || self
            == AuthRole::Manager || self == AuthRole::TechLead || self == AuthRole::DsLead || self
            == AuthRole::DaLead
    }

    pub fn can_review(self) -> (b: bool)
        ensures
            b == self.spec_can_review(),
    {
        self.can_manage() || self == AuthRole::Reviewer
    }

    pub fn sees_all(self) -> (b: bool)
        ensures
            b == self.spec_sees_all(),
    {
        self == AuthRole::Super || self == AuthRole::Admin
    }

    /// Every role, from the hub's owner to the one that only looks.
    pub open spec fn spec_all() -> Seq<AuthRole> {
        seq![
            AuthRole::Super,
            AuthRole::Admin,
            AuthRole::Director,
            AuthRole::Manager,
            AuthRole::TechLead,
            AuthRole::DsLead,
            AuthRole::DaLead,
            AuthRole::Reviewer,
            AuthRole::Ba,
            AuthRole::Fe,
            AuthRole::Be,
            AuthRole::Aie,
            AuthRole::Ds,
            AuthRole::Da,
            AuthRole::De,
            AuthRole::Viewer,
        ]
    }

    pub fn all() -> (r: Vec<AuthRole>)
        ensures
            r@ == AuthRole::spec_all(),
    {
        let r = vec![
            AuthRole::Super,
            AuthRole::Admin,
            AuthRole::Director,
            AuthRole::Manager,
            AuthRole::TechLead,
            AuthRole::DsLead,
            AuthRole::DaLead,
            AuthRole::Reviewer,
            AuthRole::Ba,
            AuthRole::Fe,
            AuthRole::Be,
            AuthRole::Aie,
            AuthRole::Ds,
            AuthRole::Da,
            AuthRole::De,
            AuthRole::Viewer,
        ];
        assert(r@ =~= AuthRole::spec_all());
        r
    }
}

/// The list of roles holds every role, each once.
pub proof fn every_role_is_listed_once(role: AuthRole)
    ensures
        AuthRole::spec_all().contains(role),
        AuthRole::spec_all().no_duplicates(),
{
    let all = AuthRole::spec_all();
    let i: int = match role {
        AuthRole::Super => 0,
        AuthRole::Admin => 1,
        AuthRole::Director => 2,
        AuthRole::Manager => 3,
        AuthRole::TechLead => 4,
        AuthRole::DsLead => 5,
        AuthRole::DaLead => 6,
        AuthRole::Reviewer => 7,
        AuthRole::Ba => 8,
        AuthRole::Fe => 9,
        AuthRole::Be => 10,
        AuthRole::Aie => 11,
        AuthRole::Ds => 12,
        AuthRole::Da => 13,
        AuthRole::De => 14,
        AuthRole::Viewer => 15,
    };
    assert(all[i] == role);
}

/// A signed-in account.
#[derive(Clone, Debug)]
pub struct AuthUser {
    pub username: String,
    pub name: String,
    pub email: String,
    pub role: AuthRole,
    pub projects: Vec<String>,
}

/// Whether the path is that of an action on one pull request of a project:
/// `/api/projects/<project>/prs/<something>`.
pub open spec fn pr_review_path(path: Seq<char>) -> bool {
    let p = spec_split(path, '/');
    &&& p.len() >= 6
    &&& p[0].len() == 0
    &&& p[1] == "api"@
    &&& p[2] == "projects"@
    &&& p[4] == "prs"@
    &&& !(p.len() == 6 && p[5].len() == 0)
}

/// Whether a request is a pull request's review action.
pub fn is_pr_review_path(path: &str) -> (b: bool)
    ensures
        b == pr_review_path(path@),
{
    let p = split(path, '/');
    let ghost t = texts(p@);
    assert(t.len() == p@.len());
    if p.len() < 6 {
        return false;
    }
    assert(t[0] == p@[0]@ && t[1] == p@[1]@ && t[2] == p@[2]@ && t[4] == p@[4]@ && t[5]
        == p@[5]@);
    p[0].as_str().is_empty() && same(p[1].as_str(), "api") && same(p[2].as_str(), "projects")
        && same(p[4].as_str(), "prs") && !(p.len() == 6 && p[5].as_str().is_empty())
}

/// Whether a role may send a write to a path: review actions take a role that reviews, everything
/// else anyone but a viewer.
pub open spec fn may_write(role: AuthRole, path: Seq<char>) -> bool {
    if pr_review_path(path) {
        role.spec_can_review()
    } else {
        role != AuthRole::Viewer
    }
}

/// Whether a role may send a write to a path.
pub fn write_gate_ok(role: AuthRole, path: &str) -> (b: bool)
    ensures
        b == may_write(role, path@),
{
    if is_pr_review_path(path) {
        role.can_review()
    } else {
        role != AuthRole::Viewer
    }
}

/// A viewer writes nothing, whatever the path; who may review may write everywhere.
pub proof fn review_is_the_stronger_gate(role: AuthRole)
    ensures
        role.spec_can_review() ==> role != AuthRole::Viewer,
        role.spec_can_manage() ==> role.spec_can_review(),
        role.spec_sees_all() ==> role.spec_can_manage(),
        role.spec_is_super() ==> role.spec_sees_all(),
{
}

/// Which surface a process serves.
#[derive(Clone, Copy, PartialEq, Eq, Debug, Structural)]
pub enum HubRole {
    All,
    Gateway,
    Realtime,
    Knowledge,
}

pub open spec fn spec_hub_role(name: Seq<char>) -> HubRole {
    if name == "gateway"@ {
        HubRole::Gateway
    } else if name == "realtime"@ {
        HubRole::Realtime
    } else if name == "knowledge"@ {
        HubRole::Knowledge
    } else {
        HubRole::All
    }
}

/// The surface that a setting names; anything else is everything.
pub fn hub_role_of(name: &str) -> (r: HubRole)
    ensures
        r == spec_hub_role(name@),
{
    if same(name, "gateway") {
        HubRole::Gateway
    } else if same(name, "realtime") {
        HubRole::Realtime
    } else if same(name, "knowledge") {
        HubRole::Knowledge
    } else {
        HubRole::All
    }
}

/// Whether a process serves sockets (`need_realtime`) or plain requests.
pub open spec fn serves(role: HubRole, need_realtime: bool) -> bool {
    match role {
        HubRole::All => true,
        HubRole::Gateway => !need_realtime,
        HubRole::Realtime => need_realtime,
        HubRole::Knowledge => false,
    }
}

/// Refuses what this process does not serve.
pub fn role_guard(role: HubRole, need_realtime: bool) -> (r: Option<Refusal>)
    ensures
        match r {
            None => serves(role, need_realtime),
            Some(e) => !serves(role, need_realtime) && e.v() == (
                503u16,
                "wrong service role for this endpoint — check the load balancer routing"@,
                false,
            ),
        },
{
    let ok = match role {
        HubRole::All => true,
        HubRole::Gateway => !need_realtime,
        HubRole::Realtime => need_realtime,
        HubRole::Knowledge => false,
    };
    if ok {
        None
    } else {
        Some(
            plain(503, "wrong service role for this endpoint — check the load balancer routing"),
        )
    }
}

/// The value of a cookie in a `Cookie` header.
pub open spec fn cookie_in(header: Option<&str>, name: Seq<char>) -> Option<Seq<char>> {
    match header {
        None => None,
        Some(raw) => first_value(spec_split(raw@, ';'), name),
    }
}

/// Extracts a cookie from a `Cookie` header.
pub fn cookie_value(header: Option<&str>, name: &str) -> (r: Option<String>)
    ensures
        opt_text(r) == cookie_in(header, name@),
{
    match header {
        None => None,
        Some(raw) => find_value(raw, ';', name),
    }
}

/// A cookie reads back as it was set: a browser that got `name=value` sends it, and the value is
/// found, where neither part holds white space or a separator.
pub proof fn a_cookie_is_read_back(header: &str, name: Seq<char>, value: Seq<char>)
    requires
        header@ == name + seq!['='] + value,
        forall|i: int|
            0 <= i < name.len() ==> (#[trigger] name[i]) != '=' && name[i] != ';' && !is_white(
                name[i],
            ),
        forall|i: int|
            0 <= i < value.len() ==> (#[trigger] value[i]) != ';' && !is_white(value[i]),
    ensures
        cookie_in(Some(header), name) == Some(value),
{
    let all = header@;
    let n = name.len() as int;
    assert forall|i: int| 0 <= i < all.len() implies (#[trigger] all[i]) != ';' by {
        if i < n {
            assert(all[i] == name[i]);
        } else if i > n {
            assert(all[i] == value[i - n - 1]);
        }
    }
    split_without(all, ';');
    assert forall|i: int| 0 <= i < n implies (#[trigger] all[i]) != '=' by {
        assert(all[i] == name[i]);
    }
    first_index(all, '=', 0, n);
    assert(all.take(n) =~= name);
    assert(all.skip(n + 1) =~= value);
    trim_without_white(name);
    trim_without_white(value);
    assert(spec_split(all, ';')[0] == all);
}

/// Which account a request speaks for: a bearer token that is known wins, else the session.
pub fn pick_principal<T>(by_bearer: Option<T>, by_session: Option<T>) -> (r: Option<T>)
    ensures
        r == if by_bearer is Some {
            by_bearer
        } else {
            by_session
        },
{
    match by_bearer {
        Some(u) => Some(u),
        None => by_session,
    }
}

/// The caller's name. Without accounts every request is the operator.
pub fn principal_name(accounts: bool, user: &Option<AuthUser>) -> (r: Option<String>)
    ensures
        match r {
            Some(n) => if accounts {
                user is Some && n == user->0.username
            } else {
                n@ == "operator"@
            },
            None => accounts && user is None,
        },
{
    if !accounts {
        return Some(owned("operator"));
    }
    match user {
        Some(u) => Some(u.username.clone()),
        None => None,
    }
}

/// The signed-in name, `user` where there is none.
pub fn resolve_username(accounts: bool, user: &Option<AuthUser>) -> (r: String)
    ensures
        r@ == if accounts && user is Some {
            user->0.username@
        } else {
            "user"@
        },
{
    if accounts {
        if let Some(u) = user {
            return u.username.clone();
        }
    }
    owned("user")
}

/// Whether the caller manages. Without accounts everyone does.
pub fn user_can_manage(accounts: bool, user: &Option<AuthUser>) -> (b: bool)
    ensures
        b == (!accounts || (user is Some && user->0.role.spec_can_manage())),
{
    if !accounts {
        return true;
    }
    match user {
        Some(u) => u.role.can_manage(),
        None => false,
    }
}

/// The caller's name and whether they may create channels; `granted` is what their role grants.
pub fn resolve_user_caps(accounts: bool, user: &Option<AuthUser>, granted: bool) -> (r: (
    String,
    bool,
))
    ensures
        r.0@ == if accounts && user is Some {
            user->0.username@
        } else {
            "user"@
        },
        r.1 == if accounts {
            user is Some && granted
        } else {
            true
        },
{
    let name = resolve_username(accounts, user);
    if accounts {
        (name, user.is_some() && granted)
    } else {
        (name, true)
    }
}

/// Whether the caller owns the hub. Without accounts everyone does.
pub fn is_super(accounts: bool, user: &Option<AuthUser>) -> (b: bool)
    ensures
        b == (!accounts || (user is Some && user->0.role.spec_is_super())),
{
    if !accounts {
        return true;
    }
    match user {
        Some(u) => u.role.is_super(),
        None => false,
    }
}

/// Who manages are the hub's owner, its admins and the lead tier; who reviews are those and the
/// review tier; who sees every project are the owner and the admins.
pub proof fn each_role_has_its_powers(role: AuthRole)
    ensures
        role.spec_can_manage() <==> !(role == AuthRole::Reviewer || role == AuthRole::Ba || role
            == AuthRole::Fe || role == AuthRole::Be || role == AuthRole::Aie || role == AuthRole::Ds
            || role == AuthRole::Da || role == AuthRole::De || role == AuthRole::Viewer),
        role.spec_can_review() && !role.spec_can_manage() <==> role == AuthRole::Reviewer,
        role.spec_sees_all() && !role.spec_is_super() <==> role == AuthRole::Admin,
        role.spec_is_super() <==> role == AuthRole::Super,
{
}

/// A write is open to everyone but a viewer, and an action on a pull request to those who review.
pub proof fn a_viewer_writes_nothing(role: AuthRole, path: Seq<char>)
    ensures
        !may_write(AuthRole::Viewer, path),
        role.spec_can_manage() || role == AuthRole::Reviewer ==> may_write(role, path),
        role == AuthRole::Ba || role == AuthRole::Fe || role == AuthRole::Be || role
            == AuthRole::Aie || role == AuthRole::Ds || role == AuthRole::Da || role == AuthRole::De
            ==> may_write(role, path) == !pr_review_path(path),
{
}

/// The path of an action on a pull request is told by its segments: whatever the project and
/// whatever the action, and no other surface of a project is one.
pub proof fn a_review_path_is_told_by_its_segments(
    pid: Seq<char>,
    area: Seq<char>,
    rest: Seq<char>,
)
    requires
        !pid.contains('/'),
        !area.contains('/'),
        !rest.contains('/'),
    ensures
        ({
            let path = seq!['/'] + "api"@ + seq!['/'] + "projects"@ + seq!['/'] + pid + seq!['/']
                + area + seq!['/'] + rest;
            pr_review_path(path) <==> area == "prs"@ && rest.len() > 0
        }),
{
    reveal_strlit("api");
    reveal_strlit("projects");
    let none = Seq::<char>::empty();
    let p1 = none + seq!['/'] + "api"@;
    let p2 = p1 + seq!['/'] + "projects"@;
    let p3 = p2 + seq!['/'] + pid;
    let p4 = p3 + seq!['/'] + area;
    let p5 = p4 + seq!['/'] + rest;
    let path = seq!['/'] + "api"@ + seq!['/'] + "projects"@ + seq!['/'] + pid + seq!['/'] + area
        + seq!['/'] + rest;
    assert(p5 =~= path);
    split_of_joined(none, "api"@, '/');
    split_of_joined(p1, "projects"@, '/');
    split_of_joined(p2, pid, '/');
    split_of_joined(p3, area, '/');
    split_of_joined(p4, rest, '/');
    whole_piece(none);
    whole_piece("api"@);
    whole_piece("projects"@);
    whole_piece(pid);
    whole_piece(area);
    whole_piece(rest);
    let parts = spec_split(path, '/');
    assert(parts =~= seq![none, "api"@, "projects"@, pid, area, rest]);
}

proof fn whole_piece(s: Seq<char>)
    requires
        !s.contains('/'),
    ensures
        spec_split(s, '/') == seq![s],
{
    assert forall|i: int| 0 <= i < s.len() implies (#[trigger] s[i]) != '/' by {
        assert(s.contains(s[i]));
    }
    split_without(s, '/');
}

/// A process that serves everything serves both sockets and requests; one that was set apart
/// serves one of them; the one that runs the batches serves neither.
pub proof fn each_process_serves_its_share(role: HubRole, need_realtime: bool)
    ensures
        role == HubRole::All ==> serves(role, need_realtime),
        role == HubRole::Knowledge ==> !serves(role, need_realtime),
        role == HubRole::Gateway ==> serves(role, need_realtime) == !need_realtime,
        role == HubRole::Realtime ==> serves(role, need_realtime) == need_realtime,
{
}

/// The settings name the surfaces; a setting that names none of them serves everything.
pub proof fn a_setting_names_its_surface(name: Seq<char>)
    ensures
        spec_hub_role(name) == HubRole::Gateway <==> name == "gateway"@,
        spec_hub_role(name) == HubRole::Realtime <==> name == "realtime"@,
        spec_hub_role(name) == HubRole::Knowledge <==> name == "knowledge"@,
{
    reveal_strlit("gateway");
    reveal_strlit("realtime");
    reveal_strlit("knowledge");
    assert("gateway"@.len() == 7 && "realtime"@.len() == 8 && "knowledge"@.len() == 9);
}

} // verus!
