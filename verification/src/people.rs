//! People: accounts, members, sessions and what they did.

use crate::guards::{AuthRole, AuthUser, SESSION_COOKIE};
use crate::lists::{collect, collect_step, collected_is_filtered};
use crate::order::{
    sort, sorted, sorting_adds_nothing, sorting_keeps_distinct, sorting_orders_and_keeps, text_le,
    text_le_is_an_order, text_leq, Ordered,
};
use crate::reply::{internal_error, plain, Refusal};
use crate::text::{
    contains, distinct, distinct_keeps_each_once, has_text, is_blank, join2, join3, join_with,
    names_match, owned, same, same_name, spec_ascii_lower, spec_contains, spec_distinct, spec_join, spec_split,
    spec_trim, split, split_nonempty, texts, trim,
};
use vstd::prelude::*;

verus! {

/// Whether the bytes begin with those.
pub open spec fn begins(data: Seq<u8>, mark: Seq<u8>) -> bool {
    data.len() >= mark.len() && data.take(mark.len() as int) == mark
}

/// The picture formats that an avatar may have.
#[derive(Clone, Copy, Debug, PartialEq, Eq, Structural)]
pub enum AvatarFormat {
    Png,
    Jpeg,
    Gif,
    Webp,
}

/// The format that the first bytes of a file betray.
pub open spec fn sniffed(data: Seq<u8>) -> Option<AvatarFormat> {
    if begins(data, seq![0x89u8, 0x50, 0x4E, 0x47, 0x0D, 0x0A, 0x1A, 0x0A]) {
        Some(AvatarFormat::Png)
    } else if begins(data, seq![0xFFu8, 0xD8, 0xFF]) {
        Some(AvatarFormat::Jpeg)
    } else if begins(data, seq![0x47u8, 0x49, 0x46, 0x38, 0x37, 0x61]) || begins(
        data,
        seq![0x47u8, 0x49, 0x46, 0x38, 0x39, 0x61],
    ) {
        Some(AvatarFormat::Gif)
    } else if data.len() >= 12 && begins(data, seq![0x52u8, 0x49, 0x46, 0x46]) && begins(
        data.skip(8),
        seq![0x57u8, 0x45, 0x42, 0x50],
    ) {
        Some(AvatarFormat::Webp)
    } else {
        None
    }
}

fn marked_at(data: &[u8], from: usize, mark: &Vec<u8>) -> (b: bool)
    requires
        from <= data@.len(),
    ensures
        b == begins(data@.skip(from as int), mark@),
{
    let n: usize = data.len();
    if n - from < mark.len() {
        return false;
    }
    let ghost rest = data@.skip(from as int);
    let mut i: usize = 0;
    while i < mark.len()
        invariant
            n == data@.len(),
            from <= n,
            i <= mark.len(),
            mark@.len() <= n - from,
            rest == data@.skip(from as int),
            forall|j: int| 0 <= j < i ==> rest[j] == #[trigger] mark@[j],
        decreases mark.len() - i,
    {
        if data[from + i] != mark[i] {
            assert(rest.take(mark@.len() as int)[i as int] != mark@[i as int]);
            return false;
        }
        i += 1;
    }
    assert(rest.take(mark@.len() as int) =~= mark@);
    true
}

/// Tells the format of a picture from its first bytes alone: what the client says of it is not
/// believed. A document, which could carry a script, is none.
pub fn sniff_avatar_image(data: &[u8]) -> (r: Option<AvatarFormat>)
    ensures
        r == sniffed(data@),
{
    let png: Vec<u8> = vec![0x89, 0x50, 0x4E, 0x47, 0x0D, 0x0A, 0x1A, 0x0A];
    let jpeg: Vec<u8> = vec![0xFF, 0xD8, 0xFF];
    let gif_old: Vec<u8> = vec![0x47, 0x49, 0x46, 0x38, 0x37, 0x61];
    let gif_new: Vec<u8> = vec![0x47, 0x49, 0x46, 0x38, 0x39, 0x61];
    let riff: Vec<u8> = vec![0x52, 0x49, 0x46, 0x46];
    let webp: Vec<u8> = vec![0x57, 0x45, 0x42, 0x50];
    assert(data@.skip(0) =~= data@);
    assert(png@ =~= seq![0x89u8, 0x50, 0x4E, 0x47, 0x0D, 0x0A, 0x1A, 0x0A]);
    assert(jpeg@ =~= seq![0xFFu8, 0xD8, 0xFF]);
    assert(gif_old@ =~= seq![0x47u8, 0x49, 0x46, 0x38, 0x37, 0x61]);
    assert(gif_new@ =~= seq![0x47u8, 0x49, 0x46, 0x38, 0x39, 0x61]);
    assert(riff@ =~= seq![0x52u8, 0x49, 0x46, 0x46]);
    assert(webp@ =~= seq![0x57u8, 0x45, 0x42, 0x50]);
    if marked_at(data, 0, &png) {
        Some(AvatarFormat::Png)
    } else if marked_at(data, 0, &jpeg) {
        Some(AvatarFormat::Jpeg)
    } else if marked_at(data, 0, &gif_old) || marked_at(data, 0, &gif_new) {
        Some(AvatarFormat::Gif)
    } else if data.len() >= 12 && marked_at(data, 0, &riff) && marked_at(data, 8, &webp) {
        Some(AvatarFormat::Webp)
    } else {
        None
    }
}

impl AvatarFormat {
    pub open spec fn spec_extension(self) -> Seq<char> {
        match self {
            AvatarFormat::Png => "png"@,
            AvatarFormat::Jpeg => "jpg"@,
            AvatarFormat::Gif => "gif"@,
            AvatarFormat::Webp => "webp"@,
        }
    }

    /// The extension of a file in that format.
    pub fn extension(self) -> (r: &'static str)
        ensures
            r@ == self.spec_extension(),
    {
        match self {
            AvatarFormat::Png => "png",
            AvatarFormat::Jpeg => "jpg",
            AvatarFormat::Gif => "gif",
            AvatarFormat::Webp => "webp",
        }
    }

    pub open spec fn spec_mime(self) -> Seq<char> {
        match self {
            AvatarFormat::Png => "image/png"@,
            AvatarFormat::Jpeg => "image/jpeg"@,
            AvatarFormat::Gif => "image/gif"@,
            AvatarFormat::Webp => "image/webp"@,
        }
    }

    /// The type of a file in that format.
    pub fn mime(self) -> (r: &'static str)
        ensures
            r@ == self.spec_mime(),
    {
        match self {
            AvatarFormat::Png => "image/png",
            AvatarFormat::Jpeg => "image/jpeg",
            AvatarFormat::Gif => "image/gif",
            AvatarFormat::Webp => "image/webp",
        }
    }
}

/// No markup document is taken for a picture, whatever stands in it.
pub proof fn a_document_is_no_avatar(data: Seq<u8>)
    requires
        data.len() > 0,
        data[0] == 0x3C || data[0] == 0x20 || data[0] == 0x0A || data[0] == 0xEF,
    ensures
        sniffed(data) is None,
{
    let png = seq![0x89u8, 0x50, 0x4E, 0x47, 0x0D, 0x0A, 0x1A, 0x0A];
    let jpeg = seq![0xFFu8, 0xD8, 0xFF];
    let gif_old = seq![0x47u8, 0x49, 0x46, 0x38, 0x37, 0x61];
    let gif_new = seq![0x47u8, 0x49, 0x46, 0x38, 0x39, 0x61];
    let riff = seq![0x52u8, 0x49, 0x46, 0x46];
    if begins(data, png) {
        assert(data.take(8)[0] == png[0]);
    }
    if begins(data, jpeg) {
        assert(data.take(3)[0] == jpeg[0]);
    }
    if begins(data, gif_old) {
        assert(data.take(6)[0] == gif_old[0]);
    }
    if begins(data, gif_new) {
        assert(data.take(6)[0] == gif_new[0]);
    }
    if begins(data, riff) {
        assert(data.take(4)[0] == riff[0]);
    }
}

/// The role that a request names, given how it reads at its most lenient (an unknown name reads
/// as a viewer) and the names that there are. A name that is none is refused: it must not demote
/// anyone in silence.
pub fn role_from_strict(raw: Option<&str>, lenient: AuthRole, names: &Vec<String>) -> (r: Result<
    AuthRole,
    Refusal,
>)
    ensures
        ({
            let name = match raw {
                Some(s) => spec_trim(s@),
                None => Seq::empty(),
            };
            let unknown = lenient == AuthRole::Viewer && name.len() > 0 && !same_name(
                name,
                "viewer"@,
            );
            match r {
                Ok(role) => !unknown && role == lenient,
                Err(e) => unknown && e.v() == (
                    400u16,
                    "unknown role '"@ + name + "' — valid: "@ + spec_join(names@, ", "@),
                    false,
                ),
            }
        }),
{
    let name = match raw {
        Some(s) => trim(s),
        None => String::new(),
    };
    if lenient == AuthRole::Viewer && !name.as_str().is_empty() && !names_match(
        name.as_str(),
        "viewer",
    ) {
        let list = join_with(names, ", ");
        let head = join3("unknown role '", name.as_str(), "' — valid: ");
        let text = join2(head.as_str(), list.as_str());
        return Err(plain(400, text.as_str()));
    }
    Ok(lenient)
}

/// Why an account is not created.
pub open spec fn account_refusal(
    accounts: bool,
    user: Option<AuthUser>,
    username: Seq<char>,
    password: Seq<char>,
) -> Option<(u16, Seq<char>, bool)> {
    if !accounts {
        Some((501, "auth not configured"@, false))
    } else if user is None || !user->0.role.spec_can_manage() {
        Some((403, "admin role required"@, false))
    } else if spec_trim(username).len() == 0 || password.len() == 0 {
        Some((400, "username and password required"@, false))
    } else {
        None
    }
}

/// What an account is created with: its name, and a profile where there is one.
#[derive(Clone, Debug)]
pub struct NewAccount {
    pub username: String,
    pub profile: Option<(String, String)>,
}

/// Admits a new account.
pub fn admit_account(
    accounts: bool,
    user: &Option<AuthUser>,
    username: &str,
    password: &str,
    name: &str,
    email: &str,
) -> (r: Result<NewAccount, Refusal>)
    ensures
        match r {
            Err(e) => account_refusal(accounts, *user, username@, password@) == Some(e.v()),
            Ok(a) => {
                &&& account_refusal(accounts, *user, username@, password@) is None
                &&& a.username@ == spec_trim(username@)
                &&& match a.profile {
                    Some((n, m)) => n@ == spec_trim(name@) && m@ == spec_trim(email@) && (n@.len()
                        > 0 || m@.len() > 0),
                    None => spec_trim(name@).len() == 0 && spec_trim(email@).len() == 0,
                }
            },
        },
{
    if !accounts {
        return Err(plain(501, "auth not configured"));
    }
    let manages = match user {
        Some(u) => u.role.can_manage(),
        None => false,
    };
    if !manages {
        return Err(plain(403, "admin role required"));
    }
    let who = trim(username);
    if who.as_str().is_empty() || password.is_empty() {
        return Err(plain(400, "username and password required"));
    }
    let n = trim(name);
    let m = trim(email);
    let profile = if n.as_str().is_empty() && m.as_str().is_empty() {
        None
    } else {
        Some((n, m))
    };
    Ok(NewAccount { username: who, profile })
}

/// The reply where an account was not stored.
pub fn account_not_created() -> (r: Refusal)
    ensures
        r.v() == (500u16, "could not create user"@, true),
{
    internal_error("could not create user")
}

/// The reply to a change of the accounts that the account store made or refused.
pub fn account_changed(accounts: bool, done: bool, refused: &str) -> (r: Result<(), Refusal>)
    ensures
        match r {
            Ok(_) => accounts && done,
            Err(e) => if !accounts {
                e.v() == (501u16, "auth not configured"@, false)
            } else {
                !done && e.v() == (409u16, refused@, false)
            },
        },
{
    if !accounts {
        return Err(plain(501, "auth not configured"));
    }
    if !done {
        return Err(plain(409, refused));
    }
    Ok(())
}

/// The reply to the deletion of an account, which fails on the last admin.
pub fn user_deleted(accounts: bool, done: bool) -> (r: Result<(), Refusal>)
    ensures
        match r {
            Ok(_) => accounts && done,
            Err(e) => if !accounts {
                e.v() == (501u16, "auth not configured"@, false)
            } else {
                !done && e.v() == (409u16, "cannot delete (unknown user or last admin)"@, false)
            },
        },
{
    account_changed(accounts, done, "cannot delete (unknown user or last admin)")
}

/// The reply to the assignment of a person to a project.
pub fn member_added(accounts: bool, done: bool) -> (r: Result<(), Refusal>)
    ensures
        match r {
            Ok(_) => accounts && done,
            Err(e) => if !accounts {
                e.v() == (501u16, "auth not configured"@, false)
            } else {
                !done && e.v() == (409u16, "unknown user"@, false)
            },
        },
{
    account_changed(accounts, done, "unknown user")
}

/// The reply to the removal of a person from a project.
pub fn member_removed(accounts: bool, done: bool) -> (r: Result<(), Refusal>)
    ensures
        match r {
            Ok(_) => accounts && done,
            Err(e) => if !accounts {
                e.v() == (501u16, "auth not configured"@, false)
            } else {
                !done && e.v() == (409u16, "not a member"@, false)
            },
        },
{
    account_changed(accounts, done, "not a member")
}

/// A person in the list of a project.
#[derive(Clone, Debug)]
pub struct Member {
    pub username: String,
    pub role: AuthRole,
    pub assigned: bool,
}

/// Who is listed: everyone to a manager, and to the others the people of the project.
pub open spec fn member_rule(privileged: bool, pid: Seq<char>) -> spec_fn(AuthUser) -> Option<
    Member,
> {
    |u: AuthUser|
        if privileged || texts(u.projects@).contains(pid) {
            Some(
                Member {
                    username: u.username,
                    role: u.role,
                    assigned: texts(u.projects@).contains(pid),
                },
            )
        } else {
            None
        }
}

/// Lists the people of a project. Without accounts there are none.
pub fn list_members(
    accounts: bool,
    user: &Option<AuthUser>,
    all: &Vec<AuthUser>,
    pid: &str,
) -> (r: Result<Vec<Member>, Refusal>)
    ensures
        match r {
            Ok(list) => if !accounts {
                list@.len() == 0
            } else {
                user is Some && list@ == collect(
                    all@,
                    member_rule(user->0.role.spec_can_manage(), pid@),
                )
            },
            Err(e) => accounts && user is None && e.v() == (403u16, "sign-in required"@, false),
        },
{
    let mut r: Vec<Member> = Vec::new();
    if !accounts {
        return Ok(r);
    }
    let privileged = match user {
        None => {
            return Err(plain(403, "sign-in required"));
        },
        Some(u) => u.role.can_manage(),
    };
    let ghost f = member_rule(privileged, pid@);
    let mut i: usize = 0;
    assert(all@.take(0) =~= Seq::empty());
    while i < all.len()
        invariant
            i <= all.len(),
            f == member_rule(privileged, pid@),
            r@ == collect(all@.take(i as int), f),
        decreases all.len() - i,
    {
        proof {
            collect_step(all@, f, i as int);
        }
        let u = &all[i];
        let assigned = has_text(&u.projects, pid);
        if privileged || assigned {
            r.push(Member { username: u.username.clone(), role: u.role, assigned });
        }
        i += 1;
    }
    assert(all@.take(all@.len() as int) =~= all@);
    Ok(r)
}

/// A line of the audit.
#[derive(Clone, Debug)]
pub struct AuditRow {
    pub user: String,
    pub action: String,
    pub status: u16,
    pub at: String,
}

/// How many lines are picked.
pub open spec fn tally(rows: Seq<AuditRow>, pick: spec_fn(AuditRow) -> bool) -> nat
    decreases rows.len(),
{
    if rows.len() == 0 {
        0
    } else {
        tally(rows.drop_last(), pick) + if pick(rows.last()) {
            1nat
        } else {
            0nat
        }
    }
}

/// Whether an action only lets a person in or out.
pub open spec fn is_sign_in(action: Seq<char>) -> bool {
    action == "login"@ || action == "logout"@ || action == "2fa-verify"@
}

pub open spec fn of_user(user: Seq<char>) -> spec_fn(AuditRow) -> bool {
    |r: AuditRow| r.user@ == user
}

pub open spec fn work_by(user: Seq<char>) -> spec_fn(AuditRow) -> bool {
    |r: AuditRow| r.user@ == user && !is_sign_in(r.action@)
}

pub open spec fn failed_by(user: Seq<char>) -> spec_fn(AuditRow) -> bool {
    |r: AuditRow| r.user@ == user && r.status >= 400
}

pub open spec fn did(user: Seq<char>, action: Seq<char>) -> spec_fn(AuditRow) -> bool {
    |r: AuditRow| r.user@ == user && r.action@ == action
}

/// The latest instant of a person's lines.
pub open spec fn latest(rows: Seq<AuditRow>, user: Seq<char>) -> Seq<char>
    decreases rows.len(),
{
    if rows.len() == 0 {
        Seq::empty()
    } else {
        let before = latest(rows.drop_last(), user);
        if rows.last().user@ == user && !text_le(rows.last().at@, before) {
            rows.last().at@
        } else {
            before
        }
    }
}

/// The day of an instant.
pub open spec fn day_of(at: Seq<char>) -> Seq<char> {
    spec_split(at, 'T')[0]
}

pub open spec fn users_of(rows: Seq<AuditRow>) -> Seq<Seq<char>>
    decreases rows.len(),
{
    if rows.len() == 0 {
        Seq::empty()
    } else {
        users_of(rows.drop_last()).push(rows.last().user@)
    }
}

/// The days of a person's lines, as often as there are lines.
pub open spec fn days_of(rows: Seq<AuditRow>, user: Seq<char>) -> Seq<Seq<char>>
    decreases rows.len(),
{
    if rows.len() == 0 {
        Seq::empty()
    } else if rows.last().user@ == user {
        days_of(rows.drop_last(), user).push(day_of(rows.last().at@))
    } else {
        days_of(rows.drop_last(), user)
    }
}

/// The actions of a person's lines, as often as there are lines.
pub open spec fn actions_of(rows: Seq<AuditRow>, user: Seq<char>) -> Seq<Seq<char>>
    decreases rows.len(),
{
    if rows.len() == 0 {
        Seq::empty()
    } else if rows.last().user@ == user {
        actions_of(rows.drop_last(), user).push(rows.last().action@)
    } else {
        actions_of(rows.drop_last(), user)
    }
}

/// How often a person did something.
#[derive(Clone, Debug)]
pub struct ActionCount {
    pub action: String,
    pub count: usize,
}

/// What is done more often comes first; what is done as often, by its name.
pub open spec fn ahead(count: nat, action: Seq<char>, count2: nat, action2: Seq<char>) -> bool {
    count > count2 || (count == count2 && text_le(action, action2))
}

impl Ordered for ActionCount {
    open spec fn le(self, other: Self) -> bool {
        ahead(self.count as nat, self.action@, other.count as nat, other.action@)
    }

    fn leq(&self, other: &Self) -> (r: bool) {
        self.count > other.count || (self.count == other.count && text_leq(
            self.action.as_str(),
            other.action.as_str(),
        ))
    }

    proof fn total(a: Self, b: Self) {
        text_le_is_an_order(a.action@, b.action@, b.action@);
    }

    proof fn transitive(a: Self, b: Self, c: Self) {
        text_le_is_an_order(a.action@, b.action@, c.action@);
    }
}

/// What a person did.
#[derive(Clone, Debug)]
pub struct PersonStats {
    pub user: String,
    pub actions: usize,
    pub work: usize,
    pub failures: usize,
    pub last_active: String,
    pub active_days: usize,
    pub top_actions: Vec<ActionCount>,
}

impl Ordered for PersonStats {
    open spec fn le(self, other: Self) -> bool {
        self.work >= other.work
    }

    fn leq(&self, other: &Self) -> (r: bool) {
        self.work >= other.work
    }

    proof fn total(a: Self, b: Self) {
    }

    proof fn transitive(a: Self, b: Self, c: Self) {
    }
}

/// Whether those are a person's four most frequent actions, or all where there are fewer.
pub open spec fn top_holds(top: Seq<ActionCount>, rows: Seq<AuditRow>, user: Seq<char>) -> bool {
    let all = spec_distinct(actions_of(rows, user));
    &&& top.len() == if all.len() < 4 {
        all.len()
    } else {
        4
    }
    &&& forall|i: int|
        0 <= i < top.len() ==> {
            &&& (#[trigger] top[i]).count == tally(rows, did(user, top[i].action@))
            &&& all.contains(top[i].action@)
        }
    &&& forall|i: int, j: int|
        0 <= i < j < top.len() ==> (#[trigger] top[i]).le(#[trigger] top[j]) && top[i].action@
            != top[j].action@
    &&& forall|i: int, k: int|
        0 <= i < top.len() && 0 <= k < all.len() ==> listed_in(top, #[trigger] all[k]) || ahead(
            (#[trigger] top[i]).count as nat,
            top[i].action@,
            tally(rows, did(user, all[k])),
            all[k],
        )
}

pub open spec fn listed_in(top: Seq<ActionCount>, action: Seq<char>) -> bool {
    exists|i: int| 0 <= i < top.len() && (#[trigger] top[i]).action@ == action
}

/// Whether the numbers are those of the person.
pub open spec fn stats_hold(p: PersonStats, rows: Seq<AuditRow>) -> bool {
    &&& p.actions == tally(rows, of_user(p.user@))
    &&& p.work == tally(rows, work_by(p.user@))
    &&& p.failures == tally(rows, failed_by(p.user@))
    &&& p.last_active@ == latest(rows, p.user@)
    &&& p.active_days == spec_distinct(days_of(rows, p.user@)).len()
    &&& top_holds(p.top_actions@, rows, p.user@)
}

fn count_action(rows: &Vec<AuditRow>, user: &str, action: &str) -> (n: usize)
    ensures
        n == tally(rows@, did(user@, action@)),
{
    let ghost f = did(user@, action@);
    let mut n: usize = 0;
    let mut i: usize = 0;
    assert(rows@.take(0) =~= Seq::empty());
    while i < rows.len()
        invariant
            i <= rows.len(),
            f == did(user@, action@),
            n == tally(rows@.take(i as int), f),
            n <= i,
        decreases rows.len() - i,
    {
        assert(rows@.take(i + 1).drop_last() =~= rows@.take(i as int));
        if same(rows[i].user.as_str(), user) && same(rows[i].action.as_str(), action) {
            n += 1;
        }
        i += 1;
    }
    assert(rows@.take(rows@.len() as int) =~= rows@);
    n
}

fn top_actions(rows: &Vec<AuditRow>, user: &str, done: &Vec<String>) -> (r: Vec<ActionCount>)
    requires
        texts(done@) == actions_of(rows@, user@),
    ensures
        top_holds(r@, rows@, user@),
{
    let names = distinct(done);
    let mut counts: Vec<ActionCount> = Vec::new();
    let mut i: usize = 0;
    while i < names.len()
        invariant
            i <= names.len(),
            counts@.len() == i,
            forall|k: int|
                0 <= k < i ==> (#[trigger] counts@[k]).action == names@[k] && counts@[k].count
                    == tally(rows@, did(user@, names@[k]@)),
        decreases names.len() - i,
    {
        let n: usize = count_action(rows, user, names[i].as_str());
        counts.push(ActionCount { action: names[i].clone(), count: n });
        i += 1;
    }
    let ghost all = spec_distinct(actions_of(rows@, user@));
    let ghost list = counts@;
    proof {
        assert(texts(names@) == all);
        distinct_keeps_each_once(actions_of(rows@, user@), Seq::empty());
        assert forall|a: int, b: int| 0 <= a < list.len() && 0 <= b < list.len() && a != b implies
            list[a] != list[b] by {
            assert(all[a] != all[b]);
            assert(texts(names@)[a] == names@[a]@);
            assert(texts(names@)[b] == names@[b]@);
        }
        sorting_orders_and_keeps(list);
        sorting_keeps_distinct(list);
    }
    let full = sort(counts);
    let mut r: Vec<ActionCount> = Vec::new();
    let mut k: usize = 0;
    while k < full.len() && k < 4
        invariant
            k <= full.len(),
            k <= 4,
            r@ == full@.take(k as int),
        decreases full.len() - k,
    {
        r.push(ActionCount { action: full[k].action.clone(), count: full[k].count });
        assert(full@.take(k + 1) =~= full@.take(k as int).push(full@[k as int]));
        k += 1;
    }
    proof {
        let top = r@;
        assert forall|i: int| 0 <= i < top.len() implies {
            &&& (#[trigger] top[i]).count == tally(rows@, did(user@, top[i].action@))
            &&& all.contains(top[i].action@)
        } by {
            assert(full@[i] == top[i]);
            assert(sorted(list).contains(top[i]));
            sorting_adds_nothing(list, top[i]);
            let m = choose|m: int| 0 <= m < list.len() && list[m] == top[i];
            assert(texts(names@)[m] == names@[m]@);
            assert(all[m] == top[i].action@);
        }
        assert forall|i: int, j: int| 0 <= i < j < top.len() implies (#[trigger] top[i]).le(
            #[trigger] top[j],
        ) && top[i].action@ != top[j].action@ by {
            assert(full@[i].le(full@[j]));
            assert(sorted(list).contains(full@[i]));
            assert(sorted(list).contains(full@[j]));
            sorting_adds_nothing(list, full@[i]);
            sorting_adds_nothing(list, full@[j]);
            let a = choose|a: int| 0 <= a < list.len() && list[a] == full@[i];
            let b = choose|b: int| 0 <= b < list.len() && list[b] == full@[j];
            assert(full@[i] != full@[j]);
            assert(a != b);
            assert(all[a] != all[b]);
            assert(texts(names@)[a] == names@[a]@);
            assert(texts(names@)[b] == names@[b]@);
        }
        assert forall|i: int, m: int| 0 <= i < top.len() && 0 <= m < all.len() implies listed_in(
            top,
            #[trigger] all[m],
        ) || ahead(
            (#[trigger] top[i]).count as nat,
            top[i].action@,
            tally(rows@, did(user@, all[m])),
            all[m],
        ) by {
            assert(texts(names@)[m] == names@[m]@);
            assert(list.contains(list[m]));
            sorting_adds_nothing(list, list[m]);
            let j = choose|j: int| 0 <= j < full@.len() && full@[j] == list[m];
            if j < top.len() {
                assert(top[j].action@ == all[m]);
            } else {
                assert(full@[i].le(full@[j]));
            }
        }
    }
    r
}

fn stats(rows: &Vec<AuditRow>, user: &String) -> (p: PersonStats)
    ensures
        p.user == *user,
        stats_hold(p, rows@),
{
    let ghost f = of_user(user@);
    let ghost g = work_by(user@);
    let ghost h = failed_by(user@);
    let mut actions: usize = 0;
    let mut work: usize = 0;
    let mut failures: usize = 0;
    let mut last_active = String::new();
    let mut days: Vec<String> = Vec::new();
    let mut done: Vec<String> = Vec::new();
    let mut i: usize = 0;
    assert(rows@.take(0) =~= Seq::empty());
    assert(texts(days@) =~= Seq::empty());
    assert(texts(done@) =~= Seq::empty());
    assert(last_active@ =~= Seq::empty());
    while i < rows.len()
        invariant
            i <= rows.len(),
            f == of_user(user@),
            g == work_by(user@),
            h == failed_by(user@),
            actions == tally(rows@.take(i as int), f),
            work == tally(rows@.take(i as int), g),
            failures == tally(rows@.take(i as int), h),
            actions <= i,
            work <= i,
            failures <= i,
            last_active@ == latest(rows@.take(i as int), user@),
            texts(days@) == days_of(rows@.take(i as int), user@),
            texts(done@) == actions_of(rows@.take(i as int), user@),
        decreases rows.len() - i,
    {
        broadcast use crate::text::texts_push, crate::text::texts_empty;

        assert(rows@.take(i + 1).drop_last() =~= rows@.take(i as int));
        let e = &rows[i];
        if same(e.user.as_str(), user.as_str()) {
            actions += 1;
            let action = e.action.as_str();
            if !same(action, "login") && !same(action, "logout") && !same(action, "2fa-verify") {
                work += 1;
            }
            if e.status >= 400 {
                failures += 1;
            }
            if !text_leq(e.at.as_str(), last_active.as_str()) {
                last_active = e.at.clone();
            }
            let parts = split(e.at.as_str(), 'T');
            proof {
                split_nonempty(e.at@, 'T');
                assert(texts(parts@)[0] == parts@[0]@);
            }
            days.push(parts[0].clone());
            done.push(e.action.clone());
        }
        i += 1;
    }
    assert(rows@.take(rows@.len() as int) =~= rows@);
    let separate = distinct(&days);
    let active_days: usize = separate.len();
    assert(texts(separate@).len() == separate@.len());
    let top = top_actions(rows, user.as_str(), &done);
    PersonStats {
        user: user.clone(),
        actions,
        work,
        failures,
        last_active,
        active_days,
        top_actions: top,
    }
}

/// Tells what everyone in the audit did, the busiest first. Everyone is listed once.
pub fn people_analytics(rows: &Vec<AuditRow>) -> (r: Vec<PersonStats>)
    ensures
        r@.len() == spec_distinct(users_of(rows@)).len(),
        forall|i: int|
            0 <= i < r@.len() ==> stats_hold(#[trigger] r@[i], rows@) && spec_distinct(
                users_of(rows@),
            ).contains(r@[i].user@),
        forall|i: int, j: int|
            0 <= i < j < r@.len() ==> (#[trigger] r@[i]).work >= (#[trigger] r@[j]).work
                && r@[i].user@ != r@[j].user@,
{
    let mut names: Vec<String> = Vec::new();
    let mut i: usize = 0;
    assert(rows@.take(0) =~= Seq::empty());
    assert(texts(names@) =~= Seq::empty());
    while i < rows.len()
        invariant
            i <= rows.len(),
            texts(names@) == users_of(rows@.take(i as int)),
        decreases rows.len() - i,
    {
        broadcast use crate::text::texts_push, crate::text::texts_empty;

        assert(rows@.take(i + 1).drop_last() =~= rows@.take(i as int));
        names.push(rows[i].user.clone());
        i += 1;
    }
    assert(rows@.take(rows@.len() as int) =~= rows@);
    let users = distinct(&names);
    let mut people: Vec<PersonStats> = Vec::new();
    let mut k: usize = 0;
    while k < users.len()
        invariant
            k <= users.len(),
            people@.len() == k,
            forall|m: int|
                0 <= m < k ==> (#[trigger] people@[m]).user == users@[m] && stats_hold(
                    people@[m],
                    rows@,
                ),
        decreases users.len() - k,
    {
        let p = stats(rows, &users[k]);
        people.push(p);
        k += 1;
    }
    let ghost all = spec_distinct(users_of(rows@));
    let ghost list = people@;
    proof {
        assert(texts(users@) == all);
        distinct_keeps_each_once(users_of(rows@), Seq::empty());
        assert forall|a: int, b: int| 0 <= a < list.len() && 0 <= b < list.len() && a != b implies
            list[a] != list[b] by {
            assert(all[a] != all[b]);
            assert(texts(users@)[a] == users@[a]@);
            assert(texts(users@)[b] == users@[b]@);
        }
        sorting_orders_and_keeps(list);
        sorting_keeps_distinct(list);
    }
    let r = sort(people);
    proof {
        assert forall|i: int| 0 <= i < r@.len() implies stats_hold(#[trigger] r@[i], rows@)
            && all.contains(r@[i].user@) by {
            assert(sorted(list).contains(r@[i]));
            sorting_adds_nothing(list, r@[i]);
            let m = choose|m: int| 0 <= m < list.len() && list[m] == r@[i];
            assert(texts(users@)[m] == users@[m]@);
            assert(all[m] == r@[i].user@);
        }
        assert forall|i: int, j: int| 0 <= i < j < r@.len() implies (#[trigger] r@[i]).work >= (
        #[trigger] r@[j]).work && r@[i].user@ != r@[j].user@ by {
            assert(r@[i].le(r@[j]));
            assert(sorted(list).contains(r@[i]));
            assert(sorted(list).contains(r@[j]));
            sorting_adds_nothing(list, r@[i]);
            sorting_adds_nothing(list, r@[j]);
            let a = choose|a: int| 0 <= a < list.len() && list[a] == r@[i];
            let b = choose|b: int| 0 <= b < list.len() && list[b] == r@[j];
            assert(r@[i] != r@[j]);
            assert(a != b);
            assert(all[a] != all[b]);
            assert(texts(users@)[a] == users@[a]@);
            assert(texts(users@)[b] == users@[b]@);
        }
    }
    r
}

/// Admits a reader of the analytics, which are for those who manage.
pub fn admit_analytics(accounts: bool, user: &Option<AuthUser>) -> (r: Result<(), Refusal>)
    ensures
        match r {
            Ok(_) => !accounts || (user is Some && user->0.role.spec_can_manage()),
            Err(e) => accounts && (user is None || !user->0.role.spec_can_manage()) && e.v() == (
                403u16,
                "admin role required"@,
                false,
            ),
        },
{
    if !accounts {
        return Ok(());
    }
    match user {
        Some(u) => if u.role.can_manage() {
            Ok(())
        } else {
            Err(plain(403, "admin role required"))
        },
        None => Err(plain(403, "admin role required")),
    }
}

/// The browser that a `User-Agent` header names.
pub open spec fn browser_of(ua: Seq<char>) -> Seq<char> {
    if spec_contains(ua, "Edg"@) {
        "Edge"@
    } else if spec_contains(ua, "OPR"@) || spec_contains(ua, "Opera"@) {
        "Opera"@
    } else if spec_contains(ua, "Chrome"@) {
        "Chrome"@
    } else if spec_contains(ua, "Firefox"@) {
        "Firefox"@
    } else if spec_contains(ua, "Safari"@) {
        "Safari"@
    } else {
        "Browser"@
    }
}

/// The system that a `User-Agent` header names.
pub open spec fn system_of(ua: Seq<char>) -> Seq<char> {
    if spec_contains(ua, "Windows"@) {
        "Windows"@
    } else if spec_contains(ua, "iPhone"@) {
        "iPhone"@
    } else if spec_contains(ua, "iPad"@) {
        "iPad"@
    } else if spec_contains(ua, "Mac OS X"@) || spec_contains(ua, "Macintosh"@) {
        "macOS"@
    } else if spec_contains(ua, "Android"@) {
        "Android"@
    } else if spec_contains(ua, "Linux"@) {
        "Linux"@
    } else {
        "device"@
    }
}

/// A label for the device behind a `User-Agent` header.
pub fn device_label(ua: &str) -> (r: String)
    ensures
        r@ == if spec_trim(ua@).len() == 0 {
            "Unknown device"@
        } else {
            browser_of(ua@) + " on "@ + system_of(ua@)
        },
{
    if is_blank(ua) {
        return owned("Unknown device");
    }
    let browser = if contains(ua, "Edg") {
        "Edge"
    } else if contains(ua, "OPR") || contains(ua, "Opera") {
        "Opera"
    } else if contains(ua, "Chrome") {
        "Chrome"
    } else if contains(ua, "Firefox") {
        "Firefox"
    } else if contains(ua, "Safari") {
        "Safari"
    } else {
        "Browser"
    };
    let os = if contains(ua, "Windows") {
        "Windows"
    } else if contains(ua, "iPhone") {
        "iPhone"
    } else if contains(ua, "iPad") {
        "iPad"
    } else if contains(ua, "Mac OS X") || contains(ua, "Macintosh") {
        "macOS"
    } else if contains(ua, "Android") {
        "Android"
    } else if contains(ua, "Linux") {
        "Linux"
    } else {
        "device"
    };
    join3(browser, " on ", os)
}

pub open spec fn is_https(proto: Option<&str>) -> bool {
    proto is Some && same_name(proto->0@, "https"@)
}

pub open spec fn is_forced(setting: Option<&str>) -> bool {
    setting is Some && (setting->0@ == "1"@ || same_name(setting->0@, "true"@))
}

/// The part of a cookie that keeps it off plain connections: where a proxy says that the
/// connection is encrypted, or the operator does. Without it the cookie still works on this
/// machine.
pub fn cookie_secure(forwarded_proto: Option<&str>, setting: Option<&str>) -> (r: &'static str)
    ensures
        r@ == if is_https(forwarded_proto) || is_forced(setting) {
            "; Secure"@
        } else {
            ""@
        },
{
    let https = match forwarded_proto {
        Some(p) => names_match(p, "https"),
        None => false,
    };
    let forced = match setting {
        Some(v) => same(v, "1") || names_match(v, "true"),
        None => false,
    };
    if https || forced {
        "; Secure"
    } else {
        ""
    }
}

/// The cookie that holds a session.
pub fn session_cookie(token: &str, secure: &str) -> (r: String)
    ensures
        r@ == SESSION_COOKIE@ + "="@ + token@
            + "; HttpOnly; SameSite=Strict; Path=/; Max-Age=43200"@ + secure@,
{
    let mut r = owned(SESSION_COOKIE);
    r.append("=");
    r.append(token);
    r.append("; HttpOnly; SameSite=Strict; Path=/; Max-Age=43200");
    r.append(secure);
    r
}

/// Whose sessions are listed: nobody's without accounts.
pub fn admit_sessions(accounts: bool, user: &Option<AuthUser>) -> (r: Result<
    Option<String>,
    Refusal,
>)
    ensures
        match r {
            Ok(None) => !accounts,
            Ok(Some(who)) => accounts && user is Some && who == user->0.username,
            Err(e) => accounts && user is None && e.v() == (401u16, "unauthenticated"@, false),
        },
{
    if !accounts {
        return Ok(None);
    }
    match user {
        Some(u) => Ok(Some(u.username.clone())),
        None => Err(plain(401, "unauthenticated")),
    }
}

/// Name and address of a person.
#[derive(Clone, Debug)]
pub struct Contact {
    pub username: String,
    pub name: String,
    pub email: String,
}

pub open spec fn contact_of(all: Seq<Contact>, username: Seq<char>) -> Option<Contact>
    decreases all.len(),
{
    if all.len() == 0 {
        None
    } else if all[0].username@ == username {
        Some(all[0])
    } else {
        contact_of(all.skip(1), username)
    }
}

/// The name and address that a person sees of themselves: those on record now, which may be newer
/// than those of their session.
pub fn current_contact(session: &Contact, all: &Vec<Contact>) -> (r: (String, String))
    ensures
        match contact_of(all@, session.username@) {
            Some(c) => r == (c.name, c.email),
            None => r == (session.name, session.email),
        },
{
    let mut i: usize = 0;
    assert(all@.skip(0) =~= all@);
    while i < all.len()
        invariant
            i <= all.len(),
            contact_of(all@, session.username@) == contact_of(
                all@.skip(i as int),
                session.username@,
            ),
        decreases all.len() - i,
    {
        if same(all[i].username.as_str(), session.username.as_str()) {
            return (all[i].name.clone(), all[i].email.clone());
        }
        assert(all@.skip(i as int).skip(1) =~= all@.skip(i + 1));
        i += 1;
    }
    (session.name.clone(), session.email.clone())
}

/// A picture is told by its first bytes: each format by its own signature, and what bears none of
/// them is no picture.
pub proof fn a_picture_is_told_by_its_signature(data: Seq<u8>)
    ensures
        sniffed(data) == Some(AvatarFormat::Png) <==> data.len() >= 8 && data[0] == 0x89 && data[1]
            == 0x50 && data[2] == 0x4E && data[3] == 0x47 && data[4] == 0x0D && data[5] == 0x0A
            && data[6] == 0x1A && data[7] == 0x0A,
        sniffed(data) == Some(AvatarFormat::Jpeg) <==> data.len() >= 3 && data[0] == 0xFF && data[1]
            == 0xD8 && data[2] == 0xFF,
        sniffed(data) == Some(AvatarFormat::Gif) <==> data.len() >= 6 && data[0] == 0x47 && data[1]
            == 0x49 && data[2] == 0x46 && data[3] == 0x38 && (data[4] == 0x37 || data[4] == 0x39)
            && data[5] == 0x61,
        sniffed(data) == Some(AvatarFormat::Webp) <==> data.len() >= 12 && data[0] == 0x52
            && data[1] == 0x49 && data[2] == 0x46 && data[3] == 0x46 && data[8] == 0x57 && data[9]
            == 0x45 && data[10] == 0x42 && data[11] == 0x50,
{
    begins_with(data, seq![0x89u8, 0x50, 0x4E, 0x47, 0x0D, 0x0A, 0x1A, 0x0A]);
    begins_with(data, seq![0xFFu8, 0xD8, 0xFF]);
    begins_with(data, seq![0x47u8, 0x49, 0x46, 0x38, 0x37, 0x61]);
    begins_with(data, seq![0x47u8, 0x49, 0x46, 0x38, 0x39, 0x61]);
    begins_with(data, seq![0x52u8, 0x49, 0x46, 0x46]);
    let png = seq![0x89u8, 0x50, 0x4E, 0x47, 0x0D, 0x0A, 0x1A, 0x0A];
    let gif7 = seq![0x47u8, 0x49, 0x46, 0x38, 0x37, 0x61];
    let gif9 = seq![0x47u8, 0x49, 0x46, 0x38, 0x39, 0x61];
    let riff = seq![0x52u8, 0x49, 0x46, 0x46];
    let webp = seq![0x57u8, 0x45, 0x42, 0x50];
    let jpeg = seq![0xFFu8, 0xD8, 0xFF];
    assert(png[0] == 0x89 && png[1] == 0x50 && png[2] == 0x4E && png[3] == 0x47 && png[4] == 0x0D
        && png[5] == 0x0A && png[6] == 0x1A && png[7] == 0x0A);
    assert(jpeg[0] == 0xFF && jpeg[1] == 0xD8 && jpeg[2] == 0xFF);
    assert(gif7[0] == 0x47 && gif7[1] == 0x49 && gif7[2] == 0x46 && gif7[3] == 0x38 && gif7[4]
        == 0x37 && gif7[5] == 0x61);
    assert(gif9[0] == 0x47 && gif9[1] == 0x49 && gif9[2] == 0x46 && gif9[3] == 0x38 && gif9[4]
        == 0x39 && gif9[5] == 0x61);
    assert(riff[0] == 0x52 && riff[1] == 0x49 && riff[2] == 0x46 && riff[3] == 0x46);
    assert(webp[0] == 0x57 && webp[1] == 0x45 && webp[2] == 0x42 && webp[3] == 0x50);
    if data.len() >= 12 {
        let rest = data.skip(8);
        begins_with(rest, webp);
        assert(rest[0] == data[8] && rest[1] == data[9] && rest[2] == data[10] && rest[3]
            == data[11]);
    }
}

proof fn begins_with(data: Seq<u8>, mark: Seq<u8>)
    ensures
        begins(data, mark) <==> data.len() >= mark.len() && forall|i: int|
            0 <= i < mark.len() ==> data[i] == #[trigger] mark[i],
{
    if data.len() >= mark.len() {
        let t = data.take(mark.len() as int);
        if begins(data, mark) {
            assert forall|i: int| 0 <= i < mark.len() implies data[i] == #[trigger] mark[i] by {
                assert(t[i] == data[i]);
            }
        }
        if forall|i: int| 0 <= i < mark.len() ==> data[i] == #[trigger] mark[i] {
            assert(t =~= mark);
        }
    }
}

/// An account is created exactly by someone who manages, with a name that is not blank and a
/// password.
pub proof fn only_a_manager_creates_accounts(
    accounts: bool,
    user: Option<AuthUser>,
    username: Seq<char>,
    password: Seq<char>,
)
    ensures
        account_refusal(accounts, user, username, password) is None <==> accounts && user is Some
            && user->0.role.spec_can_manage() && spec_trim(username).len() > 0 && password.len() > 0,
        match account_refusal(accounts, user, username, password) {
            Some((status, _, _)) => {
                &&& status == 501 <==> !accounts
                &&& status == 403 <==> accounts && (user is None || !user->0.role.spec_can_manage())
                &&& status == 501 || status == 403 || status == 400
            },
            None => true,
        },
{
}

/// A manager sees every account, the others the people of the project; each is marked with
/// whether they are on it.
pub proof fn members_see_each_other(all: Seq<AuthUser>, privileged: bool, pid: Seq<char>)
    ensures
        collect(all, member_rule(privileged, pid)) == all.filter(
            |u: AuthUser| privileged || texts(u.projects@).contains(pid),
        ).map_values(
            |u: AuthUser|
                Member {
                    username: u.username,
                    role: u.role,
                    assigned: texts(u.projects@).contains(pid),
                },
        ),
        privileged ==> collect(all, member_rule(privileged, pid)).len() == all.len(),
{
    let keep = |u: AuthUser| privileged || texts(u.projects@).contains(pid);
    let make = |u: AuthUser|
        Member { username: u.username, role: u.role, assigned: texts(u.projects@).contains(pid) };
    collected_is_filtered(all, member_rule(privileged, pid), keep, make);
    if privileged {
        everyone_is_kept(all, keep);
    }
}

proof fn everyone_is_kept(all: Seq<AuthUser>, keep: spec_fn(AuthUser) -> bool)
    requires
        forall|u: AuthUser| #[trigger] keep(u),
    ensures
        all.filter(keep) == all,
    decreases all.len(),
{
    reveal(Seq::filter);
    if all.len() > 0 {
        everyone_is_kept(all.drop_last(), keep);
        assert(keep(all.last()));
        assert(all.drop_last().push(all.last()) =~= all);
    }
}

proof fn tally_is_filtered(rows: Seq<AuditRow>, pick: spec_fn(AuditRow) -> bool)
    ensures
        tally(rows, pick) == rows.filter(pick).len(),
    decreases rows.len(),
{
    reveal(Seq::filter);
    if rows.len() > 0 {
        tally_is_filtered(rows.drop_last(), pick);
    }
}

/// What is told of a person is what the audit holds of them: how many lines, how many of them are
/// work and not a mere sign-in, how many failed, and how often they did each thing.
pub proof fn a_person_is_told_by_their_lines(p: PersonStats, rows: Seq<AuditRow>)
    requires
        stats_hold(p, rows),
    ensures
        p.actions == rows.filter(|r: AuditRow| r.user@ == p.user@).len(),
        p.work == rows.filter(
            |r: AuditRow|
                r.user@ == p.user@ && r.action@ != "login"@ && r.action@ != "logout"@ && r.action@
                    != "2fa-verify"@,
        ).len(),
        p.failures == rows.filter(|r: AuditRow| r.user@ == p.user@ && r.status >= 400).len(),
        forall|i: int|
            0 <= i < p.top_actions@.len() ==> (#[trigger] p.top_actions@[i]).count == rows.filter(
                did(p.user@, p.top_actions@[i].action@),
            ).len(),
        p.top_actions@.len() <= 4,
{
    let own = |r: AuditRow| r.user@ == p.user@;
    let work = |r: AuditRow|
        r.user@ == p.user@ && r.action@ != "login"@ && r.action@ != "logout"@ && r.action@
            != "2fa-verify"@;
    let failed = |r: AuditRow| r.user@ == p.user@ && r.status >= 400;
    assert(of_user(p.user@) =~= own);
    assert(work_by(p.user@) =~= work);
    assert(failed_by(p.user@) =~= failed);
    tally_is_filtered(rows, own);
    tally_is_filtered(rows, work);
    tally_is_filtered(rows, failed);
    assert forall|i: int| 0 <= i < p.top_actions@.len() implies (
    #[trigger] p.top_actions@[i]).count == rows.filter(
        did(p.user@, p.top_actions@[i].action@),
    ).len() by {
        tally_is_filtered(rows, did(p.user@, p.top_actions@[i].action@));
    }
}

/// A line counts as someone doing something exactly where it is theirs and names that action.
pub proof fn a_line_counts_for_its_user(r: AuditRow, user: Seq<char>, action: Seq<char>)
    ensures
        did(user, action)(r) <==> r.user@ == user && r.action@ == action,
        is_sign_in(action) <==> action == "login"@ || action == "logout"@ || action
            == "2fa-verify"@,
{
}

/// A person was last active at the latest of their lines: none of them is later, and it is one of
/// theirs unless none has a time.
pub proof fn the_latest_line_tells_the_last_activity(rows: Seq<AuditRow>, user: Seq<char>)
    ensures
        forall|i: int|
            0 <= i < rows.len() && (#[trigger] rows[i]).user@ == user ==> text_le(
                rows[i].at@,
                latest(rows, user),
            ),
        latest(rows, user).len() == 0 || exists|i: int|
            0 <= i < rows.len() && (#[trigger] rows[i]).user@ == user && rows[i].at@ == latest(
                rows,
                user,
            ),
    decreases rows.len(),
{
    if rows.len() > 0 {
        let init = rows.drop_last();
        the_latest_line_tells_the_last_activity(init, user);
        let before = latest(init, user);
        let now = latest(rows, user);
        let last = rows.last();
        assert(rows[rows.len() - 1] == last);
        assert(forall|i: int| 0 <= i < init.len() ==> #[trigger] init[i] == rows[i]);
        text_le_is_an_order(last.at@, before, before);
        assert forall|i: int|
            0 <= i < rows.len() && (#[trigger] rows[i]).user@ == user implies text_le(
            rows[i].at@,
            now,
        ) by {
            if i < init.len() {
                assert(text_le(init[i].at@, before));
                text_le_is_an_order(init[i].at@, before, now);
                text_le_is_an_order(before, now, now);
            } else {
                text_le_is_an_order(now, now, now);
            }
        }
        if now.len() > 0 && now == before {
            if last.user@ == user && !text_le(last.at@, before) {
                assert(rows[rows.len() - 1].at@ == now);
            } else {
                let i = choose|i: int|
                    0 <= i < init.len() && (#[trigger] init[i]).user@ == user && init[i].at@
                        == before;
                assert(rows[i].at@ == now);
            }
        }
    }
}

/// The days and actions of a person are those of their lines, and everyone with a line is told of.
pub proof fn days_and_actions_are_of_the_lines(rows: Seq<AuditRow>, user: Seq<char>)
    ensures
        days_of(rows, user) == rows.filter(|r: AuditRow| r.user@ == user).map_values(
            |r: AuditRow| spec_split(r.at@, 'T')[0],
        ),
        actions_of(rows, user) == rows.filter(|r: AuditRow| r.user@ == user).map_values(
            |r: AuditRow| r.action@,
        ),
        users_of(rows) == rows.map_values(|r: AuditRow| r.user@),
    decreases rows.len(),
{
    reveal(Seq::filter);
    let keep = |r: AuditRow| r.user@ == user;
    let day = |r: AuditRow| spec_split(r.at@, 'T')[0];
    let act = |r: AuditRow| r.action@;
    let who = |r: AuditRow| r.user@;
    if rows.len() == 0 {
        assert(days_of(rows, user) =~= rows.filter(keep).map_values(day));
        assert(actions_of(rows, user) =~= rows.filter(keep).map_values(act));
        assert(users_of(rows) =~= rows.map_values(who));
    } else {
        let init = rows.drop_last();
        days_and_actions_are_of_the_lines(init, user);
        let kept = init.filter(keep);
        let last = rows.last();
        assert(kept.push(last).map_values(day) =~= kept.map_values(day).push(day(last)));
        assert(kept.push(last).map_values(act) =~= kept.map_values(act).push(act(last)));
        assert(init.push(last) =~= rows);
        assert(init.push(last).map_values(who) =~= init.map_values(who).push(who(last)));
    }
}

/// What is done more often stands first, and of what is done as often the one whose name comes
/// first.
pub proof fn the_most_frequent_stands_first(a: ActionCount, b: ActionCount, p: PersonStats, q: PersonStats)
    ensures
        a.count > b.count ==> a.le(b) && !b.le(a),
        a.count == b.count ==> a.le(b) == text_le(a.action@, b.action@),
        p.work > q.work ==> p.le(q) && !q.le(p),
{
}

/// A cookie is kept off plain connections where the proxy says that the connection is encrypted, in
/// whatever case, or the operator sets it.
pub proof fn encryption_is_told_by_proxy_or_operator(s: &str)
    ensures
        is_https(Some(s)) <==> spec_ascii_lower(s@) == spec_ascii_lower("https"@),
        is_forced(Some(s)) <==> s@ == "1"@ || spec_ascii_lower(s@) == spec_ascii_lower("true"@),
        !is_https(None),
        !is_forced(None),
{
}

/// A contact is found by their username: the first on record.
pub proof fn a_contact_is_found_by_username(all: Seq<Contact>, username: Seq<char>)
    ensures
        match contact_of(all, username) {
            Some(v) => exists|i: int|
                0 <= i < all.len() && (#[trigger] all[i]).username@ == username && all[i] == v && (forall|j: int|
                    0 <= j < i ==> !((#[trigger] all[j]).username@ == username)),
            None => forall|j: int| 0 <= j < all.len() ==> !((#[trigger] all[j]).username@ == username),
        },
    decreases all.len(),
{
    if all.len() > 0 {
        let rest = all.skip(1);
        a_contact_is_found_by_username(rest, username);
        assert(forall|j: int| 0 <= j < rest.len() ==> #[trigger] rest[j] == all[j + 1]);
        assert(forall|j: int| 1 <= j < all.len() ==> #[trigger] all[j] == rest[j - 1]);
        if !(all[0].username@ == username) && contact_of(rest, username) is Some {
            let v = contact_of(rest, username)->0;
            let i = choose|i: int|
                0 <= i < rest.len() && (#[trigger] rest[i]).username@ == username && rest[i] == v && (forall|j: int|
                    0 <= j < i ==> !((#[trigger] rest[j]).username@ == username));
            assert(all[i + 1].username@ == username);
        }
    }
}

/// A person's most frequent actions are told: an action that is not told was not done more often
/// than any that is, and none is missing while there is room.
pub proof fn the_most_frequent_actions_are_told(p: PersonStats, rows: Seq<AuditRow>, r: int, i: int)
    requires
        stats_hold(p, rows),
        0 <= r < rows.len(),
        rows[r].user@ == p.user@,
        forall|k: int|
            0 <= k < p.top_actions@.len() ==> (#[trigger] p.top_actions@[k]).action@
                != rows[r].action@,
    ensures
        p.top_actions@.len() == 4,
        0 <= i < p.top_actions@.len() ==> p.top_actions@[i].count >= rows.filter(
            did(p.user@, rows[r].action@),
        ).len(),
{
    let user = p.user@;
    let action = rows[r].action@;
    let done = actions_of(rows, user);
    let all = spec_distinct(done);
    let top = p.top_actions@;
    tally_is_filtered(rows, did(user, action));
    an_action_is_listed(rows, user, r);
    distinct_keeps_each_once(done, action);
    let k = choose|k: int| 0 <= k < all.len() && all[k] == action;
    assert(!listed_in(top, all[k]));
    if all.len() < 4 {
        every_action_has_room(top, all, k);
    }
    if 0 <= i < top.len() {
        assert(ahead(top[i].count as nat, top[i].action@, tally(rows, did(user, all[k])), all[k]));
    }
}

proof fn an_action_is_listed(rows: Seq<AuditRow>, user: Seq<char>, r: int)
    requires
        0 <= r < rows.len(),
        rows[r].user@ == user,
    ensures
        actions_of(rows, user).contains(rows[r].action@),
    decreases rows.len(),
{
    let init = rows.drop_last();
    let all = actions_of(rows, user);
    if r < init.len() {
        an_action_is_listed(init, user, r);
        let before = actions_of(init, user);
        let k = choose|k: int| 0 <= k < before.len() && before[k] == rows[r].action@;
        assert(all[k] == rows[r].action@);
    } else {
        assert(all[all.len() - 1] == rows[r].action@);
    }
}

proof fn every_action_has_room(top: Seq<ActionCount>, all: Seq<Seq<char>>, k: int)
    requires
        top.len() == all.len(),
        0 <= k < all.len(),
        all.no_duplicates(),
        forall|i: int| 0 <= i < top.len() ==> all.contains((#[trigger] top[i]).action@),
        forall|i: int, j: int|
            0 <= i < j < top.len() ==> (#[trigger] top[i]).action@ != (#[trigger] top[j]).action@,
    ensures
        listed_in(top, all[k]),
{
    if !listed_in(top, all[k]) {
        room_is_left(top, all, k);
    }
}

proof fn room_is_left(top: Seq<ActionCount>, all: Seq<Seq<char>>, k: int)
    requires
        0 <= k < all.len(),
        all.no_duplicates(),
        forall|i: int| 0 <= i < top.len() ==> all.contains((#[trigger] top[i]).action@),
        forall|i: int, j: int|
            0 <= i < j < top.len() ==> (#[trigger] top[i]).action@ != (#[trigger] top[j]).action@,
        !listed_in(top, all[k]),
    ensures
        top.len() < all.len(),
{
    let names = top.map_values(|a: ActionCount| a.action@);
    assert(names.no_duplicates()) by {
        assert forall|i: int, j: int|
            0 <= i < names.len() && 0 <= j < names.len() && i != j implies names[i] != names[j] by {
            if i < j {
                assert(top[i].action@ != top[j].action@);
            } else {
                assert(top[j].action@ != top[i].action@);
            }
        }
    }
    let rest = all.remove(k);
    assert forall|i: int| 0 <= i < names.len() implies rest.to_set().contains(
        #[trigger] names[i],
    ) by {
        assert(all.contains(top[i].action@));
        let m = choose|m: int| 0 <= m < all.len() && all[m] == names[i];
        assert(top[i].action@ != all[k]);
        if m < k {
            assert(rest[m] == names[i]);
        } else {
            assert(rest[m - 1] == names[i]);
        }
        assert(rest.contains(names[i]));
    }
    names.unique_seq_to_set();
    rest.lemma_cardinality_of_set();
    assert(names.to_set().subset_of(rest.to_set())) by {
        assert forall|x: Seq<char>| names.to_set().contains(x) implies rest.to_set().contains(x) by {
            assert(names.contains(x));
            let i = choose|i: int| 0 <= i < names.len() && names[i] == x;
            assert(rest.to_set().contains(names[i]));
        }
    }
    vstd::set_lib::lemma_len_subset(names.to_set(), rest.to_set());
}

/// A browser is told by its name in the header; one that names others too is told by its own.
pub proof fn a_browser_is_told_by_its_own_name(ua: Seq<char>)
    ensures
        spec_contains(ua, "Edg"@) ==> browser_of(ua) == "Edge"@,
        !spec_contains(ua, "Edg"@) && (spec_contains(ua, "OPR"@) || spec_contains(ua, "Opera"@))
            ==> browser_of(ua) == "Opera"@,
        spec_contains(ua, "Chrome"@) && !spec_contains(ua, "Edg"@) && !spec_contains(ua, "OPR"@)
            && !spec_contains(ua, "Opera"@) ==> browser_of(ua) == "Chrome"@,
        spec_contains(ua, "Firefox"@) && !spec_contains(ua, "Chrome"@) && !spec_contains(ua, "Edg"@)
            && !spec_contains(ua, "OPR"@) && !spec_contains(ua, "Opera"@) ==> browser_of(ua)
            == "Firefox"@,
        spec_contains(ua, "Safari"@) && !spec_contains(ua, "Firefox"@) && !spec_contains(
            ua,
            "Chrome"@,
        ) && !spec_contains(ua, "Edg"@) && !spec_contains(ua, "OPR"@) && !spec_contains(ua, "Opera"@)
            ==> browser_of(ua) == "Safari"@,
        spec_contains(ua, "iPhone"@) && !spec_contains(ua, "Windows"@) ==> system_of(ua)
            == "iPhone"@,
        spec_contains(ua, "iPad"@) && !spec_contains(ua, "Windows"@) && !spec_contains(ua, "iPhone"@)
            ==> system_of(ua) == "iPad"@,
        spec_contains(ua, "Android"@) && !spec_contains(ua, "Windows"@) && !spec_contains(
            ua,
            "iPhone"@,
        ) && !spec_contains(ua, "iPad"@) && !spec_contains(ua, "Mac OS X"@) && !spec_contains(
            ua,
            "Macintosh"@,
        ) ==> system_of(ua) == "Android"@,
        spec_contains(ua, "Windows"@) ==> system_of(ua) == "Windows"@,
{
}

} // verus!
