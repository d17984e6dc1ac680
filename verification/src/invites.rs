//! Invitations to the workspace: shareable links through which people create their own account.

use crate::guards::AuthUser;
use crate::lists::{
    collect, collected_has_source, keep_marked, kept_is_filtered, marked_is_collected,
};
use crate::reply::{json, plain, Refusal};
use crate::spaces::Space;
use crate::text::{
    copy_texts, has_text, html_escape, is_blank, join2, join3, owned, same, spec_html_escape,
    spec_trim, texts, trim,
};
use vstd::prelude::*;
use vstd::string::*;

verus! {

/// A shareable invitation.
#[derive(Clone, Debug)]
pub struct Invite {
    pub token: String,
    pub role: String,
    pub projects: Vec<String>,
    pub created_by: String,
    pub created_at: String,
    pub uses_left: u32,
}

/// What an invitation is asked to be.
#[derive(Clone, Debug)]
pub struct InviteCreateReq {
    pub role: Option<String>,
    pub projects: Vec<String>,
    pub uses: Option<u32>,
}

/// Whether one of the spaces lists the project.
pub open spec fn in_spaces(spaces: Seq<Space>, mine: Seq<usize>, project: Seq<char>) -> bool {
    exists|i: int|
        0 <= i < mine.len() && 0 <= (#[trigger] mine[i]) < spaces.len() && texts(
            spaces[mine[i] as int].projects@,
        ).contains(project)
}

fn listed_in(spaces: &Vec<Space>, mine: &Vec<usize>, project: &str) -> (b: bool)
    ensures
        b == in_spaces(spaces@, mine@, project@),
{
    let mut i: usize = 0;
    while i < mine.len()
        invariant
            i <= mine.len(),
            forall|j: int|
                0 <= j < i ==> !(0 <= (#[trigger] mine@[j]) < spaces@.len() && texts(
                    spaces@[mine@[j] as int].projects@,
                ).contains(project@)),
        decreases mine.len() - i,
    {
        let k: usize = mine[i];
        if k < spaces.len() && has_text(&spaces[k].projects, project) {
            return true;
        }
        i += 1;
    }
    false
}

/// Whether an admin may invite into the projects: the hub's owner into any, others into those of
/// their own spaces. A hub without spaces does not restrict.
pub open spec fn may_invite(
    is_super: bool,
    spaces: Seq<Space>,
    mine: Seq<usize>,
    projects: Seq<String>,
) -> bool {
    is_super || spaces.len() == 0 || forall|i: int|
        0 <= i < projects.len() ==> in_spaces(spaces, mine, (#[trigger] projects[i])@)
}

/// Creates an invitation. `mine` are the positions of the spaces that the caller sees.
pub fn create_invite(
    invites: &mut Vec<Invite>,
    req: &InviteCreateReq,
    is_super: bool,
    spaces: &Vec<Space>,
    mine: &Vec<usize>,
    token: &str,
    by: &str,
    at: &str,
) -> (r: Result<(), Refusal>)
    ensures
        match r {
            Ok(_) => {
                &&& may_invite(is_super, spaces@, mine@, req.projects@)
                &&& final(invites)@.len() == old(invites)@.len() + 1
                &&& final(invites)@.drop_last() == old(invites)@
                &&& ({
                    let i = final(invites)@.last();
                    &&& i.token@ == token@ && i.created_by@ == by@ && i.created_at@ == at@
                    &&& i.role@ == match req.role {
                        Some(r) => r@,
                        None => "viewer"@,
                    }
                    &&& i.projects@ == req.projects@
                    &&& i.uses_left == match req.uses {
                        Some(n) => if n < 1 {
                            1u32
                        } else if n > 100 {
                            100u32
                        } else {
                            n
                        },
                        None => 5u32,
                    }
                })
            },
            Err(e) => !may_invite(is_super, spaces@, mine@, req.projects@) && final(invites)@
                == old(invites)@ && e.v() == (
                403u16,
                "you can only invite into your own space's projects"@,
                true,
            ),
        },
{
    if !is_super && spaces.len() > 0 {
        let mut i: usize = 0;
        while i < req.projects.len()
            invariant
                i <= req.projects.len(),
                !is_super,
                spaces@.len() > 0,
                invites@ == old(invites)@,
                forall|j: int|
                    0 <= j < i ==> in_spaces(spaces@, mine@, (#[trigger] req.projects@[j])@),
            decreases req.projects.len() - i,
        {
            if !listed_in(spaces, mine, req.projects[i].as_str()) {
                return Err(json(403, "you can only invite into your own space's projects"));
            }
            i += 1;
        }
    }
    let uses: u32 = match req.uses {
        Some(n) => if n < 1 {
            1
        } else if n > 100 {
            100
        } else {
            n
        },
        None => 5,
    };
    let ghost before = invites@;
    invites.push(
        Invite {
            token: owned(token),
            role: match &req.role {
                Some(r) => r.clone(),
                None => owned("viewer"),
            },
            projects: copy_texts(&req.projects),
            created_by: owned(by),
            created_at: owned(at),
            uses_left: uses,
        },
    );
    assert(invites@.drop_last() =~= before);
    Ok(())
}

/// The address of an invitation.
pub fn invite_url(token: &str) -> (r: String)
    ensures
        r@ == "/join/"@ + token@,
{
    join2("/join/", token)
}

pub open spec fn other_token(token: Seq<char>) -> spec_fn(Invite) -> Option<Invite> {
    |i: Invite|
        if i.token@ != token {
            Some(i)
        } else {
            None
        }
}

/// Withdraws an invitation.
pub fn delete_invite(invites: &mut Vec<Invite>, token: &str)
    ensures
        final(invites)@ == collect(old(invites)@, other_token(token@)),
{
    let ghost f = other_token(token@);
    let mut keep: Vec<bool> = Vec::new();
    let mut i: usize = 0;
    while i < invites.len()
        invariant
            i <= invites.len(),
            keep.len() == i,
            invites@ == old(invites)@,
            forall|j: int| 0 <= j < i ==> keep@[j] == ((#[trigger] invites@[j]).token@ != token@),
        decreases invites.len() - i,
    {
        keep.push(!same(invites[i].token.as_str(), token));
        i += 1;
    }
    proof {
        marked_is_collected(invites@, keep@, f);
    }
    keep_marked(invites, &keep);
}

/// The position of the first invitation with that token that has uses left.
pub open spec fn usable_at(invites: Seq<Invite>, token: Seq<char>, i: int) -> Option<int>
    decreases invites.len() - i,
{
    if i < 0 || i >= invites.len() {
        None
    } else if invites[i].token@ == token && invites[i].uses_left > 0 {
        Some(i)
    } else {
        usable_at(invites, token, i + 1)
    }
}

fn find_usable(invites: &Vec<Invite>, token: &str) -> (r: Option<usize>)
    ensures
        match r {
            Some(i) => i < invites.len() && usable_at(invites@, token@, 0) == Some(i as int)
                && invites@[i as int].uses_left > 0,
            None => usable_at(invites@, token@, 0) is None,
        },
{
    let mut i: usize = 0;
    while i < invites.len()
        invariant
            i <= invites.len(),
            usable_at(invites@, token@, 0) == usable_at(invites@, token@, i as int),
        decreases invites.len() - i,
    {
        if invites[i].uses_left > 0 && same(invites[i].token.as_str(), token) {
            return Some(i);
        }
        i += 1;
    }
    None
}

/// Whether an invitation is still good.
pub fn invite_valid(invites: &Vec<Invite>, token: &str) -> (b: bool)
    ensures
        b == (usable_at(invites@, token@, 0) is Some),
{
    find_usable(invites, token).is_some()
}

/// An invitation that was just created lets someone in; one that was withdrawn lets nobody in.
pub proof fn an_invitation_works_until_withdrawn(invites: Seq<Invite>, new: Invite)
    requires
        new.uses_left > 0,
    ensures
        usable_at(invites.push(new), new.token@, 0) is Some,
        usable_at(collect(invites, other_token(new.token@)), new.token@, 0) is None,
{
    let more = invites.push(new);
    usable_is_usable(more, new.token@, 0);
    assert(more[invites.len() as int] == new);
    let f = other_token(new.token@);
    let less = collect(invites, f);
    usable_is_usable(less, new.token@, 0);
    if let Some(k) = usable_at(less, new.token@, 0) {
        collected_has_source(invites, f, k);
    }
}

pub open spec fn live_rule() -> spec_fn(Invite) -> Option<Invite> {
    |i: Invite|
        if i.uses_left > 0 {
            Some(i)
        } else {
            None
        }
}

/// The invitations after one use of the one at `i`: those that are used up go.
pub open spec fn used_once(invites: Seq<Invite>, i: int) -> Seq<Invite> {
    collect(
        invites.update(
            i,
            Invite { uses_left: (invites[i].uses_left - 1) as u32, ..invites[i] },
        ),
        live_rule(),
    )
}

/// What an invitation grants.
#[derive(Clone, Debug)]
pub struct Grant {
    pub role: String,
    pub projects: Vec<String>,
}

/// Consumes one use of an invitation.
pub fn redeem_invite(invites: &mut Vec<Invite>, token: &str) -> (r: Result<Grant, Refusal>)
    ensures
        match r {
            Ok(g) => usable_at(old(invites)@, token@, 0) is Some && ({
                let i = usable_at(old(invites)@, token@, 0)->0;
                &&& g.role == old(invites)@[i].role
                &&& g.projects@ == old(invites)@[i].projects@
                &&& final(invites)@ == used_once(old(invites)@, i)
            }),
            Err(e) => usable_at(old(invites)@, token@, 0) is None && final(invites)@ == old(
                invites,
            )@ && e.v() == (403u16, "invite invalid or used up"@, true),
        },
{
    let i = match find_usable(invites, token) {
        None => {
            return Err(json(403, "invite invalid or used up"));
        },
        Some(i) => i,
    };
    let grant = Grant {
        role: invites[i].role.clone(),
        projects: copy_texts(&invites[i].projects),
    };
    invites[i].uses_left = invites[i].uses_left - 1;
    let ghost mid = invites@;
    assert(mid =~= old(invites)@.update(
        i as int,
        Invite {
            uses_left: (old(invites)@[i as int].uses_left - 1) as u32,
            ..old(invites)@[i as int]
        },
    ));
    let ghost f = live_rule();
    let mut keep: Vec<bool> = Vec::new();
    let mut k: usize = 0;
    while k < invites.len()
        invariant
            k <= invites.len(),
            keep.len() == k,
            invites@ == mid,
            forall|j: int| 0 <= j < k ==> keep@[j] == ((#[trigger] invites@[j]).uses_left > 0),
        decreases invites.len() - k,
    {
        keep.push(invites[k].uses_left > 0);
        k += 1;
    }
    proof {
        marked_is_collected(invites@, keep@, f);
    }
    keep_marked(invites, &keep);
    Ok(grant)
}

/// How many uses the invitations with that token have left, together.
pub open spec fn uses_of(invites: Seq<Invite>, token: Seq<char>) -> nat
    decreases invites.len(),
{
    if invites.len() == 0 {
        0
    } else {
        uses_of(invites.drop_last(), token) + if invites.last().token@ == token {
            invites.last().uses_left as nat
        } else {
            0
        }
    }
}

proof fn dead_invites_have_no_uses(invites: Seq<Invite>, token: Seq<char>)
    ensures
        uses_of(collect(invites, live_rule()), token) == uses_of(invites, token),
    decreases invites.len(),
{
    if invites.len() > 0 {
        dead_invites_have_no_uses(invites.drop_last(), token);
        let init = collect(invites.drop_last(), live_rule());
        let last = invites.last();
        if last.uses_left > 0 {
            assert(init.push(last).drop_last() =~= init);
        }
    } else {
        assert(collect(invites, live_rule()) =~= invites);
    }
}

proof fn one_use_less(invites: Seq<Invite>, token: Seq<char>, i: int)
    requires
        0 <= i < invites.len(),
        invites[i].token@ == token,
        invites[i].uses_left > 0,
    ensures
        uses_of(
            invites.update(
                i,
                Invite { uses_left: (invites[i].uses_left - 1) as u32, ..invites[i] },
            ),
            token,
        ) == uses_of(invites, token) - 1,
        uses_of(invites, token) > 0,
    decreases invites.len(),
{
    let after = invites.update(
        i,
        Invite { uses_left: (invites[i].uses_left - 1) as u32, ..invites[i] },
    );
    if i == invites.len() - 1 {
        assert(after.drop_last() =~= invites.drop_last());
    } else {
        one_use_less(invites.drop_last(), token, i);
        assert(after.drop_last() =~= invites.drop_last().update(
            i,
            Invite { uses_left: (invites[i].uses_left - 1) as u32, ..invites[i] },
        ));
    }
}

proof fn usable_is_usable(invites: Seq<Invite>, token: Seq<char>, i: int)
    requires
        0 <= i,
    ensures
        match usable_at(invites, token, i) {
            Some(k) => i <= k < invites.len() && invites[k].token@ == token && invites[k].uses_left
                > 0,
            None => forall|j: int|
                i <= j < invites.len() && (#[trigger] invites[j]).token@ == token
                    ==> invites[j].uses_left == 0,
        },
    decreases invites.len() - i,
{
    if i < invites.len() && !(invites[i].token@ == token && invites[i].uses_left > 0) {
        usable_is_usable(invites, token, i + 1);
    }
}

proof fn no_live_invite_no_uses(invites: Seq<Invite>, token: Seq<char>)
    requires
        forall|j: int|
            0 <= j < invites.len() && (#[trigger] invites[j]).token@ == token
                ==> invites[j].uses_left == 0,
    ensures
        uses_of(invites, token) == 0,
    decreases invites.len(),
{
    if invites.len() > 0 {
        let init = invites.drop_last();
        assert forall|j: int| 0 <= j < init.len() && (#[trigger] init[j]).token@ == token implies
            init[j].uses_left == 0 by {
            assert(init[j] == invites[j]);
        }
        no_live_invite_no_uses(init, token);
        assert(invites.last() == invites[invites.len() - 1]);
    }
}

/// An invitation is good exactly while it has uses left, and each redemption takes one.
pub proof fn each_redemption_takes_one_use(invites: Seq<Invite>, token: Seq<char>)
    ensures
        usable_at(invites, token, 0) is Some <==> uses_of(invites, token) > 0,
        usable_at(invites, token, 0) is Some ==> uses_of(
            used_once(invites, usable_at(invites, token, 0)->0),
            token,
        ) == uses_of(invites, token) - 1,
{
    usable_is_usable(invites, token, 0);
    match usable_at(invites, token, 0) {
        Some(i) => {
            one_use_less(invites, token, i);
            dead_invites_have_no_uses(
                invites.update(
                    i,
                    Invite { uses_left: (invites[i].uses_left - 1) as u32, ..invites[i] },
                ),
                token,
            );
        },
        None => {
            no_live_invite_no_uses(invites, token);
        },
    }
}

/// Admits someone who joins: with a name, and a password of at least eight bytes.
pub fn admit_join(accounts: bool, username: &str, password: &str) -> (r: Result<String, Refusal>)
    ensures
        match r {
            Ok(n) => accounts && n@ == spec_trim(username@) && n@.len() > 0
                && password.spec_bytes().len() as usize >= 8,
            Err(e) => if !accounts {
                e.v() == (501u16, "auth not configured"@, true)
            } else {
                (spec_trim(username@).len() == 0 || (password.spec_bytes().len() as usize) < 8)
                    && e.v() == (400u16, "username and a password (8+ chars) required"@, true)
            },
        },
{
    if !accounts {
        return Err(json(501, "auth not configured"));
    }
    let name = trim(username);
    if name.as_str().is_empty() || password.len() < 8 {
        return Err(json(400, "username and a password (8+ chars) required"));
    }
    Ok(name)
}

/// The answer to a name that is taken.
pub fn name_taken() -> (e: Refusal)
    ensures
        e.v() == (409u16, "username already taken"@, true),
{
    json(409, "username already taken")
}

/// The head and the style of the join page.
pub const JOIN_HEAD: &'static str =
    "<!doctype html><meta charset=\"utf-8\"><meta name=\"viewport\" content=\"width=device-width,initial-scale=1\"><title>Join</title>\n<style>body{font-family:-apple-system,system-ui,sans-serif;background:#0b1020;color:#e6ecff;display:grid;place-items:center;min-height:100vh;margin:0}\n.card{background:#121a30;border:1px solid #24304f;border-radius:16px;padding:34px;width:340px;box-shadow:0 20px 60px rgba(0,0,0,.4)}\nh1{font-size:20px;margin:0 0 6px} .sub{color:#8b98b8;font-size:13px;margin:0 0 18px}\ninput{width:100%;box-sizing:border-box;background:#0b1020;color:#e6ecff;border:1px solid #24304f;border-radius:10px;padding:11px 13px;font-size:14px;margin-bottom:10px}\nbutton{width:100%;background:#22d3ee;color:#06202a;border:none;border-radius:10px;padding:12px;font-size:14px;font-weight:700;cursor:pointer}\n#err{color:#f87171;font-size:12.5px;margin-top:10px;min-height:16px}</style>\n<div class=\"card\">";

/// The form of the join page, up to the token.
pub const JOIN_FORM: &'static str =
    "</h1><p class=\"sub\">Create your account to join the workspace.</p>\n<input id=\"u\" placeholder=\"username\" autocomplete=\"username\">\n<input id=\"n\" placeholder=\"display name (optional)\">\n<input id=\"p\" type=\"password\" placeholder=\"password\" autocomplete=\"new-password\">\n<button onclick=\"go()\">Join workspace</button><div id=\"err\"></div>\n<script>async function go(){const r=await fetch('/api/workspace/join',{method:'POST',headers:{'Content-Type':'application/json'},body:JSON.stringify({token:'";

/// The form of the join page, from the token on.
pub const JOIN_SCRIPT: &'static str =
    "',username:u.value.trim(),password:p.value,name:n.value.trim()})});if(r.ok)location.href='/';else document.getElementById('err').textContent=(await r.json().catch(()=>({}))).error||'could not join';}\ndocument.addEventListener('keydown',e=>{if(e.key==='Enter')go()});</script>";

/// The name on the join page: the workspace's, where it has one.
pub open spec fn join_name(workspace: Seq<char>) -> Seq<char> {
    if spec_trim(workspace).len() == 0 {
        "CoXAgent"@
    } else {
        workspace
    }
}

pub open spec fn join_html(workspace: Seq<char>, valid: bool, token: Seq<char>) -> Seq<char> {
    let n = spec_html_escape(join_name(workspace));
    JOIN_HEAD@ + (if valid {
        "<h1>Join "@ + n + JOIN_FORM@ + spec_html_escape(token) + JOIN_SCRIPT@
    } else {
        "<h1>"@ + n
            + "</h1><p class=\"sub\">This invite link is invalid or has been used up. Ask an admin for a new one.</p>"@
    }) + "</div>"@
}

/// The page that someone who was invited lands on.
pub fn join_page(workspace: &str, valid: bool, token: &str) -> (r: String)
    ensures
        r@ == join_html(workspace@, valid, token@),
{
    let name = if is_blank(workspace) {
        html_escape("CoXAgent")
    } else {
        html_escape(workspace)
    };
    let mut body = String::new();
    if valid {
        let t = html_escape(token);
        body = owned("<h1>Join ");
        body.append(name.as_str());
        body.append(JOIN_FORM);
        body.append(t.as_str());
        body.append(JOIN_SCRIPT);
    } else {
        body = owned("<h1>");
        body.append(name.as_str());
        body.append(
            "</h1><p class=\"sub\">This invite link is invalid or has been used up. Ask an admin for a new one.</p>",
        );
    }
    join3(JOIN_HEAD, body.as_str(), "</div>")
}

/// Admits a reader of the pending invites.
pub fn admit_invite_list(accounts: bool, user: &Option<AuthUser>) -> (r: Result<(), Refusal>)
    ensures
        match r {
            Ok(_) => !accounts || (user is Some && user->0.role.spec_can_manage()),
            Err(e) => accounts && (user is None || !user->0.role.spec_can_manage()) && e.v() == (
                403u16,
                "admin role required"@,
                false,
            ),
        },
{
    if accounts {
        let ok = match user {
            Some(u) => u.role.can_manage(),
            None => false,
        };
        if !ok {
            return Err(plain(403, "admin role required"));
        }
    }
    Ok(())
}

/// Who owns the hub invites into any project; on a hub with spaces the others invite into the
/// projects of their own spaces alone.
pub proof fn an_admin_invites_into_their_own_spaces(
    is_super: bool,
    spaces: Seq<Space>,
    mine: Seq<usize>,
    projects: Seq<String>,
    k: int,
)
    ensures
        may_invite(true, spaces, mine, projects),
        spaces.len() == 0 ==> may_invite(is_super, spaces, mine, projects),
        !is_super && spaces.len() > 0 && may_invite(is_super, spaces, mine, projects) && 0 <= k
            < projects.len() ==> exists|i: int|
            0 <= i < mine.len() && 0 <= (#[trigger] mine[i]) < spaces.len() && texts(
                spaces[mine[i] as int].projects@,
            ).contains(projects[k]@),
        spaces.len() > 0 && mine.len() == 0 && projects.len() > 0 ==> !may_invite(
            false,
            spaces,
            mine,
            projects,
        ),
{
    if !is_super && spaces.len() > 0 && may_invite(is_super, spaces, mine, projects) && 0 <= k
        < projects.len() {
        assert(in_spaces(spaces, mine, projects[k]@));
    }
    if spaces.len() > 0 && mine.len() == 0 && projects.len() > 0 {
        assert(!in_spaces(spaces, mine, projects[0]@));
    }
}

/// Withdrawing an invitation leaves the others as they were, in their order.
pub proof fn the_other_invitations_stay(invites: Seq<Invite>, token: Seq<char>)
    ensures
        collect(invites, other_token(token)) == invites.filter(|i: Invite| i.token@ != token),
{
    kept_is_filtered(invites, other_token(token), |i: Invite| i.token@ != token);
}

/// The use of an invitation takes one of its uses and touches no other; one that is used up goes.
pub proof fn a_use_touches_no_other_invitation(invites: Seq<Invite>, i: int)
    requires
        0 <= i < invites.len(),
        invites[i].uses_left > 0,
    ensures
        used_once(invites, i) == invites.update(
            i,
            Invite { uses_left: (invites[i].uses_left - 1) as u32, ..invites[i] },
        ).filter(|x: Invite| x.uses_left > 0),
        forall|token: Seq<char>|
            token != invites[i].token@ ==> uses_of(used_once(invites, i), token) == #[trigger] uses_of(
                invites,
                token,
            ),
{
    let now = invites.update(
        i,
        Invite { uses_left: (invites[i].uses_left - 1) as u32, ..invites[i] },
    );
    kept_is_filtered(now, live_rule(), |x: Invite| x.uses_left > 0);
    assert forall|token: Seq<char>| token != invites[i].token@ implies uses_of(
        used_once(invites, i),
        token,
    ) == #[trigger] uses_of(invites, token) by {
        dead_invites_have_no_uses(now, token);
        foreign_uses_stay(invites, i, token);
    }
}

proof fn foreign_uses_stay(invites: Seq<Invite>, i: int, token: Seq<char>)
    requires
        0 <= i < invites.len(),
        token != invites[i].token@,
    ensures
        uses_of(
            invites.update(
                i,
                Invite { uses_left: (invites[i].uses_left - 1) as u32, ..invites[i] },
            ),
            token,
        ) == uses_of(invites, token),
    decreases invites.len(),
{
    let new = Invite { uses_left: (invites[i].uses_left - 1) as u32, ..invites[i] };
    let now = invites.update(i, new);
    let init = invites.drop_last();
    if i < invites.len() - 1 {
        foreign_uses_stay(init, i, token);
        assert(now.drop_last() =~= init.update(i, new));
    } else {
        assert(now.drop_last() =~= init);
    }
}

/// The join page greets by the workspace's name, and hands the token to the form only where the
/// invitation is good.
pub proof fn the_join_page_keeps_a_dead_token_to_itself(
    workspace: Seq<char>,
    a: Seq<char>,
    b: Seq<char>,
)
    ensures
        join_html(workspace, false, a) == join_html(workspace, false, b),
        spec_trim(workspace).len() > 0 ==> join_name(workspace) == workspace,
        spec_trim(workspace).len() == 0 ==> join_name(workspace) == "CoXAgent"@,
        join_html(workspace, true, a) == JOIN_HEAD@ + ("<h1>Join "@ + spec_html_escape(
            join_name(workspace),
        ) + JOIN_FORM@ + spec_html_escape(a) + JOIN_SCRIPT@) + "</div>"@,
{
}

} // verus!
