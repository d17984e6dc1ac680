//! Public share links: secret addresses that unlock one project's read-only status page.

use crate::reply::{not_found, plain, Refusal};
use crate::text::{head, owned, same, spec_head, spec_trim, trim};
use vstd::prelude::*;

verus! {

/// What a browser may load on the public page: nothing but inline style.
pub const SHARE_PAGE_CSP: &'static str =
    "default-src 'none'; style-src 'unsafe-inline'; img-src data:; base-uri 'none'; form-action 'none'; frame-ancestors 'none'";

/// Whether a character is a hexadecimal digit in lower case.
pub open spec fn is_hex(c: char) -> bool {
    ('0' <= c <= '9') || ('a' <= c <= 'f')
}

/// Whether a text has the form of a version 4 UUID without hyphens.
pub open spec fn is_token(s: Seq<char>) -> bool {
    &&& s.len() == 32
    &&& forall|i: int| 0 <= i < s.len() ==> is_hex(#[trigger] s[i])
    &&& s[12] == '4'
    &&& s[16] == '8' || s[16] == '9' || s[16] == 'a' || s[16] == 'b'
}

/// `uuid::Uuid::new_v4` in its simple form: 32 digits, of which the version and the variant are
/// fixed. The others are random, and nothing is said of them.
#[verifier::external_body]
fn uuid_v4_simple() -> (r: String)
    ensures
        is_token(r@),
{
    uuid::Uuid::new_v4().simple().to_string()
}

/// Mints the secret of a share link.
pub fn mint_share_token() -> (r: String)
    ensures
        is_token(r@),
{
    uuid_v4_simple()
}

/// A share link. Whoever holds the token may read the project's status page.
#[derive(Clone, Debug)]
pub struct ShareLink {
    pub token: String,
    pub project_id: String,
    pub name: String,
    pub created_by: String,
    pub created_at: String,
    pub revoked: bool,
}

/// The refusal of who does not manage, and of a project that is not there.
pub open spec fn link_refusal(may_manage: bool, exists_: bool) -> Option<(u16, Seq<char>, bool)> {
    if !may_manage {
        Some((403, "admin role required"@, false))
    } else if !exists_ {
        Some((404, "no such project"@, false))
    } else {
        None
    }
}

/// Admits the management of a project's links.
pub fn admit_links(may_manage: bool, exists_: bool) -> (r: Result<(), Refusal>)
    ensures
        match r {
            Ok(_) => link_refusal(may_manage, exists_) is None,
            Err(e) => link_refusal(may_manage, exists_) == Some(e.v()),
        },
{
    if !may_manage {
        Err(plain(403, "admin role required"))
    } else if !exists_ {
        Err(not_found())
    } else {
        Ok(())
    }
}

/// The label of a link: at most 80 characters.
pub open spec fn label_of(name: Option<String>) -> Seq<char> {
    match name {
        Some(n) => spec_head(spec_trim(n@), 80),
        None => Seq::empty(),
    }
}

/// Whether no two links have the same token.
pub open spec fn distinct_tokens(links: Seq<ShareLink>) -> bool {
    forall|i: int, j: int|
        0 <= i < j < links.len() ==> (#[trigger] links[i]).token@ != (#[trigger] links[j]).token@
}

/// Whether a link has that token.
pub open spec fn has_token(links: Seq<ShareLink>, token: Seq<char>) -> bool {
    exists|i: int| 0 <= i < links.len() && (#[trigger] links[i]).token@ == token
}

/// Adds a link to a project, under a token that was just minted.
pub fn create_link(
    links: &mut Vec<ShareLink>,
    token: &str,
    project: &str,
    name: &Option<String>,
    by: &str,
    at: &str,
)
    ensures
        final(links)@.len() == old(links)@.len() + 1,
        final(links)@.drop_last() == old(links)@,
        ({
            let l = final(links)@.last();
            l.token@ == token@ && l.project_id@ == project@ && l.name@ == label_of(*name)
                && l.created_by@ == by@ && l.created_at@ == at@ && !l.revoked
        }),
        distinct_tokens(old(links)@) && !has_token(old(links)@, token@) ==> distinct_tokens(
            final(links)@,
        ),
{
    let label = match name {
        Some(n) => {
            let t = trim(n.as_str());
            head(t.as_str(), 80)
        },
        None => String::new(),
    };
    let ghost before = links@;
    links.push(
        ShareLink {
            token: owned(token),
            project_id: owned(project),
            name: label,
            created_by: owned(by),
            created_at: owned(at),
            revoked: false,
        },
    );
    assert(links@.drop_last() =~= before);
}

/// The position of the project's first link with that token.
pub open spec fn link_index(
    links: Seq<ShareLink>,
    token: Seq<char>,
    project: Seq<char>,
    i: int,
) -> Option<int>
    decreases links.len() - i,
{
    if i < 0 || i >= links.len() {
        None
    } else if links[i].token@ == token && links[i].project_id@ == project {
        Some(i)
    } else {
        link_index(links, token, project, i + 1)
    }
}

/// Revokes a link of a project. The record stays; its address is dead.
pub fn revoke_link(links: &mut Vec<ShareLink>, token: &str, project: &str) -> (r: Result<
    (),
    Refusal,
>)
    ensures
        match r {
            Ok(_) => link_index(old(links)@, token@, project@, 0) is Some && ({
                let i = link_index(old(links)@, token@, project@, 0)->0;
                final(links)@ == old(links)@.update(
                    i,
                    ShareLink { revoked: true, ..old(links)@[i] },
                )
            }),
            Err(e) => link_index(old(links)@, token@, project@, 0) is None && final(links)@ == old(
                links,
            )@ && e.v() == (404u16, "no such project"@, false),
        },
        distinct_tokens(old(links)@) ==> distinct_tokens(final(links)@),
{
    let mut i: usize = 0;
    while i < links.len()
        invariant
            i <= links.len(),
            links@ == old(links)@,
            link_index(links@, token@, project@, 0) == link_index(
                links@,
                token@,
                project@,
                i as int,
            ),
        decreases links.len() - i,
    {
        if same(links[i].token.as_str(), token) && same(links[i].project_id.as_str(), project) {
            links[i].revoked = true;
            assert(links@ =~= old(links)@.update(
                i as int,
                ShareLink { revoked: true, ..old(links)@[i as int] },
            ));
            return Ok(());
        }
        i += 1;
    }
    Err(not_found())
}

/// The project that a token unlocks: that of the first live link with it.
pub open spec fn unlocked(links: Seq<ShareLink>, token: Seq<char>, i: int) -> Option<Seq<char>>
    decreases links.len() - i,
{
    if i < 0 || i >= links.len() {
        None
    } else if links[i].token@ == token && !links[i].revoked {
        Some(links[i].project_id@)
    } else {
        unlocked(links, token, i + 1)
    }
}

/// The project that a token unlocks. A token that is unknown and one that is revoked are
/// answered alike, so that probing cannot tell them apart.
pub fn resolve_token(links: &Vec<ShareLink>, token: &str) -> (r: Result<String, Refusal>)
    ensures
        match r {
            Ok(p) => unlocked(links@, token@, 0) == Some(p@),
            Err(e) => unlocked(links@, token@, 0) is None && e.v() == (
                404u16,
                "no such project"@,
                false,
            ),
        },
{
    let mut i: usize = 0;
    while i < links.len()
        invariant
            i <= links.len(),
            unlocked(links@, token@, 0) == unlocked(links@, token@, i as int),
        decreases links.len() - i,
    {
        if same(links[i].token.as_str(), token) && !links[i].revoked {
            return Ok(links[i].project_id.clone());
        }
        i += 1;
    }
    Err(not_found())
}

proof fn dead_token_unlocks_nothing(links: Seq<ShareLink>, token: Seq<char>, i: int)
    requires
        0 <= i,
        forall|j: int|
            0 <= j < links.len() && (#[trigger] links[j]).token@ == token ==> links[j].revoked,
    ensures
        unlocked(links, token, i) is None,
    decreases links.len() - i,
{
    if i < links.len() {
        dead_token_unlocks_nothing(links, token, i + 1);
    }
}

proof fn link_index_hits(links: Seq<ShareLink>, token: Seq<char>, project: Seq<char>, i: int)
    requires
        0 <= i,
        link_index(links, token, project, i) is Some,
    ensures
        i <= link_index(links, token, project, i)->0 < links.len(),
        links[link_index(links, token, project, i)->0].token@ == token,
        links[link_index(links, token, project, i)->0].project_id@ == project,
    decreases links.len() - i,
{
    if !(links[i].token@ == token && links[i].project_id@ == project) {
        link_index_hits(links, token, project, i + 1);
    }
}

/// Revocation kills the address on the next fetch: once revoked, a token unlocks nothing.
pub proof fn a_revoked_link_unlocks_nothing(links: Seq<ShareLink>, token: Seq<char>, project: Seq<char>)
    requires
        distinct_tokens(links),
        link_index(links, token, project, 0) is Some,
    ensures
        ({
            let i = link_index(links, token, project, 0)->0;
            unlocked(links.update(i, ShareLink { revoked: true, ..links[i] }), token, 0) is None
        }),
{
    link_index_hits(links, token, project, 0);
    let i = link_index(links, token, project, 0)->0;
    let after = links.update(i, ShareLink { revoked: true, ..links[i] });
    assert forall|j: int|
        0 <= j < after.len() && (#[trigger] after[j]).token@ == token implies after[j].revoked by {
        if j != i {
            assert(links[j].token@ == token && links[i].token@ == token);
            if j < i {
                assert(links[j].token@ != links[i].token@);
            } else {
                assert(links[i].token@ != links[j].token@);
            }
        }
    }
    dead_token_unlocks_nothing(after, token, 0);
}

/// A fresh link unlocks its own project: a token that no link had unlocks the project that it
/// was minted for.
pub proof fn a_fresh_link_unlocks_its_project(links: Seq<ShareLink>, new: ShareLink, i: int)
    requires
        0 <= i <= links.len(),
        !new.revoked,
        forall|j: int| 0 <= j < links.len() ==> (#[trigger] links[j]).token@ != new.token@,
    ensures
        unlocked(links.push(new), new.token@, i) == Some(new.project_id@),
    decreases links.len() - i,
{
    if i < links.len() {
        assert(links.push(new)[i] == links[i]);
        a_fresh_link_unlocks_its_project(links, new, i + 1);
    }
}

/// A link belongs to its project alone: another project cannot revoke it.
pub proof fn a_foreign_project_revokes_nothing(
    links: Seq<ShareLink>,
    token: Seq<char>,
    project: Seq<char>,
    i: int,
)
    requires
        0 <= i,
        forall|j: int|
            0 <= j < links.len() && (#[trigger] links[j]).token@ == token ==> links[j].project_id@
                != project,
    ensures
        link_index(links, token, project, i) is None,
    decreases links.len() - i,
{
    if i < links.len() {
        a_foreign_project_revokes_nothing(links, token, project, i + 1);
    }
}

/// A link is found by its token within its project: the first that fits, and none only where none
/// does.
pub proof fn a_link_is_found_by_token_and_project(links: Seq<ShareLink>, token: Seq<char>, project: Seq<char>, i: int)
    requires
        0 <= i,
    ensures
        match link_index(links, token, project, i) {
            Some(v) => i <= v < links.len() && links[v].token@ == token && links[v].project_id@ == project && (forall|j: int|
                i <= j < v ==> !((#[trigger] links[j]).token@ == token && links[j].project_id@ == project)),
            None => forall|j: int| i <= j < links.len() ==> !((#[trigger] links[j]).token@ == token && links[j].project_id@ == project),
        },
    decreases links.len() - i,
{
    if i < links.len() && !(links[i].token@ == token && links[i].project_id@ == project) {
        a_link_is_found_by_token_and_project(links, token, project, i + 1);
    }
}

/// A token unlocks a project exactly where a live link of that project has it; a revoked one and
/// an unknown one unlock nothing.
pub proof fn a_token_unlocks_what_a_live_link_names(
    links: Seq<ShareLink>,
    token: Seq<char>,
    i: int,
)
    requires
        0 <= i,
    ensures
        match unlocked(links, token, i) {
            Some(p) => exists|k: int|
                i <= k < links.len() && (#[trigger] links[k]).token@ == token && !links[k].revoked
                    && links[k].project_id@ == p && (forall|j: int|
                    i <= j < k ==> (#[trigger] links[j]).token@ != token || links[j].revoked),
            None => forall|j: int|
                i <= j < links.len() ==> (#[trigger] links[j]).token@ != token || links[j].revoked,
        },
    decreases links.len() - i,
{
    if i < links.len() {
        if links[i].token@ == token && !links[i].revoked {
            assert(links[i].project_id@ == links[i].project_id@);
        } else {
            a_token_unlocks_what_a_live_link_names(links, token, i + 1);
        }
    }
}

/// A link is managed by those who manage, on a project that exists.
pub proof fn only_managers_keep_links(may_manage: bool, exists_: bool)
    ensures
        link_refusal(may_manage, exists_) is None <==> may_manage && exists_,
        !may_manage ==> link_refusal(may_manage, exists_) == Some(
            (403u16, "admin role required"@, false),
        ),
{
}

/// A label is what was given, trimmed and cut to eighty characters; without one it is empty.
pub proof fn a_label_is_what_was_given(name: String)
    ensures
        label_of(None).len() == 0,
        label_of(Some(name)).len() <= 80,
        label_of(Some(name)).is_prefix_of(spec_trim(name@)),
        spec_trim(name@).len() <= 80 ==> label_of(Some(name)) == spec_trim(name@),
{
    let t = spec_trim(name@);
    let l = label_of(Some(name));
    assert(l =~= t.subrange(0, l.len() as int));
}

/// A token is taken once a link bears it; another token does not count.
pub proof fn a_token_is_taken_once_a_link_bears_it(
    links: Seq<ShareLink>,
    link: ShareLink,
    token: Seq<char>,
)
    ensures
        !has_token(Seq::empty(), token),
        has_token(links.push(link), token) <==> has_token(links, token) || link.token@ == token,
{
    let more = links.push(link);
    if has_token(links, token) {
        let i = choose|i: int| 0 <= i < links.len() && (#[trigger] links[i]).token@ == token;
        assert(more[i].token@ == token);
    }
    if link.token@ == token {
        assert(more[links.len() as int].token@ == token);
    }
    if has_token(more, token) {
        let i = choose|i: int| 0 <= i < more.len() && (#[trigger] more[i]).token@ == token;
        if i < links.len() {
            assert(links[i].token@ == token);
        }
    }
}

/// A token is made of digits and the letters from `a` to `f`, so it can stand in an address as it
/// is.
pub proof fn a_token_stands_in_an_address(s: Seq<char>, i: int)
    requires
        is_token(s),
        0 <= i < 32,
    ensures
        s.len() == 32,
        '0' <= s[i] <= '9' || 'a' <= s[i] <= 'f',
        s[12] == '4',
        s[16] == '8' || s[16] == '9' || s[16] == 'a' || s[16] == 'b',
{
    assert(is_hex(s[i]));
}

/// Every digit and every letter from `a` to `f` may stand in a token.
pub proof fn any_digit_may_stand_in_a_token(c: char)
    ensures
        is_hex(c) <==> '0' <= c <= '9' || 'a' <= c <= 'f',
{
}

} // verus!
