//! The hub's administration: spaces and their budgets, who is in them, the file browser.

use crate::fleet::opt_str;
use crate::guards::{every_role_is_listed_once, AuthRole, AuthUser};
use crate::lists::{
    collect, collect_step, collected_has_source, drop_text, dropped_text_is_gone,
    dropping_keeps_others, keep_marked, kept_is_filtered, marked_is_collected, source_is_collected,
};
use crate::order::{
    sort, sorted, sorting_adds_nothing, sorting_orders_and_keeps, text_le, text_le_is_an_order,
    text_leq, Ordered,
};
use crate::reply::{internal_error, not_found, plain, Refusal};
use crate::spaces::{
    an_absent_identifier_is_nowhere, find_space, listed, space_index, well_kept, Space,
};
use crate::text::{
    copy_texts, has_name, has_text, is_blank, lowercase, owned, same, same_name, spec_ascii_lower,
    spec_has_name, spec_lowercase, spec_split, spec_trim, split, split_nonempty, texts, trim,
};
use vstd::prelude::*;

verus! {

/// What a pass of the budget watch does about a space.
#[derive(Clone, Copy, Debug, PartialEq, Eq, Structural)]
pub struct BudgetActions {
    pub warn: bool,
    pub pause: bool,
}

/// What a pass does, given what was done before: whether the space has a cap, whether its spend
/// reached it, whether it comes near it, and whether it is paused and was warned already.
pub open spec fn budget_actions(
    capped: bool,
    over: bool,
    near: bool,
    flagged: bool,
    warned: bool,
) -> BudgetActions {
    BudgetActions { warn: capped && near && !warned, pause: capped && over && !flagged }
}

/// The mark that a pass leaves: whether the space has a cap and the condition holds.
pub open spec fn marked(capped: bool, holds: bool) -> bool {
    capped && holds
}

fn set_mark(list: &mut Vec<String>, id: &str, on: bool)
    ensures
        texts(final(list)@).contains(id@) == on,
        forall|x: Seq<char>|
            x != id@ ==> (#[trigger] texts(final(list)@).contains(x)) == texts(
                old(list)@,
            ).contains(x),
{
    broadcast use crate::text::texts_push;

    let ghost before = list@;
    drop_text(list, id);
    proof {
        dropped_text_is_gone(before, id@);
        assert forall|x: Seq<char>| x != id@ implies (#[trigger] texts(list@).contains(x)) == texts(
            before,
        ).contains(x) by {
            dropping_keeps_others(before, id@, x);
        }
    }
    if on {
        let ghost mid = list@;
        list.push(owned(id));
        proof {
            let t = texts(list@);
            assert(t[mid.len() as int] == id@);
            assert forall|x: Seq<char>| x != id@ implies (#[trigger] t.contains(x)) == texts(
                mid,
            ).contains(x) by {
                if texts(mid).contains(x) {
                    let k = choose|k: int| 0 <= k < texts(mid).len() && texts(mid)[k] == x;
                    assert(t[k] == x);
                }
                if t.contains(x) {
                    let k = choose|k: int| 0 <= k < t.len() && t[k] == x;
                    assert(k < mid.len());
                    assert(texts(mid)[k] == x);
                }
            }
        }
    }
}

/// One pass of the budget watch over a space. The agents are paused once per breach, and the
/// warning is given once per approach; a space that falls back is armed again.
pub fn watch_space(
    flagged: &mut Vec<String>,
    warned: &mut Vec<String>,
    id: &str,
    capped: bool,
    over: bool,
    near: bool,
) -> (r: BudgetActions)
    ensures
        r == budget_actions(
            capped,
            over,
            near,
            texts(old(flagged)@).contains(id@),
            texts(old(warned)@).contains(id@),
        ),
        texts(final(flagged)@).contains(id@) == marked(capped, over),
        texts(final(warned)@).contains(id@) == marked(capped, near),
        forall|x: Seq<char>|
            x != id@ ==> (#[trigger] texts(final(flagged)@).contains(x)) == texts(
                old(flagged)@,
            ).contains(x),
        forall|x: Seq<char>|
            x != id@ ==> (#[trigger] texts(final(warned)@).contains(x)) == texts(
                old(warned)@,
            ).contains(x),
{
    let was_flagged = has_text(flagged, id);
    let was_warned = has_text(warned, id);
    set_mark(flagged, id, capped && over);
    set_mark(warned, id, capped && near);
    BudgetActions { warn: capped && near && !was_warned, pause: capped && over && !was_flagged }
}

/// A breach pauses once: after a pass at the cap the next pass at the cap does not pause again,
/// after a pass below the cap it does. Warnings go the same way by how near the cap is.
pub proof fn a_breach_pauses_once(
    over_before: bool,
    near_before: bool,
    over: bool,
    near: bool,
)
    ensures
        ({
            let a = budget_actions(
                true,
                over,
                near,
                marked(true, over_before),
                marked(true, near_before),
            );
            a.pause == (over && !over_before) && a.warn == (near && !near_before)
        }),
{
}

/// An entry of a directory.
#[derive(Clone, Debug)]
pub struct FileEntry {
    pub name: String,
    pub dir: bool,
    pub size: u64,
}

impl FileEntry {
    fn copy(&self) -> (r: FileEntry)
        ensures
            r == *self,
    {
        FileEntry { name: self.name.clone(), dir: self.dir, size: self.size }
    }
}

impl Ordered for FileEntry {
    /// Directories first, then by name.
    open spec fn le(self, other: FileEntry) -> bool {
        if self.dir != other.dir {
            self.dir
        } else {
            text_le(self.name@, other.name@)
        }
    }

    fn leq(&self, other: &FileEntry) -> (r: bool) {
        if self.dir != other.dir {
            self.dir
        } else {
            text_leq(self.name.as_str(), other.name.as_str())
        }
    }

    proof fn total(a: FileEntry, b: FileEntry) {
        text_le_is_an_order(a.name@, b.name@, a.name@);
    }

    proof fn transitive(a: FileEntry, b: FileEntry, c: FileEntry) {
        text_le_is_an_order(a.name@, b.name@, c.name@);
    }
}

/// Whether an entry is left out of the browser.
pub open spec fn is_noise(name: Seq<char>) -> bool {
    name == "target"@ || name == ".git"@ || name == "node_modules"@ || name == ".DS_Store"@
}

pub open spec fn entry_rule() -> spec_fn(FileEntry) -> Option<FileEntry> {
    |e: FileEntry|
        if is_noise(e.name@) {
            None
        } else {
            Some(e)
        }
}

/// What the browser lists of a directory: directories first, each kind by name, without the
/// build and version-control directories.
pub fn list_directory(entries: &Vec<FileEntry>) -> (r: Vec<FileEntry>)
    ensures
        r@ == sorted(collect(entries@, entry_rule())),
{
    let mut kept: Vec<FileEntry> = Vec::new();
    let ghost f = entry_rule();
    let mut i: usize = 0;
    assert(entries@.take(0) =~= Seq::empty());
    while i < entries.len()
        invariant
            i <= entries.len(),
            f == entry_rule(),
            kept@ == collect(entries@.take(i as int), f),
        decreases entries.len() - i,
    {
        proof {
            collect_step(entries@, f, i as int);
        }
        let n = entries[i].name.as_str();
        if !(same(n, "target") || same(n, ".git") || same(n, "node_modules") || same(
            n,
            ".DS_Store",
        )) {
            kept.push(entries[i].copy());
        }
        i += 1;
    }
    assert(entries@.take(entries@.len() as int) =~= entries@);
    sort(kept)
}

/// Whether two lists share a text.
pub open spec fn share(a: Seq<String>, b: Seq<String>) -> bool {
    exists|i: int| 0 <= i < a.len() && texts(b).contains((#[trigger] a[i])@)
}

fn shares(a: &Vec<String>, b: &Vec<String>) -> (r: bool)
    ensures
        r == share(a@, b@),
{
    let mut i: usize = 0;
    while i < a.len()
        invariant
            i <= a.len(),
            forall|j: int| 0 <= j < i ==> !texts(b@).contains((#[trigger] a@[j])@),
        decreases a.len() - i,
    {
        if has_text(b, a[i].as_str()) {
            return true;
        }
        i += 1;
    }
    false
}

/// Whether a space is shown to an account: its owner sees all, others those they administer, are
/// a member of, or hold a project in.
pub open spec fn space_visible(
    s: Space,
    sees_all: bool,
    me: Seq<char>,
    my_projects: Seq<String>,
) -> bool {
    sees_all || spec_has_name(s.admins@, me) || spec_has_name(s.members@, me) || share(
        s.projects@,
        my_projects,
    )
}

/// The positions of the spaces that are shown, of the first `n`.
pub open spec fn visible_positions(
    spaces: Seq<Space>,
    n: int,
    sees_all: bool,
    me: Seq<char>,
    my_projects: Seq<String>,
) -> Seq<usize>
    decreases n,
{
    if n <= 0 {
        Seq::empty()
    } else {
        let init = visible_positions(spaces, n - 1, sees_all, me, my_projects);
        if space_visible(spaces[n - 1], sees_all, me, my_projects) {
            init.push((n - 1) as usize)
        } else {
            init
        }
    }
}

/// The positions of the spaces that an account may see. A hub without accounts shows all.
pub fn spaces_for(spaces: &Vec<Space>, sees_all: bool, me: &str, my_projects: &Vec<String>) -> (r:
    Vec<usize>)
    ensures
        r@ == visible_positions(spaces@, spaces@.len() as int, sees_all, me@, my_projects@),
{
    let mut r: Vec<usize> = Vec::new();
    let mut i: usize = 0;
    while i < spaces.len()
        invariant
            i <= spaces.len(),
            r@ == visible_positions(spaces@, i as int, sees_all, me@, my_projects@),
        decreases spaces.len() - i,
    {
        let s = &spaces[i];
        if sees_all || has_name(&s.admins, me) || has_name(&s.members, me) || shares(
            &s.projects,
            my_projects,
        ) {
            r.push(i);
        }
        i += 1;
    }
    r
}

/// What a space is asked to become.
#[derive(Clone, Debug)]
pub struct SpaceReq {
    pub name: String,
    pub tagline: String,
    pub admins: Vec<String>,
    pub projects: Vec<String>,
    pub members: Vec<String>,
}

/// A list that is being checked: what was taken so far, or why it is refused.
pub type Checked = Result<Seq<Seq<char>>, Seq<char>>;

/// One name more: trimmed, once, and known; `known` being empty means that anything is.
pub open spec fn check_name(acc: Checked, name: Seq<char>, known: Seq<Seq<char>>, users: bool) -> Checked {
    match acc {
        Err(e) => Err(e),
        Ok(out) => {
            let t = spec_trim(name);
            if t.len() == 0 || out.contains(t) {
                Ok(out)
            } else if users && known.len() > 0 && !known.contains(spec_lowercase(t)) {
                Err("unknown user: "@ + t)
            } else if !users && !known.contains(t) {
                Err("unknown project: "@ + t)
            } else {
                Ok(out.push(t))
            }
        },
    }
}

/// A list of names, checked one after the other.
pub open spec fn check_names(list: Seq<String>, known: Seq<Seq<char>>, users: bool) -> Checked
    decreases list.len(),
{
    if list.len() == 0 {
        Ok(Seq::empty())
    } else {
        check_name(check_names(list.drop_last(), known, users), list.last()@, known, users)
    }
}

proof fn a_refusal_stays(list: Seq<String>, known: Seq<Seq<char>>, users: bool, i: int)
    requires
        0 <= i <= list.len(),
        check_names(list.take(i), known, users) is Err,
    ensures
        check_names(list, known, users) == check_names(list.take(i), known, users),
    decreases list.len() - i,
{
    if i < list.len() {
        assert(list.take(i + 1).drop_last() =~= list.take(i));
        a_refusal_stays(list, known, users, i + 1);
    } else {
        assert(list.take(i) =~= list);
    }
}

/// The lists that match a check's outcome.
pub open spec fn same_outcome(r: Result<Vec<String>, String>, c: Checked) -> bool {
    match r {
        Ok(v) => c == Ok::<Seq<Seq<char>>, Seq<char>>(texts(v@)),
        Err(e) => c == Err::<Seq<Seq<char>>, Seq<char>>(e@),
    }
}

fn checked_names(list: &Vec<String>, known: &Vec<String>, users: bool) -> (r: Result<
    Vec<String>,
    String,
>)
    ensures
        same_outcome(r, check_names(list@, texts(known@), users)),
{
    broadcast use crate::text::texts_push, crate::text::texts_empty;

    let ghost k = texts(known@);
    assert(k.len() == known@.len());
    let mut out: Vec<String> = Vec::new();
    let mut i: usize = 0;
    assert(list@.take(0) =~= Seq::empty());
    while i < list.len()
        invariant
            i <= list.len(),
            k == texts(known@),
            k.len() == known@.len(),
            check_names(list@.take(i as int), k, users) == Ok::<Seq<Seq<char>>, Seq<char>>(
                texts(out@),
            ),
        decreases list.len() - i,
    {
        proof {
            assert(list@.take(i + 1).drop_last() =~= list@.take(i as int));
            assert(list@.take(i + 1).last() == list@[i as int]);
        }
        let t = trim(list[i].as_str());
        if !t.as_str().is_empty() && !has_text(&out, t.as_str()) {
            if users {
                let low = lowercase(t.as_str());
                if known.len() > 0 && !has_text(known, low.as_str()) {
                    let mut e = owned("unknown user: ");
                    e.append(t.as_str());
                    proof {
                        a_refusal_stays(list@, k, users, i + 1);
                    }
                    return Err(e);
                }
            } else if !has_text(known, t.as_str()) {
                let mut e = owned("unknown project: ");
                e.append(t.as_str());
                proof {
                    a_refusal_stays(list@, k, users, i + 1);
                }
                return Err(e);
            }
            let ghost before = texts(out@);
            let ghost tv = t@;
            out.push(t);
            assert(texts(out@) == before.push(tv));
            assert(check_names(list@.take(i + 1), k, users) == check_name(
                Ok(before),
                list@[i as int]@,
                k,
                users,
            ));
        }
        i += 1;
    }
    assert(list@.take(list@.len() as int) =~= list@);
    Ok(out)
}

/// The first space, other than `except`, that lists the project.
pub open spec fn other_owner(
    spaces: Seq<Space>,
    project: Seq<char>,
    except: Option<Seq<char>>,
    i: int,
) -> Option<int>
    decreases spaces.len() - i,
{
    if i < 0 || i >= spaces.len() {
        None
    } else if except != Some(spaces[i].id@) && texts(spaces[i].projects@).contains(project) {
        Some(i)
    } else {
        other_owner(spaces, project, except, i + 1)
    }
}

/// Why a claim on projects is refused: the first that belongs to another space.
pub open spec fn claim_refusal(
    spaces: Seq<Space>,
    projects: Seq<Seq<char>>,
    except: Option<Seq<char>>,
    i: int,
) -> Option<Seq<char>>
    decreases projects.len() - i,
{
    if i < 0 || i >= projects.len() {
        None
    } else {
        match other_owner(spaces, projects[i], except, 0) {
            Some(k) => Some(
                "project "@ + projects[i] + " already belongs to space "@ + spaces[k].id@,
            ),
            None => claim_refusal(spaces, projects, except, i + 1),
        }
    }
}

fn find_owner(spaces: &Vec<Space>, project: &str, except: Option<&str>) -> (r: Option<usize>)
    ensures
        match r {
            Some(i) => i < spaces.len() && other_owner(
                spaces@,
                project@,
                opt_str(except),
                0,
            ) == Some(i as int),
            None => other_owner(spaces@, project@, opt_str(except), 0) is None,
        },
{
    let ghost x = opt_str(except);
    let mut i: usize = 0;
    while i < spaces.len()
        invariant
            i <= spaces.len(),
            x == opt_str(except),
            other_owner(spaces@, project@, x, 0) == other_owner(spaces@, project@, x, i as int),
        decreases spaces.len() - i,
    {
        let excepted = match except {
            Some(id) => same(id, spaces[i].id.as_str()),
            None => false,
        };
        if !excepted && has_text(&spaces[i].projects, project) {
            return Some(i);
        }
        i += 1;
    }
    None
}

/// What a request for a space comes to: the lists to keep (admins, projects, members), or why it
/// is refused. The lengths come first, then the accounts, then the projects, then their owners.
pub open spec fn space_verdict(
    req: SpaceReq,
    known_users: Seq<Seq<char>>,
    known_projects: Seq<Seq<char>>,
    spaces: Seq<Space>,
    except: Option<Seq<char>>,
) -> Result<(Seq<Seq<char>>, Seq<Seq<char>>, Seq<Seq<char>>), Seq<char>> {
    if spec_trim(req.name@).len() > 60 {
        Err("name too long (max 60)"@)
    } else if req.tagline@.len() > 160 {
        Err("tagline too long (max 160)"@)
    } else if req.admins@.len() > 20 || req.projects@.len() > 100 || req.members@.len() > 200 {
        Err("too many admins/projects/members"@)
    } else {
        match check_names(req.admins@, known_users, true) {
            Err(e) => Err(e),
            Ok(admins) => match check_names(req.members@, known_users, true) {
                Err(e) => Err(e),
                Ok(members) => match check_names(req.projects@, known_projects, false) {
                    Err(e) => Err(e),
                    Ok(projects) => match claim_refusal(spaces, projects, except, 0) {
                        Some(e) => Err(e),
                        None => Ok((admins, projects, members)),
                    },
                },
            },
        }
    }
}

/// The accounts that a request for a space is checked against: their names in lower case.
pub fn known_names(users: &Vec<AuthUser>) -> (r: Vec<String>)
    ensures
        texts(r@) == Seq::new(users@.len(), |i: int| spec_lowercase(users@[i].username@)),
{
    let mut r: Vec<String> = Vec::new();
    let mut i: usize = 0;
    while i < users.len()
        invariant
            i <= users.len(),
            r.len() == i,
            forall|j: int| 0 <= j < i ==> (#[trigger] r@[j])@ == spec_lowercase(users@[j].username@),
        decreases users.len() - i,
    {
        r.push(lowercase(users[i].username.as_str()));
        i += 1;
    }
    r
}

/// The lists of a space that passed.
#[derive(Clone, Debug)]
pub struct SpaceLists {
    pub admins: Vec<String>,
    pub projects: Vec<String>,
    pub members: Vec<String>,
}

/// Checks a request for a space against what is there: accounts have to exist (by their names in
/// lower case), projects have to be registered and free. A typo fails instead of making a space
/// that quietly covers nothing.
pub fn validate_space_req(
    req: &SpaceReq,
    known_users: &Vec<String>,
    known_projects: &Vec<String>,
    spaces: &Vec<Space>,
    except: Option<&str>,
) -> (r: Result<SpaceLists, String>)
    ensures
        match r {
            Ok(l) => space_verdict(
                *req,
                texts(known_users@),
                texts(known_projects@),
                spaces@,
                opt_str(except),
            ) == Ok::<(Seq<Seq<char>>, Seq<Seq<char>>, Seq<Seq<char>>), Seq<char>>(
                (texts(l.admins@), texts(l.projects@), texts(l.members@)),
            ),
            Err(e) => space_verdict(
                *req,
                texts(known_users@),
                texts(known_projects@),
                spaces@,
                opt_str(except),
            ) == Err::<(Seq<Seq<char>>, Seq<Seq<char>>, Seq<Seq<char>>), Seq<char>>(e@),
        },
{
    let name = trim(req.name.as_str());
    if name.as_str().unicode_len() > 60 {
        return Err(owned("name too long (max 60)"));
    }
    if req.tagline.as_str().unicode_len() > 160 {
        return Err(owned("tagline too long (max 160)"));
    }
    if req.admins.len() > 20 || req.projects.len() > 100 || req.members.len() > 200 {
        return Err(owned("too many admins/projects/members"));
    }
    let admins = match checked_names(&req.admins, known_users, true) {
        Ok(v) => v,
        Err(e) => {
            return Err(e);
        },
    };
    let members = match checked_names(&req.members, known_users, true) {
        Ok(v) => v,
        Err(e) => {
            return Err(e);
        },
    };
    let projects = match checked_names(&req.projects, known_projects, false) {
        Ok(v) => v,
        Err(e) => {
            return Err(e);
        },
    };
    let ghost x = opt_str(except);
    let ghost ps = texts(projects@);
    assert(ps.len() == projects@.len());
    let mut i: usize = 0;
    let mut refused: Option<String> = None;
    while i < projects.len() && refused.is_none()
        invariant
            i <= projects.len(),
            x == opt_str(except),
            ps == texts(projects@),
            match refused {
                None => claim_refusal(spaces@, ps, x, 0) == claim_refusal(
                    spaces@,
                    ps,
                    x,
                    i as int,
                ),
                Some(e) => claim_refusal(spaces@, ps, x, 0) == Some(e@),
            },
        decreases projects.len() - i,
    {
        let p = projects[i].as_str();
        assert(ps[i as int] == p@);
        if let Some(k) = find_owner(spaces, p, except) {
            let mut e = owned("project ");
            e.append(p);
            e.append(" already belongs to space ");
            e.append(spaces[k].id.as_str());
            refused = Some(e);
        }
        i += 1;
    }
    match refused {
        Some(e) => Err(e),
        None => Ok(SpaceLists { admins, projects, members }),
    }
}

proof fn no_owner_means_unlisted(
    spaces: Seq<Space>,
    project: Seq<char>,
    except: Option<Seq<char>>,
    i: int,
    k: int,
)
    requires
        0 <= i <= k < spaces.len(),
        except != Some(spaces[k].id@),
        other_owner(spaces, project, except, i) is None,
    ensures
        !texts(spaces[k].projects@).contains(project),
    decreases k - i,
{
    if i < k {
        no_owner_means_unlisted(spaces, project, except, i + 1, k);
    }
}

proof fn no_refusal_means_free(
    spaces: Seq<Space>,
    projects: Seq<Seq<char>>,
    except: Option<Seq<char>>,
    i: int,
    n: int,
    k: int,
)
    requires
        0 <= i <= n < projects.len(),
        0 <= k < spaces.len(),
        except != Some(spaces[k].id@),
        claim_refusal(spaces, projects, except, i) is None,
    ensures
        !texts(spaces[k].projects@).contains(projects[n]),
    decreases n - i,
{
    if i < n {
        no_refusal_means_free(spaces, projects, except, i + 1, n, k);
    } else {
        no_owner_means_unlisted(spaces, projects[n], except, 0, k);
    }
}

/// A project belongs to one space: a space with a fresh identifier, whose projects passed the
/// check, can be added and still no project is listed twice.
pub proof fn a_new_space_takes_only_free_projects(spaces: Seq<Space>, new: Space)
    requires
        well_kept(spaces),
        space_index(spaces, new.id@, 0) is None,
        claim_refusal(spaces, texts(new.projects@), None, 0) is None,
    ensures
        well_kept(spaces.push(new)),
{
    let all = spaces.push(new);
    let mine = texts(new.projects@);
    assert forall|i: int, j: int, p: Seq<char>|
        0 <= i < all.len() && 0 <= j < all.len() && i != j && (#[trigger] texts(
            all[i].projects@,
        ).contains(p)) implies !(#[trigger] texts(all[j].projects@).contains(p)) by {
        if i < spaces.len() && j < spaces.len() {
            assert(texts(spaces[i].projects@).contains(p));
        } else {
            let k = if i < spaces.len() { i } else { j };
            if mine.contains(p) {
                let n = choose|n: int| 0 <= n < mine.len() && mine[n] == p;
                no_refusal_means_free(spaces, mine, None, 0, n, k);
            }
        }
    }
    assert forall|i: int, j: int| 0 <= i < j < all.len() implies (#[trigger] all[i]).id@ != (
    #[trigger] all[j]).id@ by {
        if j == spaces.len() {
            an_absent_identifier_is_nowhere(spaces, new.id@, 0, i);
        } else {
            assert(spaces[i].id@ != spaces[j].id@);
        }
    }
}

/// A project belongs to one space: a space can be given other projects, where they passed the
/// check against the other spaces, and still no project is listed twice.
pub proof fn a_changed_space_takes_only_free_projects(spaces: Seq<Space>, at: int, changed: Space)
    requires
        well_kept(spaces),
        0 <= at < spaces.len(),
        changed.id@ == spaces[at].id@,
        claim_refusal(spaces, texts(changed.projects@), Some(changed.id@), 0) is None,
    ensures
        well_kept(spaces.update(at, changed)),
{
    let all = spaces.update(at, changed);
    let mine = texts(changed.projects@);
    assert forall|i: int, j: int, p: Seq<char>|
        0 <= i < all.len() && 0 <= j < all.len() && i != j && (#[trigger] texts(
            all[i].projects@,
        ).contains(p)) implies !(#[trigger] texts(all[j].projects@).contains(p)) by {
        if i != at && j != at {
            assert(texts(spaces[i].projects@).contains(p));
        } else {
            let k = if i == at { j } else { i };
            if k < at {
                assert(spaces[k].id@ != spaces[at].id@);
            } else {
                assert(spaces[at].id@ != spaces[k].id@);
            }
            if mine.contains(p) {
                let n = choose|n: int| 0 <= n < mine.len() && mine[n] == p;
                no_refusal_means_free(spaces, mine, Some(changed.id@), 0, n, k);
            }
        }
    }
    assert forall|i: int, j: int| 0 <= i < j < all.len() implies (#[trigger] all[i]).id@ != (
    #[trigger] all[j]).id@ by {
        assert(spaces[i].id@ != spaces[j].id@);
    }
}

proof fn a_changed_name_changes_no_order(spaces: Seq<Space>, at: int, changed: Space)
    requires
        well_kept(spaces),
        0 <= at < spaces.len(),
        changed.id == spaces[at].id,
        changed.projects == spaces[at].projects,
    ensures
        well_kept(spaces.update(at, changed)),
{
    let all = spaces.update(at, changed);
    assert forall|i: int, j: int, p: Seq<char>|
        0 <= i < all.len() && 0 <= j < all.len() && i != j && (#[trigger] texts(
            all[i].projects@,
        ).contains(p)) implies !(#[trigger] texts(all[j].projects@).contains(p)) by {
        assert(texts(spaces[i].projects@).contains(p));
    }
    assert forall|i: int, j: int| 0 <= i < j < all.len() implies (#[trigger] all[i]).id@ != (
    #[trigger] all[j]).id@ by {
        assert(spaces[i].id@ != spaces[j].id@);
    }
}

/// Creates a space.
pub fn create_space(
    spaces: &mut Vec<Space>,
    is_super: bool,
    req: &SpaceReq,
    known_users: &Vec<String>,
    known_projects: &Vec<String>,
    id: &str,
    by: &str,
    at: &str,
) -> (r: Result<(), Refusal>)
    ensures
        ({
            let verdict = space_verdict(
                *req,
                texts(known_users@),
                texts(known_projects@),
                old(spaces)@,
                None,
            );
            match r {
                Ok(_) => {
                    &&& is_super && spec_trim(req.name@).len() > 0 && verdict is Ok && space_index(
                        old(spaces)@,
                        id@,
                        0,
                    ) is None
                    &&& final(spaces)@.len() == old(spaces)@.len() + 1
                    &&& final(spaces)@.drop_last() == old(spaces)@
                    &&& ({
                        let s = final(spaces)@.last();
                        &&& s.id@ == id@ && s.name@ == spec_trim(req.name@) && s.tagline@
                            == spec_trim(req.tagline@) && s.created_by@ == by@ && s.created_at@
                            == at@
                        &&& (texts(s.admins@), texts(s.projects@), texts(s.members@))
                            == verdict->Ok_0
                    })
                },
                Err(e) => {
                    &&& final(spaces)@ == old(spaces)@
                    &&& if !is_super {
                        e.v() == (403u16, "super admin required"@, false)
                    } else if spec_trim(req.name@).len() == 0 {
                        e.v() == (400u16, "name required"@, false)
                    } else if verdict is Err {
                        e.v() == (400u16, verdict->Err_0, false)
                    } else {
                        space_index(old(spaces)@, id@, 0) is Some && e.v() == (
                            409u16,
                            "space id already exists"@,
                            false,
                        )
                    }
                },
            }
        }),
        well_kept(old(spaces)@) ==> well_kept(final(spaces)@),
{
    if !is_super {
        return Err(plain(403, "super admin required"));
    }
    let name = trim(req.name.as_str());
    if name.as_str().is_empty() {
        return Err(plain(400, "name required"));
    }
    let lists = match validate_space_req(req, known_users, known_projects, spaces, None) {
        Ok(l) => l,
        Err(e) => {
            return Err(plain(400, e.as_str()));
        },
    };
    if find_space(spaces, id).is_some() {
        return Err(plain(409, "space id already exists"));
    }
    let tagline = trim(req.tagline.as_str());
    let ghost before = spaces@;
    spaces.push(
        Space {
            id: owned(id),
            name,
            tagline,
            admins: lists.admins,
            projects: lists.projects,
            members: lists.members,
            created_by: owned(by),
            created_at: owned(at),
        },
    );
    assert(spaces@.drop_last() =~= before);
    proof {
        if well_kept(before) {
            a_new_space_takes_only_free_projects(before, spaces@.last());
            assert(spaces@ =~= before.push(spaces@.last()));
        }
    }
    Ok(())
}

/// Changes a space. Its own admins may rename it; who is in it and what it holds is the hub
/// owner's to change.
pub fn update_space(
    spaces: &mut Vec<Space>,
    is_super: bool,
    me: &str,
    sid: &str,
    req: &SpaceReq,
    known_users: &Vec<String>,
    known_projects: &Vec<String>,
) -> (r: Result<(), Refusal>)
    ensures
        ({
            let verdict = space_verdict(
                *req,
                texts(known_users@),
                texts(known_projects@),
                old(spaces)@,
                Some(sid@),
            );
            let at = space_index(old(spaces)@, sid@, 0);
            match r {
                Ok(_) => {
                    &&& verdict is Ok && at is Some && (is_super || spec_has_name(
                        old(spaces)@[at->0].admins@,
                        me@,
                    ))
                    &&& final(spaces)@.len() == old(spaces)@.len()
                    &&& forall|j: int|
                        0 <= j < old(spaces)@.len() && j != at->0 ==> final(spaces)@[j] == old(
                            spaces,
                        )@[j]
                    &&& ({
                        let s = final(spaces)@[at->0];
                        let was = old(spaces)@[at->0];
                        &&& s.id == was.id && s.created_by == was.created_by && s.created_at
                            == was.created_at
                        &&& s.name@ == if spec_trim(req.name@).len() > 0 {
                            spec_trim(req.name@)
                        } else {
                            was.name@
                        }
                        &&& s.tagline@ == spec_trim(req.tagline@)
                        &&& if is_super {
                            (texts(s.admins@), texts(s.projects@), texts(s.members@))
                                == verdict->Ok_0
                        } else {
                            s.admins == was.admins && s.projects == was.projects && s.members
                                == was.members
                        }
                    })
                },
                Err(e) => {
                    &&& final(spaces)@ == old(spaces)@
                    &&& if verdict is Err {
                        e.v() == (400u16, verdict->Err_0, false)
                    } else if at is None {
                        e.v() == (404u16, "no such project"@, false)
                    } else {
                        !is_super && !spec_has_name(old(spaces)@[at->0].admins@, me@) && e.v() == (
                            403u16,
                            "not an admin of this space"@,
                            false,
                        )
                    }
                },
            }
        }),
        well_kept(old(spaces)@) ==> well_kept(final(spaces)@),
{
    let lists = match validate_space_req(req, known_users, known_projects, spaces, Some(sid)) {
        Ok(l) => l,
        Err(e) => {
            return Err(plain(400, e.as_str()));
        },
    };
    let i = match find_space(spaces, sid) {
        None => {
            return Err(not_found());
        },
        Some(i) => i,
    };
    if !is_super && !has_name(&spaces[i].admins, me) {
        return Err(plain(403, "not an admin of this space"));
    }
    let name = trim(req.name.as_str());
    if !name.as_str().is_empty() {
        spaces[i].name = name;
    }
    spaces[i].tagline = trim(req.tagline.as_str());
    if is_super {
        spaces[i].admins = lists.admins;
        spaces[i].projects = lists.projects;
        spaces[i].members = lists.members;
    }
    proof {
        if well_kept(old(spaces)@) {
            let changed = spaces@[i as int];
            if is_super {
                a_changed_space_takes_only_free_projects(old(spaces)@, i as int, changed);
            } else {
                a_changed_name_changes_no_order(old(spaces)@, i as int, changed);
            }
            assert(spaces@ =~= old(spaces)@.update(i as int, changed));
        }
    }
    Ok(())
}

pub open spec fn other_space(sid: Seq<char>) -> spec_fn(Space) -> Option<Space> {
    |s: Space|
        if s.id@ != sid {
            Some(s)
        } else {
            None
        }
}

/// Deleting a space leaves the registry in order: what it held belongs to no other.
pub proof fn a_deleted_space_frees_its_projects(spaces: Seq<Space>, sid: Seq<char>)
    requires
        well_kept(spaces),
    ensures
        well_kept(collect(spaces, other_space(sid))),
    decreases spaces.len(),
{
    let f = other_space(sid);
    if spaces.len() > 0 {
        let init = spaces.drop_last();
        let last = spaces.last();
        assert(well_kept(init)) by {
            assert forall|i: int, j: int, p: Seq<char>|
                0 <= i < init.len() && 0 <= j < init.len() && i != j && (#[trigger] texts(
                    init[i].projects@,
                ).contains(p)) implies !(#[trigger] texts(init[j].projects@).contains(p)) by {
                assert(texts(spaces[i].projects@).contains(p));
            }
            assert forall|i: int, j: int| 0 <= i < j < init.len() implies (
            #[trigger] init[i]).id@ != (#[trigger] init[j]).id@ by {
                assert(spaces[i].id@ != spaces[j].id@);
            }
        }
        a_deleted_space_frees_its_projects(init, sid);
        let kept = collect(init, f);
        let all = collect(spaces, f);
        if f(last) is Some {
            assert(all == kept.push(last));
            assert forall|k: int| 0 <= k < kept.len() implies (#[trigger] kept[k]).id@ != last.id@
                && forall|p: Seq<char>|
                #[trigger] texts(kept[k].projects@).contains(p) ==> !texts(
                    last.projects@,
                ).contains(p) by {
                collected_has_source(init, f, k);
                let n = choose|n: int|
                    0 <= n < init.len() && f(#[trigger] init[n]) == Some(kept[k]);
                assert(init[n] == spaces[n]);
                assert(spaces[n].id@ != spaces[spaces.len() - 1].id@);
                assert forall|p: Seq<char>| #[trigger]
                    texts(kept[k].projects@).contains(p) implies !texts(last.projects@).contains(
                    p,
                ) by {
                    assert(texts(spaces[n].projects@).contains(p));
                    assert(!texts(spaces[spaces.len() - 1].projects@).contains(p));
                }
            }
            assert forall|i: int, j: int, p: Seq<char>|
                0 <= i < all.len() && 0 <= j < all.len() && i != j && (#[trigger] texts(
                    all[i].projects@,
                ).contains(p)) implies !(#[trigger] texts(all[j].projects@).contains(p)) by {
                if i < kept.len() && j < kept.len() {
                    assert(texts(kept[i].projects@).contains(p));
                } else if i < kept.len() {
                    assert(texts(kept[i].projects@).contains(p));
                } else if texts(all[j].projects@).contains(p) {
                    assert(texts(kept[j].projects@).contains(p));
                }
            }
            assert forall|i: int, j: int| 0 <= i < j < all.len() implies (
            #[trigger] all[i]).id@ != (#[trigger] all[j]).id@ by {
                assert(kept[i] == all[i]);
                if j < kept.len() {
                    assert(kept[i].id@ != kept[j].id@);
                }
            }
        }
    }
}

/// Deletes a space. Its projects stay registered.
pub fn delete_space(spaces: &mut Vec<Space>, is_super: bool, sid: &str) -> (r: Result<(), Refusal>)
    ensures
        match r {
            Ok(_) => is_super && final(spaces)@ == collect(old(spaces)@, other_space(sid@)),
            Err(e) => !is_super && final(spaces)@ == old(spaces)@ && e.v() == (
                403u16,
                "super admin required"@,
                false,
            ),
        },
        well_kept(old(spaces)@) ==> well_kept(final(spaces)@),
{
    if !is_super {
        return Err(plain(403, "super admin required"));
    }
    let ghost f = other_space(sid@);
    let mut keep: Vec<bool> = Vec::new();
    let mut i: usize = 0;
    while i < spaces.len()
        invariant
            i <= spaces.len(),
            keep.len() == i,
            spaces@ == old(spaces)@,
            forall|j: int| 0 <= j < i ==> keep@[j] == ((#[trigger] spaces@[j]).id@ != sid@),
        decreases spaces.len() - i,
    {
        keep.push(!same(spaces[i].id.as_str(), sid));
        i += 1;
    }
    proof {
        marked_is_collected(spaces@, keep@, f);
        if well_kept(old(spaces)@) {
            a_deleted_space_frees_its_projects(old(spaces)@, sid@);
        }
    }
    keep_marked(spaces, &keep);
    Ok(())
}

/// Whether an account counts as a member of a space: an admin or member by name, or someone on
/// one of its projects.
pub open spec fn is_member(u: AuthUser, s: Space) -> bool {
    spec_has_name(s.admins@, u.username@) || spec_has_name(s.members@, u.username@) || share(
        u.projects@,
        s.projects@,
    )
}

/// Whether an account works in a space: an admin by name, or someone on one of its projects.
pub open spec fn works_in(u: AuthUser, s: Space) -> bool {
    spec_has_name(s.admins@, u.username@) || share(u.projects@, s.projects@)
}

/// Whether an account is a member of the space.
pub fn space_member(u: &AuthUser, s: &Space) -> (b: bool)
    ensures
        b == is_member(*u, *s),
{
    has_name(&s.admins, u.username.as_str()) || has_name(&s.members, u.username.as_str())
        || shares(&u.projects, &s.projects)
}

/// Whether the drill-down of a space lists the account.
pub fn space_worker(u: &AuthUser, s: &Space) -> (b: bool)
    ensures
        b == works_in(*u, *s),
{
    has_name(&s.admins, u.username.as_str()) || shares(&u.projects, &s.projects)
}

/// How many members of the space, of the first `n` accounts, have the role.
pub open spec fn role_members(users: Seq<AuthUser>, s: Space, role: AuthRole, n: int) -> nat
    decreases n,
{
    if n <= 0 {
        0
    } else {
        role_members(users, s, role, n - 1) + if is_member(users[n - 1], s) && users[n - 1].role
            == role {
            1nat
        } else {
            0nat
        }
    }
}

/// How many members of the space have the role.
pub fn count_role(users: &Vec<AuthUser>, s: &Space, role: AuthRole) -> (r: usize)
    ensures
        r == role_members(users@, *s, role, users@.len() as int),
{
    let mut n: usize = 0;
    let mut i: usize = 0;
    while i < users.len()
        invariant
            n <= i <= users.len(),
            n == role_members(users@, *s, role, i as int),
        decreases users.len() - i,
    {
        if users[i].role == role && space_member(&users[i], s) {
            n += 1;
        }
        i += 1;
    }
    n
}

fn in_a_space(spaces: &Vec<Space>, project: &str) -> (b: bool)
    ensures
        b == listed(spaces@, project@),
{
    let mut i: usize = 0;
    while i < spaces.len()
        invariant
            i <= spaces.len(),
            forall|j: int| 0 <= j < i ==> !texts((#[trigger] spaces@[j]).projects@).contains(project@),
        decreases spaces.len() - i,
    {
        if has_text(&spaces[i].projects, project) {
            return true;
        }
        i += 1;
    }
    false
}

pub open spec fn unassigned_rule(spaces: Seq<Space>) -> spec_fn(String) -> Option<String> {
    |id: String|
        if listed(spaces, id@) {
            None
        } else {
            Some(id)
        }
}

/// The registered projects that no space lists, in the order of registration.
pub fn unassigned_projects(order: &Vec<String>, spaces: &Vec<Space>) -> (r: Vec<String>)
    ensures
        r@ == collect(order@, unassigned_rule(spaces@)),
{
    let mut r: Vec<String> = Vec::new();
    let ghost f = unassigned_rule(spaces@);
    let mut i: usize = 0;
    assert(order@.take(0) =~= Seq::empty());
    while i < order.len()
        invariant
            i <= order.len(),
            f == unassigned_rule(spaces@),
            r@ == collect(order@.take(i as int), f),
        decreases order.len() - i,
    {
        proof {
            collect_step(order@, f, i as int);
        }
        if !in_a_space(spaces, order[i].as_str()) {
            let id = order[i].clone();
            r.push(id);
        }
        i += 1;
    }
    assert(order@.take(order@.len() as int) =~= order@);
    r
}

/// The person in a worker's name: what stands before the first `@`.
pub fn user_of_worker(worker: &str) -> (r: String)
    ensures
        r@ == spec_split(worker@, '@')[0],
{
    proof {
        split_nonempty(worker@, '@');
    }
    let parts = split(worker, '@');
    assert(texts(parts@).len() == parts@.len());
    assert(texts(parts@)[0] == parts@[0]@);
    parts[0].clone()
}

/// Who is online in a space, project after project: the people of the workers of its projects.
pub open spec fn online_in(projects: Seq<String>, online: Seq<(String, Vec<String>)>) -> Seq<String>
    decreases projects.len(),
{
    if projects.len() == 0 {
        Seq::empty()
    } else {
        online_in(projects.drop_last(), online) + online_of(online, projects.last()@)
    }
}

/// Who is online in one project.
pub open spec fn online_of(online: Seq<(String, Vec<String>)>, project: Seq<char>) -> Seq<String>
    decreases online.len(),
{
    if online.len() == 0 {
        Seq::empty()
    } else if online[0].0@ == project {
        online[0].1@
    } else {
        online_of(online.skip(1), project)
    }
}

fn people_of(online: &Vec<(String, Vec<String>)>, project: &str) -> (r: Vec<String>)
    ensures
        r@ == online_of(online@, project@),
{
    let mut i: usize = 0;
    assert(online@.skip(0) =~= online@);
    while i < online.len()
        invariant
            i <= online.len(),
            online_of(online@, project@) == online_of(online@.skip(i as int), project@),
        decreases online.len() - i,
    {
        if same(online[i].0.as_str(), project) {
            return copy_texts(&online[i].1);
        }
        assert(online@.skip(i as int).skip(1) =~= online@.skip(i + 1));
        i += 1;
    }
    Vec::new()
}

/// Gathers who is online in a space.
pub fn space_online(s: &Space, online: &Vec<(String, Vec<String>)>) -> (r: Vec<String>)
    ensures
        r@ == online_in(s.projects@, online@),
{
    let mut r: Vec<String> = Vec::new();
    let mut i: usize = 0;
    assert(s.projects@.take(0) =~= Seq::empty());
    while i < s.projects.len()
        invariant
            i <= s.projects.len(),
            r@ == online_in(s.projects@.take(i as int), online@),
        decreases s.projects.len() - i,
    {
        assert(s.projects@.take(i + 1).drop_last() =~= s.projects@.take(i as int));
        let mut more = people_of(online, s.projects[i].as_str());
        r.append(&mut more);
        i += 1;
    }
    assert(s.projects@.take(s.projects@.len() as int) =~= s.projects@);
    r
}

/// How many of the first `n` accounts are members of the space.
pub open spec fn member_count(users: Seq<AuthUser>, s: Space, n: int) -> nat
    decreases n,
{
    if n <= 0 {
        0
    } else {
        member_count(users, s, n - 1) + if is_member(users[n - 1], s) {
            1nat
        } else {
            0nat
        }
    }
}

fn count_members(users: &Vec<AuthUser>, s: &Space) -> (r: usize)
    ensures
        r == member_count(users@, *s, users@.len() as int),
{
    let mut n: usize = 0;
    let mut i: usize = 0;
    while i < users.len()
        invariant
            n <= i <= users.len(),
            n == member_count(users@, *s, i as int),
        decreases users.len() - i,
    {
        if space_member(&users[i], s) {
            n += 1;
        }
        i += 1;
    }
    n
}

/// A role and how many members of the space have it, where any has.
pub open spec fn role_rule(users: Seq<AuthUser>, s: Space) -> spec_fn(AuthRole) -> Option<
    (AuthRole, usize),
> {
    |role: AuthRole|
        {
            let n = role_members(users, s, role, users.len() as int);
            if n > 0 {
                Some((role, n as usize))
            } else {
                None
            }
        }
}

fn roles_of(users: &Vec<AuthUser>, s: &Space) -> (r: Vec<(AuthRole, usize)>)
    ensures
        r@ == collect(AuthRole::spec_all(), role_rule(users@, *s)),
{
    let all = AuthRole::all();
    let ghost f = role_rule(users@, *s);
    let mut r: Vec<(AuthRole, usize)> = Vec::new();
    let mut i: usize = 0;
    assert(all@.take(0) =~= Seq::empty());
    while i < all.len()
        invariant
            i <= all.len(),
            f == role_rule(users@, *s),
            r@ == collect(all@.take(i as int), f),
        decreases all.len() - i,
    {
        proof {
            collect_step(all@, f, i as int);
        }
        let n: usize = count_role(users, s, all[i]);
        if n > 0 {
            r.push((all[i], n));
        }
        i += 1;
    }
    assert(all@.take(all@.len() as int) =~= all@);
    r
}

/// The members of a list of roles, together.
pub open spec fn in_roles(roles: Seq<(AuthRole, usize)>) -> nat
    decreases roles.len(),
{
    if roles.len() == 0 {
        0
    } else {
        in_roles(roles.drop_last()) + roles.last().1 as nat
    }
}

/// Of the members of a space, how many of the first `n` accounts have one of the roles.
spec fn members_with(users: Seq<AuthUser>, s: Space, roles: Seq<AuthRole>, n: int) -> nat
    decreases n,
{
    if n <= 0 {
        0
    } else {
        members_with(users, s, roles, n - 1) + if is_member(users[n - 1], s) && roles.contains(
            users[n - 1].role,
        ) {
            1nat
        } else {
            0nat
        }
    }
}

proof fn one_role_more(users: Seq<AuthUser>, s: Space, roles: Seq<AuthRole>, role: AuthRole, n: int)
    requires
        !roles.contains(role),
        0 <= n <= users.len(),
    ensures
        members_with(users, s, roles.push(role), n) == members_with(users, s, roles, n)
            + role_members(users, s, role, n),
    decreases n,
{
    if n > 0 {
        one_role_more(users, s, roles, role, n - 1);
        let u = users[n - 1].role;
        let more = roles.push(role);
        assert(more.contains(u) == (roles.contains(u) || u == role)) by {
            if roles.contains(u) {
                let k = choose|k: int| 0 <= k < roles.len() && roles[k] == u;
                assert(more[k] == u);
            }
            if u == role {
                assert(more[roles.len() as int] == u);
            }
        }
    }
}

proof fn no_role_no_member(users: Seq<AuthUser>, s: Space, n: int)
    requires
        0 <= n <= users.len(),
    ensures
        members_with(users, s, Seq::empty(), n) == 0,
    decreases n,
{
    if n > 0 {
        no_role_no_member(users, s, n - 1);
    }
}

proof fn roles_add_up(users: Seq<AuthUser>, s: Space, i: int)
    requires
        0 <= i <= AuthRole::spec_all().len(),
        users.len() <= usize::MAX,
    ensures
        in_roles(collect(AuthRole::spec_all().take(i), role_rule(users, s))) == members_with(
            users,
            s,
            AuthRole::spec_all().take(i),
            users.len() as int,
        ),
    decreases i,
{
    let all = AuthRole::spec_all();
    let f = role_rule(users, s);
    if i == 0 {
        assert(all.take(0) =~= Seq::empty());
        no_role_no_member(users, s, users.len() as int);
    } else {
        roles_add_up(users, s, i - 1);
        collect_step(all, f, i - 1);
        let role = all[i - 1];
        every_role_is_listed_once(role);
        assert(all.take(i) =~= all.take(i - 1).push(role));
        let before_it = all.take(i - 1);
        assert(!before_it.contains(role)) by {
            if before_it.contains(role) {
                let k = choose|k: int| 0 <= k < before_it.len() && before_it[k] == role;
                assert(all[k] == all[i - 1]);
            }
        }
        one_role_more(users, s, all.take(i - 1), role, users.len() as int);
        role_members_fit(users, s, role, users.len() as int);
        let before = collect(all.take(i - 1), f);
        if let Some(x) = f(role) {
            assert(before.push(x).drop_last() =~= before);
        }
    }
}

proof fn role_members_fit(users: Seq<AuthUser>, s: Space, role: AuthRole, n: int)
    requires
        0 <= n <= users.len(),
    ensures
        role_members(users, s, role, n) <= n,
    decreases n,
{
    if n > 0 {
        role_members_fit(users, s, role, n - 1);
    }
}

proof fn all_roles_cover_everyone(users: Seq<AuthUser>, s: Space, n: int)
    requires
        0 <= n <= users.len(),
    ensures
        members_with(users, s, AuthRole::spec_all(), n) == member_count(users, s, n),
    decreases n,
{
    if n > 0 {
        all_roles_cover_everyone(users, s, n - 1);
        every_role_is_listed_once(users[n - 1].role);
    }
}

/// The roles of a space add up to its members.
pub proof fn roles_add_up_to_members(users: Seq<AuthUser>, s: Space)
    requires
        users.len() <= usize::MAX,
    ensures
        in_roles(collect(AuthRole::spec_all(), role_rule(users, s))) == member_count(
            users,
            s,
            users.len() as int,
        ),
{
    let all = AuthRole::spec_all();
    roles_add_up(users, s, all.len() as int);
    assert(all.take(all.len() as int) =~= all);
    all_roles_cover_everyone(users, s, users.len() as int);
}

/// How many connections there are over all projects.
pub open spec fn online_total(online: Seq<(String, Vec<String>)>) -> nat
    decreases online.len(),
{
    if online.len() == 0 {
        0
    } else {
        online_total(online.drop_last()) + online.last().1@.len()
    }
}

/// A number as far as the machine counts.
pub open spec fn at_most_max(n: nat) -> usize {
    if n > usize::MAX {
        usize::MAX
    } else {
        n as usize
    }
}

fn count_online(online: &Vec<(String, Vec<String>)>) -> (r: usize)
    ensures
        r == at_most_max(online_total(online@)),
{
    let mut n: usize = 0;
    let mut i: usize = 0;
    assert(online@.take(0) =~= Seq::empty());
    while i < online.len()
        invariant
            i <= online.len(),
            n == at_most_max(online_total(online@.take(i as int))),
        decreases online.len() - i,
    {
        assert(online@.take(i + 1).drop_last() =~= online@.take(i as int));
        n = n.saturating_add(online[i].1.len());
        i += 1;
    }
    assert(online@.take(online@.len() as int) =~= online@);
    n
}

/// What the overview says of a space, but for its money.
#[derive(Clone, Debug)]
pub struct SpaceStats {
    pub members: usize,
    pub roles: Vec<(AuthRole, usize)>,
    pub online: Vec<String>,
}

/// What the overview says of the hub, but for its money.
#[derive(Clone, Debug)]
pub struct Overview {
    pub spaces: Vec<SpaceStats>,
    pub unassigned: Vec<String>,
    pub projects: usize,
    pub users: usize,
    pub online: usize,
}

/// Whether the numbers are those of the space.
pub open spec fn stats_of(
    t: SpaceStats,
    s: Space,
    users: Seq<AuthUser>,
    online: Seq<(String, Vec<String>)>,
) -> bool {
    &&& t.members == member_count(users, s, users.len() as int)
    &&& t.roles@ == collect(AuthRole::spec_all(), role_rule(users, s))
    &&& t.online@ == online_in(s.projects@, online)
}

/// The overview of all spaces: each with its members, their roles and who is online there, the
/// projects that no space lists, and the totals of the hub. `online` pairs each live project with
/// the people at work on it.
pub fn overview(
    order: &Vec<String>,
    spaces: &Vec<Space>,
    users: &Vec<AuthUser>,
    online: &Vec<(String, Vec<String>)>,
) -> (r: Overview)
    ensures
        r.spaces@.len() == spaces@.len(),
        forall|i: int|
            0 <= i < spaces@.len() ==> stats_of(
                #[trigger] r.spaces@[i],
                spaces@[i],
                users@,
                online@,
            ),
        r.unassigned@ == collect(order@, unassigned_rule(spaces@)),
        r.projects == order@.len(),
        r.users == users@.len(),
        r.online == at_most_max(online_total(online@)),
{
    let mut stats: Vec<SpaceStats> = Vec::new();
    let mut i: usize = 0;
    while i < spaces.len()
        invariant
            i <= spaces.len(),
            stats.len() == i,
            forall|k: int|
                0 <= k < i ==> stats_of(#[trigger] stats@[k], spaces@[k], users@, online@),
        decreases spaces.len() - i,
    {
        let s = &spaces[i];
        stats.push(
            SpaceStats {
                members: count_members(users, s),
                roles: roles_of(users, s),
                online: space_online(s, online),
            },
        );
        i += 1;
    }
    Overview {
        spaces: stats,
        unassigned: unassigned_projects(order, spaces),
        projects: order.len(),
        users: users.len(),
        online: count_online(online),
    }
}

/// The positions of the accounts that work in the space, of the first `n`, each with whether it
/// administers the space.
pub open spec fn people_in(users: Seq<AuthUser>, s: Space, n: int) -> Seq<(usize, bool)>
    decreases n,
{
    if n <= 0 {
        Seq::empty()
    } else {
        let init = people_in(users, s, n - 1);
        if works_in(users[n - 1], s) {
            init.push(((n - 1) as usize, spec_has_name(s.admins@, users[n - 1].username@)))
        } else {
            init
        }
    }
}

/// Who works in a space, by their position among the accounts, and who administers it.
pub fn space_people(users: &Vec<AuthUser>, s: &Space) -> (r: Vec<(usize, bool)>)
    ensures
        r@ == people_in(users@, *s, users@.len() as int),
{
    let mut r: Vec<(usize, bool)> = Vec::new();
    let mut i: usize = 0;
    while i < users.len()
        invariant
            i <= users.len(),
            r@ == people_in(users@, *s, i as int),
        decreases users.len() - i,
    {
        if space_worker(&users[i], s) {
            let admin = has_name(&s.admins, users[i].username.as_str());
            r.push((i, admin));
        }
        i += 1;
    }
    r
}

pub open spec fn with_each(member: String, projects: Seq<String>) -> Seq<(String, String)> {
    projects.map_values(|p: String| (member, p))
}

/// Each member with each project.
pub open spec fn assignments(members: Seq<String>, projects: Seq<String>) -> Seq<(String, String)>
    decreases members.len(),
{
    if members.len() == 0 {
        Seq::empty()
    } else {
        assignments(members.drop_last(), projects) + with_each(members.last(), projects)
    }
}

/// Who is to be assigned to which project, once a space was made or changed: its members work on
/// every one of its projects. Nobody is taken off one.
pub fn space_assignments(s: &Space) -> (r: Vec<(String, String)>)
    ensures
        r@ == assignments(s.members@, s.projects@),
{
    let mut r: Vec<(String, String)> = Vec::new();
    let mut i: usize = 0;
    assert(s.members@.take(0) =~= Seq::empty());
    while i < s.members.len()
        invariant
            i <= s.members.len(),
            r@ == assignments(s.members@.take(i as int), s.projects@),
        decreases s.members.len() - i,
    {
        let ghost before = r@;
        let ghost all = with_each(s.members@[i as int], s.projects@);
        let mut j: usize = 0;
        assert(before + all.take(0) =~= before);
        while j < s.projects.len()
            invariant
                i < s.members.len(),
                j <= s.projects.len(),
                all == with_each(s.members@[i as int], s.projects@),
                r@ == before + all.take(j as int),
            decreases s.projects.len() - j,
        {
            let member = s.members[i].clone();
            let project = s.projects[j].clone();
            r.push((member, project));
            assert(all.take(j + 1) =~= all.take(j as int).push(all[j as int]));
            assert(r@ =~= before + all.take(j + 1));
            j += 1;
        }
        assert(all.take(all.len() as int) =~= all);
        assert(s.members@.take(i + 1).drop_last() =~= s.members@.take(i as int));
        i += 1;
    }
    assert(s.members@.take(s.members@.len() as int) =~= s.members@);
    r
}

/// Whoever is made a member of a space can work there: on each of its projects.
pub proof fn a_member_works_on_every_project(
    members: Seq<String>,
    projects: Seq<String>,
    m: int,
    p: int,
)
    requires
        0 <= m < members.len(),
        0 <= p < projects.len(),
    ensures
        assignments(members, projects).contains((members[m], projects[p])),
    decreases members.len(),
{
    let all = assignments(members, projects);
    let init = assignments(members.drop_last(), projects);
    let last = with_each(members.last(), projects);
    if m == members.len() - 1 {
        assert(last[p] == (members[m], projects[p]));
        assert(all[init.len() + p] == (members[m], projects[p]));
    } else {
        a_member_works_on_every_project(members.drop_last(), projects, m, p);
        let k = choose|k: int| 0 <= k < init.len() && init[k] == (members[m], projects[p]);
        assert(all[k] == (members[m], projects[p]));
    }
}

/// Admits the overview of all spaces.
pub fn admit_overview(is_super: bool) -> (r: Result<(), Refusal>)
    ensures
        match r {
            Ok(_) => is_super,
            Err(e) => !is_super && e.v() == (403u16, "super admin required"@, false),
        },
{
    if is_super {
        Ok(())
    } else {
        Err(plain(403, "super admin required"))
    }
}

/// Admits the hub's audit log: it records everyone's actions, so only those who see all read it.
pub fn admit_audit_log(accounts: bool, user: &Option<AuthUser>) -> (r: Result<(), Refusal>)
    ensures
        match r {
            Ok(_) => !accounts || (user is Some && user->0.role.spec_sees_all()),
            Err(e) => accounts && (user is None || !user->0.role.spec_sees_all()) && e.v() == (
                403u16,
                "admin role required"@,
                false,
            ),
        },
{
    if accounts {
        let ok = match user {
            Some(u) => u.role.sees_all(),
            None => false,
        };
        if !ok {
            return Err(plain(403, "admin role required"));
        }
    }
    Ok(())
}

/// The newest ten of a list of refused write-backs: where to start.
pub fn newest_ten(len: usize) -> (start: usize)
    ensures
        start == if len > 10 {
            len - 10
        } else {
            0
        },
{
    if len > 10 {
        len - 10
    } else {
        0
    }
}

/// The company: what it is called, and the conventions that every agent works by.
#[derive(Clone, Debug)]
pub struct Workspace {
    pub name: String,
    pub tagline: String,
    pub accent: String,
    pub conventions: String,
}

impl Workspace {
    /// Whether the company has been named.
    pub fn configured(&self) -> (b: bool)
        ensures
            b == (spec_trim(self.name@).len() > 0),
    {
        !is_blank(self.name.as_str())
    }

    /// Restates the company. Conventions are edited elsewhere: those that are not given stay.
    pub fn put(&mut self, name: &str, tagline: &str, accent: &str, conventions: &Option<String>)
        ensures
            final(self).name@ == spec_trim(name@),
            final(self).tagline@ == spec_trim(tagline@),
            final(self).accent@ == spec_trim(accent@),
            match conventions {
                Some(c) => final(self).conventions@ == spec_trim(c@),
                None => final(self).conventions == old(self).conventions,
            },
    {
        self.name = trim(name);
        self.tagline = trim(tagline);
        self.accent = trim(accent);
        if let Some(c) = conventions {
            self.conventions = trim(c.as_str());
        }
    }
}

/// The reply to an invitation into a channel, given what the channel made of it.
pub fn channel_invited(exists_: bool, loaded: bool, outcome: &Result<(), String>) -> (r: Result<
    (),
    Refusal,
>)
    ensures
        match r {
            Ok(_) => exists_ && loaded && *outcome is Ok,
            Err(e) => if !exists_ {
                e.v() == (404u16, "no such project"@, false)
            } else if !loaded {
                e.v() == (500u16, "load failed"@, true)
            } else {
                match outcome {
                    Err(why) => e.v() == (403u16, why@, false),
                    Ok(_) => false,
                }
            },
        },
{
    if !exists_ {
        return Err(not_found());
    }
    if !loaded {
        return Err(internal_error("load failed"));
    }
    match outcome {
        Ok(_) => Ok(()),
        Err(why) => Err(plain(403, why.as_str())),
    }
}

/// A space without a cap is left alone; one with a cap is warned about when its spend comes near
/// and paused when it is reached, each once.
pub proof fn only_a_cap_is_watched(over: bool, near: bool, flagged: bool, warned: bool)
    ensures
        !budget_actions(false, over, near, flagged, warned).warn,
        !budget_actions(false, over, near, flagged, warned).pause,
        budget_actions(true, over, near, flagged, warned).pause <==> over && !flagged,
        budget_actions(true, over, near, flagged, warned).warn <==> near && !warned,
        !marked(false, over),
        marked(true, over) == over,
{
}

/// The browser lists everything but the build and version-control litter, directories before
/// files, each kind by name.
pub proof fn the_browser_lists_the_rest(entries: Seq<FileEntry>, e: FileEntry, i: int, j: int)
    ensures
        sorted(collect(entries, entry_rule())).contains(e) <==> entries.contains(e) && e.name@
            != "target"@ && e.name@ != ".git"@ && e.name@ != "node_modules"@ && e.name@
            != ".DS_Store"@,
        sorted(collect(entries, entry_rule())).len() == collect(entries, entry_rule()).len(),
        0 <= i < j < sorted(collect(entries, entry_rule())).len() ==> {
            let a = sorted(collect(entries, entry_rule()))[i];
            let b = sorted(collect(entries, entry_rule()))[j];
            &&& b.dir ==> a.dir
            &&& a.dir == b.dir ==> text_le(a.name@, b.name@)
        },
{
    let kept = collect(entries, entry_rule());
    sorting_orders_and_keeps(kept);
    sorting_adds_nothing(kept, e);
    if entries.contains(e) && !is_noise(e.name@) {
        let k = choose|k: int| 0 <= k < entries.len() && entries[k] == e;
        source_is_collected(entries, entry_rule(), k);
    }
    if kept.contains(e) {
        let k = choose|k: int| 0 <= k < kept.len() && kept[k] == e;
        collected_has_source(entries, entry_rule(), k);
        let m = choose|m: int|
            0 <= m < entries.len() && entry_rule()(#[trigger] entries[m]) == Some(kept[k]);
        assert(entries[m] == e);
    }
}

/// Whether a list holds a name in whatever case.
pub open spec fn names_in_any_case(list: Seq<String>, name: Seq<char>) -> bool {
    exists|k: int|
        0 <= k < list.len() && spec_ascii_lower((#[trigger] list[k])@) == spec_ascii_lower(name)
}

proof fn has_name_in_any_case(list: Seq<String>, name: Seq<char>)
    ensures
        spec_has_name(list, name) == names_in_any_case(list, name),
{
    if spec_has_name(list, name) {
        let k = choose|k: int| 0 <= k < list.len() && same_name((#[trigger] list[k])@, name);
        assert(spec_ascii_lower(list[k]@) == spec_ascii_lower(name));
    }
    if names_in_any_case(list, name) {
        let k = choose|k: int|
            0 <= k < list.len() && spec_ascii_lower((#[trigger] list[k])@) == spec_ascii_lower(name);
        assert(same_name(list[k]@, name));
    }
}

/// A space is shown to the hub's owner, to its admins and members, and to whoever holds one of its
/// projects; the positions rise.
pub proof fn a_space_is_shown_to_its_people(
    spaces: Seq<Space>,
    sees_all: bool,
    me: Seq<char>,
    my_projects: Seq<String>,
    i: int,
)
    requires
        0 <= i < spaces.len() <= usize::MAX,
    ensures
        ({
            let shown = visible_positions(spaces, spaces.len() as int, sees_all, me, my_projects);
            &&& shown.contains(i as usize) <==> sees_all || names_in_any_case(spaces[i].admins@, me)
                || names_in_any_case(spaces[i].members@, me) || exists|k: int|
                0 <= k < spaces[i].projects@.len() && texts(my_projects).contains(
                    (#[trigger] spaces[i].projects@[k])@,
                )
            &&& forall|a: int, b: int| 0 <= a < b < shown.len() ==> shown[a] < shown[b]
        }),
{
    positions_rise(spaces, spaces.len() as int, sees_all, me, my_projects, i);
    has_name_in_any_case(spaces[i].admins@, me);
    has_name_in_any_case(spaces[i].members@, me);
    let list = spaces[i].projects@;
    if share(list, my_projects) {
        let k = choose|k: int| 0 <= k < list.len() && texts(my_projects).contains((#[trigger] list[k])@);
        assert(texts(my_projects).contains(spaces[i].projects@[k]@));
    }
}

proof fn positions_rise(
    spaces: Seq<Space>,
    n: int,
    sees_all: bool,
    me: Seq<char>,
    my_projects: Seq<String>,
    i: int,
)
    requires
        0 <= n <= spaces.len() <= usize::MAX,
        0 <= i < spaces.len(),
    ensures
        ({
            let shown = visible_positions(spaces, n, sees_all, me, my_projects);
            &&& shown.contains(i as usize) <==> i < n && space_visible(
                spaces[i],
                sees_all,
                me,
                my_projects,
            )
            &&& forall|a: int, b: int| 0 <= a < b < shown.len() ==> shown[a] < shown[b]
            &&& forall|a: int| 0 <= a < shown.len() ==> #[trigger] shown[a] < n
        }),
    decreases n,
{
    if n > 0 {
        positions_rise(spaces, n - 1, sees_all, me, my_projects, i);
        let before = visible_positions(spaces, n - 1, sees_all, me, my_projects);
        let shown = visible_positions(spaces, n, sees_all, me, my_projects);
        if before.contains(i as usize) {
            let k = choose|k: int| 0 <= k < before.len() && before[k] == i as usize;
            assert(shown[k] == i as usize);
        }
        if i == n - 1 && space_visible(spaces[i], sees_all, me, my_projects) {
            assert(shown[shown.len() - 1] == i as usize);
        }
        if shown.contains(i as usize) && !before.contains(i as usize) {
            let k = choose|k: int| 0 <= k < shown.len() && shown[k] == i as usize;
            if k < before.len() {
                assert(before[k] == i as usize);
            }
        }
    }
}

/// A list of names that passes holds each name that was given, trimmed and once, and nothing else;
/// each of them is known. One that is refused held a name that is not.
pub proof fn a_checked_list_holds_known_names(
    list: Seq<String>,
    known: Seq<Seq<char>>,
    users: bool,
    x: Seq<char>,
)
    ensures
        match check_names(list, known, users) {
            Ok(out) => {
                &&& out.no_duplicates()
                &&& out.contains(x) <==> x.len() > 0 && exists|i: int|
                    0 <= i < list.len() && spec_trim((#[trigger] list[i])@) == x
                &&& out.contains(x) && !users ==> known.contains(x)
                &&& out.contains(x) && users && known.len() > 0 ==> known.contains(
                    spec_lowercase(x),
                )
            },
            Err(e) => exists|i: int|
                0 <= i < list.len() && spec_trim((#[trigger] list[i])@).len() > 0 && if users {
                    e == "unknown user: "@ + spec_trim(list[i]@) && known.len() > 0
                        && !known.contains(spec_lowercase(spec_trim(list[i]@)))
                } else {
                    e == "unknown project: "@ + spec_trim(list[i]@) && !known.contains(
                        spec_trim(list[i]@),
                    )
                },
        },
    decreases list.len(),
{
    if list.len() > 0 {
        let init = list.drop_last();
        let t = spec_trim(list.last()@);
        a_checked_list_holds_known_names(init, known, users, x);
        a_checked_list_holds_known_names(init, known, users, t);
        assert(list[list.len() - 1] == list.last());
        assert(forall|i: int| 0 <= i < init.len() ==> #[trigger] init[i] == list[i]);
        match check_names(init, known, users) {
            Err(e) => {
                let i = choose|i: int|
                    0 <= i < init.len() && spec_trim((#[trigger] init[i])@).len() > 0 && if users {
                        e == "unknown user: "@ + spec_trim(init[i]@) && known.len() > 0
                            && !known.contains(spec_lowercase(spec_trim(init[i]@)))
                    } else {
                        e == "unknown project: "@ + spec_trim(init[i]@) && !known.contains(
                            spec_trim(init[i]@),
                        )
                    };
                assert(list[i] == init[i]);
            },
            Ok(out) => {
                if let Ok(now) = check_names(list, known, users) {
                    if now != out {
                        assert(now == out.push(t));
                        assert(now[out.len() as int] == t);
                    }
                    if out.contains(x) {
                        let k = choose|k: int| 0 <= k < out.len() && out[k] == x;
                        assert(now[k] == x);
                        let i = choose|i: int|
                            0 <= i < init.len() && spec_trim((#[trigger] init[i])@) == x;
                        assert(spec_trim(list[i]@) == x);
                    }
                    if now.contains(x) && !out.contains(x) {
                        let k = choose|k: int| 0 <= k < now.len() && now[k] == x;
                        if k < out.len() {
                            assert(out[k] == x);
                        }
                        assert(x == t);
                        assert(spec_trim(list[list.len() - 1]@) == x);
                    }
                    if x.len() > 0 && exists|i: int|
                        0 <= i < list.len() && spec_trim((#[trigger] list[i])@) == x {
                        let i = choose|i: int|
                            0 <= i < list.len() && spec_trim((#[trigger] list[i])@) == x;
                        if i < init.len() {
                            assert(spec_trim(init[i]@) == x);
                        } else {
                            assert(x == t);
                        }
                    }
                }
            },
        }
    } else {
        assert(check_names(list, known, users)->Ok_0 =~= Seq::<Seq<char>>::empty());
    }
}

/// The other owner of a project is the first space, but for the one that asks, that lists it.
pub proof fn a_project_has_one_other_owner(spaces: Seq<Space>, project: Seq<char>, except: Option<Seq<char>>, i: int)
    requires
        0 <= i,
    ensures
        match other_owner(spaces, project, except, i) {
            Some(v) => i <= v < spaces.len() && except != Some(spaces[v].id@) && texts(spaces[v].projects@).contains(project) && (forall|j: int|
                i <= j < v ==> !(except != Some((#[trigger] spaces[j]).id@) && texts(spaces[j].projects@).contains(project))),
            None => forall|j: int| i <= j < spaces.len() ==> !(except != Some((#[trigger] spaces[j]).id@) && texts(spaces[j].projects@).contains(project)),
        },
    decreases spaces.len() - i,
{
    if i < spaces.len() && !(except != Some(spaces[i].id@) && texts(spaces[i].projects@).contains(project)) {
        a_project_has_one_other_owner(spaces, project, except, i + 1);
    }
}

proof fn claims_are_free(
    spaces: Seq<Space>,
    projects: Seq<Seq<char>>,
    except: Option<Seq<char>>,
    i: int,
)
    requires
        0 <= i,
    ensures
        claim_refusal(spaces, projects, except, i) is Some <==> exists|n: int, k: int|
            i <= n < projects.len() && 0 <= k < spaces.len() && except != Some(
                (#[trigger] spaces[k]).id@,
            ) && texts(spaces[k].projects@).contains(#[trigger] projects[n]),
    decreases projects.len() - i,
{
    if i < projects.len() {
        claims_are_free(spaces, projects, except, i + 1);
        a_project_has_one_other_owner(spaces, projects[i], except, 0);
        if let Some(k) = other_owner(spaces, projects[i], except, 0) {
            assert(texts(spaces[k].projects@).contains(projects[i]));
        }
    }
}

/// A request for a space passes exactly where its texts and lists are short enough, its people
/// have accounts, its projects are registered and none of them belongs to another space.
pub proof fn a_sound_space_passes(
    req: SpaceReq,
    users: Seq<Seq<char>>,
    projects: Seq<Seq<char>>,
    spaces: Seq<Space>,
    except: Option<Seq<char>>,
)
    ensures
        space_verdict(req, users, projects, spaces, except) is Ok <==> {
            &&& spec_trim(req.name@).len() <= 60
            &&& req.tagline@.len() <= 160
            &&& req.admins@.len() <= 20 && req.projects@.len() <= 100 && req.members@.len() <= 200
            &&& users.len() > 0 ==> (forall|i: int|
                0 <= i < req.admins@.len() && spec_trim((#[trigger] req.admins@[i])@).len() > 0
                    ==> users.contains(spec_lowercase(spec_trim(req.admins@[i]@)))) && (forall|
                i: int,
            |
                0 <= i < req.members@.len() && spec_trim((#[trigger] req.members@[i])@).len() > 0
                    ==> users.contains(spec_lowercase(spec_trim(req.members@[i]@))))
            &&& forall|i: int|
                0 <= i < req.projects@.len() && spec_trim((#[trigger] req.projects@[i])@).len() > 0
                    ==> projects.contains(spec_trim(req.projects@[i]@))
            &&& forall|i: int, k: int|
                0 <= i < req.projects@.len() && spec_trim((#[trigger] req.projects@[i])@).len() > 0
                    && 0 <= k < spaces.len() && except != Some((#[trigger] spaces[k]).id@)
                    ==> !texts(spaces[k].projects@).contains(spec_trim(req.projects@[i]@))
        },
{
    names_pass(req.admins@, users, true);
    names_pass(req.members@, users, true);
    names_pass(req.projects@, projects, false);
    if let Ok(list) = check_names(req.projects@, projects, false) {
        claims_are_free(spaces, list, except, 0);
        if claim_refusal(spaces, list, except, 0) is Some {
            let (n, k) = choose|n: int, k: int|
                0 <= n < list.len() && 0 <= k < spaces.len() && except != Some(
                    (#[trigger] spaces[k]).id@,
                ) && texts(spaces[k].projects@).contains(#[trigger] list[n]);
            a_checked_list_holds_known_names(req.projects@, projects, false, list[n]);
            assert(list.contains(list[n]));
            let i = choose|i: int|
                0 <= i < req.projects@.len() && spec_trim((#[trigger] req.projects@[i])@) == list[n];
            assert(texts(spaces[k].projects@).contains(spec_trim(req.projects@[i]@)));
        } else {
            assert forall|i: int, k: int|
                0 <= i < req.projects@.len() && spec_trim((#[trigger] req.projects@[i])@).len() > 0
                    && 0 <= k < spaces.len() && except != Some(
                    (#[trigger] spaces[k]).id@,
                ) implies !texts(spaces[k].projects@).contains(spec_trim(req.projects@[i]@)) by {
                let x = spec_trim(req.projects@[i]@);
                a_checked_list_holds_known_names(req.projects@, projects, false, x);
                let n = choose|n: int| 0 <= n < list.len() && list[n] == x;
                assert(!texts(spaces[k].projects@).contains(list[n]));
            }
        }
    }
}

proof fn names_pass(list: Seq<String>, known: Seq<Seq<char>>, users: bool)
    ensures
        check_names(list, known, users) is Ok <==> (users && known.len() == 0) || forall|i: int|
            0 <= i < list.len() && spec_trim((#[trigger] list[i])@).len() > 0 ==> known.contains(
                if users {
                    spec_lowercase(spec_trim(list[i]@))
                } else {
                    spec_trim(list[i]@)
                },
            ),
{
    a_checked_list_holds_known_names(list, known, users, Seq::empty());
    if let Ok(out) = check_names(list, known, users) {
        assert forall|i: int|
            0 <= i < list.len() && spec_trim((#[trigger] list[i])@).len() > 0 && !(users
                && known.len() == 0) implies known.contains(
            if users {
                spec_lowercase(spec_trim(list[i]@))
            } else {
                spec_trim(list[i]@)
            },
        ) by {
            a_checked_list_holds_known_names(list, known, users, spec_trim(list[i]@));
        }
    }
}

/// Deleting a space leaves the others as they were, in their order.
pub proof fn the_other_spaces_stay(spaces: Seq<Space>, sid: Seq<char>)
    ensures
        collect(spaces, other_space(sid)) == spaces.filter(|s: Space| s.id@ != sid),
{
    kept_is_filtered(spaces, other_space(sid), |s: Space| s.id@ != sid);
}

/// The members of a space are its admins, its members by name and whoever is on one of its
/// projects; they are counted once each, in all and by role.
pub proof fn a_space_counts_its_members(users: Seq<AuthUser>, s: Space, role: AuthRole)
    ensures
        member_count(users, s, users.len() as int) == users.filter(
            |u: AuthUser|
                names_in_any_case(s.admins@, u.username@) || names_in_any_case(
                    s.members@,
                    u.username@,
                ) || exists|k: int|
                    0 <= k < u.projects@.len() && texts(s.projects@).contains(
                        (#[trigger] u.projects@[k])@,
                    ),
        ).len(),
        role_members(users, s, role, users.len() as int) == users.filter(
            |u: AuthUser|
                u.role == role && (names_in_any_case(s.admins@, u.username@) || names_in_any_case(
                    s.members@,
                    u.username@,
                ) || exists|k: int|
                    0 <= k < u.projects@.len() && texts(s.projects@).contains(
                        (#[trigger] u.projects@[k])@,
                    )),
        ).len(),
    decreases users.len(),
{
    reveal(Seq::filter);
    if users.len() > 0 {
        let init = users.drop_last();
        let u = users.last();
        a_space_counts_its_members(init, s, role);
        members_alike(users, init, s, role, init.len() as int);
        has_name_in_any_case(s.admins@, u.username@);
        has_name_in_any_case(s.members@, u.username@);
        let list = u.projects@;
        if share(list, s.projects@) {
            let k = choose|k: int|
                0 <= k < list.len() && texts(s.projects@).contains((#[trigger] list[k])@);
            assert(texts(s.projects@).contains(u.projects@[k]@));
        }
    }
}

proof fn members_alike(a: Seq<AuthUser>, b: Seq<AuthUser>, s: Space, role: AuthRole, n: int)
    requires
        n <= a.len(),
        n <= b.len(),
        forall|i: int| 0 <= i < n ==> #[trigger] a[i] == b[i],
    ensures
        member_count(a, s, n) == member_count(b, s, n),
        role_members(a, s, role, n) == role_members(b, s, role, n),
    decreases n,
{
    if n > 0 {
        members_alike(a, b, s, role, n - 1);
        assert(a[n - 1] == b[n - 1]);
    }
}

/// The drill-down of a space lists its admins and whoever is on one of its projects, and marks the
/// admins.
pub proof fn the_drill_down_lists_who_works_there(users: Seq<AuthUser>, s: Space, i: int, admin: bool)
    requires
        0 <= i < users.len() <= usize::MAX,
    ensures
        people_in(users, s, users.len() as int).contains((i as usize, admin)) <==> admin
            == names_in_any_case(s.admins@, users[i].username@) && (admin || exists|k: int|
            0 <= k < users[i].projects@.len() && texts(s.projects@).contains(
                (#[trigger] users[i].projects@[k])@,
            )),
{
    people_of_the_first(users, s, users.len() as int, i, admin);
    has_name_in_any_case(s.admins@, users[i].username@);
    let list = users[i].projects@;
    if share(list, s.projects@) {
        let k = choose|k: int|
            0 <= k < list.len() && texts(s.projects@).contains((#[trigger] list[k])@);
        assert(texts(s.projects@).contains(users[i].projects@[k]@));
    }
}

proof fn people_of_the_first(users: Seq<AuthUser>, s: Space, n: int, i: int, admin: bool)
    requires
        0 <= n <= users.len() <= usize::MAX,
        0 <= i < users.len(),
    ensures
        people_in(users, s, n).contains((i as usize, admin)) <==> i < n && works_in(users[i], s)
            && admin == spec_has_name(s.admins@, users[i].username@),
    decreases n,
{
    if n > 0 {
        people_of_the_first(users, s, n - 1, i, admin);
        let before = people_in(users, s, n - 1);
        let now = people_in(users, s, n);
        let x = (i as usize, admin);
        if before.contains(x) {
            let k = choose|k: int| 0 <= k < before.len() && before[k] == x;
            assert(now[k] == x);
        }
        if i == n - 1 && works_in(users[i], s) && admin == spec_has_name(
            s.admins@,
            users[i].username@,
        ) {
            assert(now[now.len() - 1] == x);
        }
        if now.contains(x) && !before.contains(x) {
            let k = choose|k: int| 0 <= k < now.len() && now[k] == x;
            if k < before.len() {
                assert(before[k] == x);
            }
        }
    }
}

/// The projects without a space are the registered ones that no space lists, in their order.
pub proof fn a_project_without_a_space_is_told(order: Seq<String>, spaces: Seq<Space>)
    ensures
        collect(order, unassigned_rule(spaces)) == order.filter(
            |id: String|
                forall|i: int|
                    0 <= i < spaces.len() ==> !texts((#[trigger] spaces[i]).projects@).contains(id@),
        ),
{
    let keep = |id: String|
        forall|i: int|
            0 <= i < spaces.len() ==> !texts((#[trigger] spaces[i]).projects@).contains(id@);
    kept_is_filtered(order, unassigned_rule(spaces), keep);
}

proof fn online_of_is_first(online: Seq<(String, Vec<String>)>, project: Seq<char>)
    ensures
        (exists|i: int|
            0 <= i < online.len() && (#[trigger] online[i]).0@ == project && online_of(
                online,
                project,
            ) == online[i].1@ && (forall|j: int| 0 <= j < i ==> (#[trigger] online[j]).0@
                != project)) || (online_of(online, project).len() == 0 && forall|j: int|
            0 <= j < online.len() ==> (#[trigger] online[j]).0@ != project),
    decreases online.len(),
{
    if online.len() > 0 {
        let rest = online.skip(1);
        online_of_is_first(rest, project);
        assert(forall|j: int| 0 <= j < rest.len() ==> #[trigger] rest[j] == online[j + 1]);
        assert(forall|j: int| 1 <= j < online.len() ==> #[trigger] online[j] == rest[j - 1]);
        if online[0].0@ != project {
            if exists|i: int|
                0 <= i < rest.len() && (#[trigger] rest[i]).0@ == project && online_of(
                    rest,
                    project,
                ) == rest[i].1@ && (forall|j: int| 0 <= j < i ==> (#[trigger] rest[j]).0@
                    != project) {
                let i = choose|i: int|
                    0 <= i < rest.len() && (#[trigger] rest[i]).0@ == project && online_of(
                        rest,
                        project,
                    ) == rest[i].1@ && (forall|j: int| 0 <= j < i ==> (#[trigger] rest[j]).0@
                        != project);
                assert(online[i + 1].0@ == project);
            }
        } else {
            assert(online[0].0@ == project);
        }
    }
}

/// Who is online in a space are the people at work on its projects, project after project, and
/// nobody else.
pub proof fn who_is_online_works_on_a_project(
    projects: Seq<String>,
    online: Seq<(String, Vec<String>)>,
    who: String,
)
    requires
        forall|i: int, j: int|
            0 <= i < j < online.len() ==> (#[trigger] online[i]).0@ != (#[trigger] online[j]).0@,
    ensures
        online_in(projects, online).contains(who) <==> exists|p: int, i: int|
            0 <= p < projects.len() && 0 <= i < online.len() && (#[trigger] online[i]).0@ == (
            #[trigger] projects[p])@ && online[i].1@.contains(who),
    decreases projects.len(),
{
    let now = online_in(projects, online);
    if projects.len() > 0 {
        let init = projects.drop_last();
        let before = online_in(init, online);
        let here = online_of(online, projects.last()@);
        who_is_online_works_on_a_project(init, online, who);
        online_of_is_first(online, projects.last()@);
        assert(now == before + here);
        assert(projects[projects.len() - 1] == projects.last());
        assert(forall|p: int| 0 <= p < init.len() ==> #[trigger] init[p] == projects[p]);
        if before.contains(who) {
            let k = choose|k: int| 0 <= k < before.len() && before[k] == who;
            assert(now[k] == who);
            let (p, i) = choose|p: int, i: int|
                0 <= p < init.len() && 0 <= i < online.len() && (#[trigger] online[i]).0@ == (
                #[trigger] init[p])@ && online[i].1@.contains(who);
            assert(online[i].0@ == projects[p]@);
        }
        if here.contains(who) {
            let k = choose|k: int| 0 <= k < here.len() && here[k] == who;
            assert(now[before.len() + k] == who);
            let i = choose|i: int|
                0 <= i < online.len() && (#[trigger] online[i]).0@ == projects.last()@ && here
                    == online[i].1@;
            assert(online[i].0@ == projects[projects.len() - 1]@);
        }
        if now.contains(who) {
            let k = choose|k: int| 0 <= k < now.len() && now[k] == who;
            if k < before.len() {
                assert(before[k] == who);
            } else {
                assert(here[k - before.len()] == who);
            }
        }
        if exists|p: int, i: int|
            0 <= p < projects.len() && 0 <= i < online.len() && (#[trigger] online[i]).0@ == (
            #[trigger] projects[p])@ && online[i].1@.contains(who) {
            let (p, i) = choose|p: int, i: int|
                0 <= p < projects.len() && 0 <= i < online.len() && (#[trigger] online[i]).0@ == (
                #[trigger] projects[p])@ && online[i].1@.contains(who);
            if p < init.len() {
                assert(online[i].0@ == init[p]@);
            } else {
                let f = choose|f: int|
                    0 <= f < online.len() && (#[trigger] online[f]).0@ == projects.last()@ && here
                        == online[f].1@;
                assert(f == i);
            }
        }
    }
}

/// The connections of the hub are those of all its projects together: projects can be counted
/// apart and added up.
pub proof fn connections_add_up(a: Seq<(String, Vec<String>)>, b: Seq<(String, Vec<String>)>)
    ensures
        online_total(a + b) == online_total(a) + online_total(b),
        a.len() == 1 ==> online_total(a) == a[0].1@.len(),
        a.len() == 0 ==> online_total(a) == 0,
        online_total(a) <= usize::MAX ==> at_most_max(online_total(a)) == online_total(a),
        online_total(a) > usize::MAX ==> at_most_max(online_total(a)) == usize::MAX,
    decreases b.len(),
{
    if b.len() == 0 {
        assert(a + b =~= a);
    } else {
        connections_add_up(a, b.drop_last());
        assert((a + b).drop_last() =~= a + b.drop_last());
    }
    if a.len() == 1 {
        assert(online_total(a.drop_last()) == 0);
    }
}

/// Nobody is put on a project but the members of the space on the projects of the space.
pub proof fn only_members_are_put_on_projects(
    members: Seq<String>,
    projects: Seq<String>,
    m: String,
    p: String,
)
    ensures
        assignments(members, projects).contains((m, p)) <==> members.contains(m)
            && projects.contains(p),
    decreases members.len(),
{
    let all = assignments(members, projects);
    if members.contains(m) && projects.contains(p) {
        let i = choose|i: int| 0 <= i < members.len() && members[i] == m;
        let j = choose|j: int| 0 <= j < projects.len() && projects[j] == p;
        a_member_works_on_every_project(members, projects, i, j);
    }
    if members.len() > 0 && all.contains((m, p)) {
        let init = members.drop_last();
        let before = assignments(init, projects);
        let own = with_each(members.last(), projects);
        only_members_are_put_on_projects(init, projects, m, p);
        let k = choose|k: int| 0 <= k < all.len() && all[k] == (m, p);
        if k < before.len() {
            assert(before[k] == (m, p));
            let i = choose|i: int| 0 <= i < init.len() && init[i] == m;
            assert(members[i] == m);
        } else {
            assert(own[k - before.len()] == (m, p));
            assert(projects[k - before.len()] == p);
            assert(members[members.len() - 1] == m);
        }
    }
}

/// Who is online in a project is told by the first list that bears its name.
pub proof fn a_project_has_its_own_list_of_people(online: Seq<(String, Vec<String>)>, project: Seq<char>, k: int)
    ensures
        0 <= k < online.len() && online[k].0@ == project && (forall|j: int|
            0 <= j < k ==> !((#[trigger] online[j]).0@ == project)) ==> online_of(online, project) == online[k].1@,
        (forall|j: int| 0 <= j < online.len() ==> !((#[trigger] online[j]).0@ == project)) ==> online_of(online, project) == Seq::<String>::empty(),
    decreases online.len(),
{
    if online.len() > 0 {
        let rest = online.skip(1);
        a_project_has_its_own_list_of_people(rest, project, k - 1);
        assert(forall|j: int| 0 <= j < rest.len() ==> #[trigger] rest[j] == online[j + 1]);
    }
}

/// A role is told exactly where a member of the space has it.
pub proof fn a_role_is_told_where_a_member_has_it(users: Seq<AuthUser>, s: Space, role: AuthRole)
    ensures
        match role_rule(users, s)(role) {
            Some((r, _)) => r == role && exists|i: int|
                0 <= i < users.len() && (#[trigger] users[i]).role == role && is_member(users[i], s),
            None => forall|i: int|
                0 <= i < users.len() ==> !((#[trigger] users[i]).role == role && is_member(
                    users[i],
                    s,
                )),
        },
{
    somebody_has_the_role(users, s, role, users.len() as int);
}

proof fn somebody_has_the_role(users: Seq<AuthUser>, s: Space, role: AuthRole, n: int)
    requires
        0 <= n <= users.len(),
    ensures
        role_members(users, s, role, n) > 0 <==> exists|i: int|
            0 <= i < n && (#[trigger] users[i]).role == role && is_member(users[i], s),
    decreases n,
{
    if n > 0 {
        somebody_has_the_role(users, s, role, n - 1);
        if is_member(users[n - 1], s) && users[n - 1].role == role {
            assert(users[n - 1].role == role);
        }
    }
}

/// A check is answered as it came out: with the names where all passed, else with what is wrong.
pub proof fn a_check_is_answered_as_it_came_out(r: Result<Vec<String>, String>, c: Checked)
    requires
        same_outcome(r, c),
    ensures
        r is Ok <==> c is Ok,
        r is Ok ==> c->Ok_0 == texts(r->Ok_0@),
        r is Err ==> c->Err_0 == r->Err_0@,
{
}

/// The numbers of a space are told role by role: each role that is told has as many members as it
/// says, and a role that any member has is told.
pub proof fn a_space_tells_its_roles(
    t: SpaceStats,
    s: Space,
    users: Seq<AuthUser>,
    online: Seq<(String, Vec<String>)>,
    k: int,
)
    requires
        stats_of(t, s, users, online),
    ensures
        t.members == member_count(users, s, users.len() as int),
        0 <= k < t.roles@.len() ==> t.roles@[k].1 == role_members(
            users,
            s,
            t.roles@[k].0,
            users.len() as int,
        ) as usize,
        0 <= k < AuthRole::spec_all().len() && role_members(
            users,
            s,
            AuthRole::spec_all()[k],
            users.len() as int,
        ) > 0 ==> exists|i: int|
            0 <= i < t.roles@.len() && (#[trigger] t.roles@[i]).0 == AuthRole::spec_all()[k],
{
    let all = AuthRole::spec_all();
    let rule = role_rule(users, s);
    if 0 <= k < t.roles@.len() {
        collected_has_source(all, rule, k);
    }
    if 0 <= k < all.len() && role_members(users, s, all[k], users.len() as int) > 0 {
        source_is_collected(all, rule, k);
        let got = rule(all[k])->0;
        let i = choose|i: int| 0 <= i < t.roles@.len() && t.roles@[i] == got;
        assert(t.roles@[i].0 == all[k]);
    }
}

} // verus!
