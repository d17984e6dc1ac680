//! Which directories may be adopted as a project's codebase.

use crate::lists::{collect, collect_step, collected_in_turn};
use crate::reply::{json, plain, Refusal};
use crate::text::{
    join2, owned, same, spec_split, spec_starts, split, split_nonempty, split_of_joined,
    split_without, starts_with, texts,
};
use vstd::prelude::*;

verus! {

/// Whether the path is that directory or stands below it.
pub open spec fn under(path: Seq<char>, dir: Seq<char>) -> bool {
    path == dir || spec_starts(path, dir + "/"@)
}

/// The directories that nothing is imported from.
pub open spec fn is_system_path(path: Seq<char>) -> bool {
    under(path, "/etc"@) || under(path, "/private/etc"@) || under(path, "/root"@) || under(
        path,
        "/var/run"@,
    ) || under(path, "/var/log"@) || under(path, "/usr/lib"@) || under(path, "/usr/sbin"@) || under(
        path,
        "/bin"@,
    ) || under(path, "/sbin"@) || under(path, "/dev"@) || under(path, "/proc"@) || under(
        path,
        "/sys"@,
    )
}

fn is_under(path: &str, dir: &str) -> (b: bool)
    ensures
        b == under(path@, dir@),
{
    let below = join2(dir, "/");
    same(path, dir) || starts_with(path, below.as_str())
}

/// Refuses a resolved import path that points at a system directory.
pub fn refused_import_path(resolved: &Option<String>) -> (r: Option<Refusal>)
    ensures
        match r {
            Some(e) => resolved is Some && is_system_path(resolved->0@) && e.is(
                403,
                "cannot import from this path"@,
                false,
            ),
            None => resolved is None || !is_system_path(resolved->0@),
        },
{
    match resolved {
        None => None,
        Some(p) => {
            let p = p.as_str();
            if is_under(p, "/etc") || is_under(p, "/private/etc") || is_under(p, "/root")
                || is_under(p, "/var/run") || is_under(p, "/var/log") || is_under(p, "/usr/lib")
                || is_under(p, "/usr/sbin") || is_under(p, "/bin") || is_under(p, "/sbin")
                || is_under(p, "/dev") || is_under(p, "/proc") || is_under(p, "/sys") {
                Some(plain(403, "cannot import from this path"))
            } else {
                None
            }
        },
    }
}

pub open spec fn component_rule() -> spec_fn(Seq<char>) -> Option<Seq<char>> {
    |piece: Seq<char>|
        if piece.len() == 0 || piece == "."@ {
            None
        } else {
            Some(piece)
        }
}

/// Where a path starts: at the root, at an explicit `.`, or nowhere in particular.
pub open spec fn start_of(path: Seq<char>) -> Seq<Seq<char>> {
    if path.len() > 0 && path[0] == '/' {
        seq!["/"@]
    } else if spec_split(path, '/')[0] == "."@ {
        seq!["."@]
    } else {
        Seq::empty()
    }
}

/// The components of a path: its start, then what stands between its slashes, without the empty
/// and `.` pieces.
pub open spec fn components(path: Seq<char>) -> Seq<Seq<char>> {
    start_of(path) + collect(spec_split(path, '/'), component_rule())
}

/// Whether `path` is `dir` or lies below it, component by component. Every path lies below the
/// empty one.
pub open spec fn path_starts(path: Seq<char>, dir: Seq<char>) -> bool {
    components(dir).len() <= components(path).len() && components(path).take(
        components(dir).len() as int,
    ) == components(dir)
}

fn path_components(path: &str) -> (r: Vec<String>)
    ensures
        texts(r@) == components(path@),
{
    broadcast use crate::text::texts_push, crate::text::texts_empty;

    let pieces = split(path, '/');
    let ghost all = texts(pieces@);
    let ghost f = component_rule();
    let mut r: Vec<String> = Vec::new();
    proof {
        split_nonempty(path@, '/');
        assert(all[0] == pieces@[0]@);
    }
    if !path.is_empty() && path.get_char(0) == '/' {
        r.push(owned("/"));
    } else if same(pieces[0].as_str(), ".") {
        r.push(owned("."));
    }
    let ghost start = start_of(path@);
    assert(texts(r@) =~= start);
    let mut i: usize = 0;
    assert(all.take(0) =~= Seq::empty());
    assert(start + collect(all.take(0), f) =~= start);
    while i < pieces.len()
        invariant
            i <= pieces.len(),
            all == texts(pieces@),
            f == component_rule(),
            texts(r@) == start + collect(all.take(i as int), f),
        decreases pieces.len() - i,
    {
        proof {
            collect_step(all, f, i as int);
        }
        let piece = pieces[i].clone();
        assert(all[i as int] == piece@);
        if !piece.as_str().is_empty() && !same(piece.as_str(), ".") {
            let ghost before = collect(all.take(i as int), f);
            assert((start + before).push(piece@) =~= start + before.push(piece@));
            r.push(piece);
        }
        i += 1;
    }
    assert(all.take(all.len() as int) =~= all);
    r
}

fn starts_in(path: &str, dir: &str) -> (b: bool)
    ensures
        b == path_starts(path@, dir@),
{
    let p = path_components(path);
    let d = path_components(dir);
    let ghost ps = texts(p@);
    let ghost ds = texts(d@);
    if d.len() > p.len() {
        return false;
    }
    let mut i: usize = 0;
    while i < d.len()
        invariant
            i <= d.len() <= p.len(),
            ps == texts(p@),
            ds == texts(d@),
            ps == components(path@),
            ds == components(dir@),
            forall|j: int| 0 <= j < i ==> ps[j] == ds[j],
        decreases d.len() - i,
    {
        assert(ps[i as int] == p@[i as int]@);
        assert(ds[i as int] == d@[i as int]@);
        if !same(p[i].as_str(), d[i].as_str()) {
            assert(ps.take(ds.len() as int)[i as int] != ds[i as int]);
            return false;
        }
        i += 1;
    }
    assert(ps.take(ds.len() as int) =~= ds);
    true
}

/// Whether two trees overlap: one is the other, or contains it.
pub open spec fn overlaps(a: Seq<char>, b: Seq<char>) -> bool {
    path_starts(a, b) || path_starts(b, a)
}

/// The first registered project, by identifier and working tree, whose tree overlaps `requested`.
pub open spec fn owner(requested: Seq<char>, registered: Seq<(String, String)>) -> Option<String>
    decreases registered.len(),
{
    if registered.len() == 0 {
        None
    } else if overlaps(requested, registered[0].1@) {
        Some(registered[0].0)
    } else {
        owner(requested, registered.skip(1))
    }
}

/// The project whose working tree overlaps the resolved path. Containment counts both ways:
/// a parent would drag the whole tree along, a subtree would share its history.
pub fn codebase_owned_by(requested: &str, registered: &Vec<(String, String)>) -> (r: Option<String>)
    ensures
        r == owner(requested@, registered@),
{
    let mut i: usize = 0;
    assert(registered@.skip(0) =~= registered@);
    while i < registered.len()
        invariant
            i <= registered.len(),
            owner(requested@, registered@) == owner(requested@, registered@.skip(i as int)),
        decreases registered.len() - i,
    {
        let tree = registered[i].1.as_str();
        if starts_in(requested, tree) || starts_in(tree, requested) {
            return Some(registered[i].0.clone());
        }
        assert(registered@.skip(i as int).skip(1) =~= registered@.skip(i + 1));
        i += 1;
    }
    None
}

pub open spec fn owned_text(raw: Seq<char>, id: Seq<char>) -> Seq<char> {
    "codebase at "@ + raw + " is already the working tree of project '"@ + id
        + "' — refusing to adopt one codebase into two projects"@
}

/// Refuses to adopt a codebase that a registered project works in. `raw` is the path as asked
/// for, `resolved` the directory it resolves to: what does not resolve is not refused here.
pub fn refused_import_owned_by_registered(
    raw: &str,
    resolved: &Option<String>,
    registered: &Vec<(String, String)>,
) -> (r: Option<Refusal>)
    ensures
        match r {
            Some(e) => resolved is Some && owner(resolved->0@, registered@) is Some && e.is(
                409,
                owned_text(raw@, owner(resolved->0@, registered@)->0@),
                true,
            ),
            None => resolved is None || owner(resolved->0@, registered@) is None,
        },
{
    match resolved {
        None => None,
        Some(p) => match codebase_owned_by(p.as_str(), registered) {
            None => None,
            Some(id) => {
                let mut text = owned("codebase at ");
                text.append(raw);
                text.append(" is already the working tree of project '");
                text.append(id.as_str());
                text.append("' — refusing to adopt one codebase into two projects");
                Some(json(409, text.as_str()))
            },
        },
    }
}

/// Overlap is mutual: if one project may not adopt the other's tree, neither may the other.
pub proof fn overlap_is_mutual(a: Seq<char>, b: Seq<char>)
    ensures
        overlaps(a, b) == overlaps(b, a),
        overlaps(a, a),
{
    assert(components(a).take(components(a).len() as int) =~= components(a));
}

/// No two registered projects can come to share a tree: a path is free only if it overlaps none.
pub proof fn a_free_path_overlaps_no_tree(requested: Seq<char>, registered: Seq<(String, String)>, i: int)
    requires
        owner(requested, registered) is None,
        0 <= i < registered.len(),
    ensures
        !overlaps(requested, registered[i].1@),
    decreases registered.len(),
{
    if i > 0 {
        a_free_path_overlaps_no_tree(requested, registered.skip(1), i - 1);
        assert(registered.skip(1)[i - 1] == registered[i]);
    }
}

/// A tree holds whatever lies below it: a path that goes on from another overlaps it, however far
/// it goes.
pub proof fn a_tree_holds_what_lies_below(dir: Seq<char>, rest: Seq<char>)
    ensures
        overlaps(dir + seq!['/'] + rest, dir),
        overlaps(dir, dir + seq!['/'] + rest),
{
    let path = dir + seq!['/'] + rest;
    split_of_joined(dir, rest, '/');
    split_nonempty(dir, '/');
    collected_in_turn(spec_split(dir, '/'), spec_split(rest, '/'), component_rule());
    if dir.len() == 0 {
        reveal_strlit(".");
        assert(spec_split(dir, '/') =~= seq![Seq::<char>::empty()]);
        assert("."@.len() == 1);
        assert(start_of(dir) =~= Seq::empty());
        let none = spec_split(dir, '/').drop_last();
        assert(none =~= Seq::empty());
        assert(collect(none, component_rule()) =~= Seq::empty());
        assert(component_rule()(spec_split(dir, '/').last()) is None);
        assert(collect(spec_split(dir, '/'), component_rule()) =~= Seq::empty());
        assert(components(dir) =~= Seq::empty());
        assert(components(path).take(0) =~= components(dir));
    } else {
        assert(path[0] == dir[0]);
        assert(spec_split(path, '/')[0] == spec_split(dir, '/')[0]);
        assert(start_of(path) == start_of(dir));
        assert(components(path) =~= components(dir) + collect(
            spec_split(rest, '/'),
            component_rule(),
        ));
        assert(components(path).take(components(dir).len() as int) =~= components(dir));
    }
}

/// Neighbours are apart: two directories of one parent with names of their own do not overlap.
pub proof fn neighbours_do_not_overlap(dir: Seq<char>, a: Seq<char>, b: Seq<char>)
    requires
        dir.len() > 0,
        a.len() > 0 && b.len() > 0 && a != b,
        !a.contains('/') && !b.contains('/'),
        !a.contains('.') && !b.contains('.'),
    ensures
        !overlaps(dir + seq!['/'] + a, dir + seq!['/'] + b),
{
    one_more_component(dir, a);
    one_more_component(dir, b);
    let x = components(dir + seq!['/'] + a);
    let y = components(dir + seq!['/'] + b);
    assert(x.len() == y.len());
    assert(x.last() == a && y.last() == b);
    assert(x.take(x.len() as int) =~= x);
    assert(y.take(y.len() as int) =~= y);
}

proof fn one_more_component(dir: Seq<char>, name: Seq<char>)
    requires
        dir.len() > 0,
        name.len() > 0,
        !name.contains('/'),
        !name.contains('.'),
    ensures
        components(dir + seq!['/'] + name) == components(dir).push(name),
{
    let path = dir + seq!['/'] + name;
    split_of_joined(dir, name, '/');
    split_nonempty(dir, '/');
    assert forall|i: int| 0 <= i < name.len() implies (#[trigger] name[i]) != '/' by {
        assert(name.contains(name[i]));
    }
    split_without(name, '/');
    collected_in_turn(spec_split(dir, '/'), spec_split(name, '/'), component_rule());
    reveal_strlit(".");
    if name == "."@ {
        assert(name[0] == '.');
        assert(name.contains('.'));
    }
    assert(seq![name].drop_last() =~= Seq::empty());
    assert(collect(seq![name].drop_last(), component_rule()) =~= Seq::empty());
    assert(collect(spec_split(name, '/'), component_rule()) =~= seq![name]);
    assert(path[0] == dir[0]);
    assert(spec_split(path, '/')[0] == spec_split(dir, '/')[0]);
    assert(components(path) =~= components(dir).push(name));
}

/// Nothing is imported from the directories of the system or from anywhere below them.
pub proof fn the_system_is_never_imported(rest: Seq<char>)
    ensures
        is_system_path("/etc"@) && is_system_path("/etc"@ + "/"@ + rest),
        is_system_path("/private/etc"@) && is_system_path("/private/etc"@ + "/"@ + rest),
        is_system_path("/root"@) && is_system_path("/root"@ + "/"@ + rest),
        is_system_path("/var/run"@) && is_system_path("/var/run"@ + "/"@ + rest),
        is_system_path("/var/log"@) && is_system_path("/var/log"@ + "/"@ + rest),
        is_system_path("/usr/lib"@) && is_system_path("/usr/lib"@ + "/"@ + rest),
        is_system_path("/usr/sbin"@) && is_system_path("/usr/sbin"@ + "/"@ + rest),
        is_system_path("/bin"@) && is_system_path("/bin"@ + "/"@ + rest),
        is_system_path("/sbin"@) && is_system_path("/sbin"@ + "/"@ + rest),
        is_system_path("/dev"@) && is_system_path("/dev"@ + "/"@ + rest),
        is_system_path("/proc"@) && is_system_path("/proc"@ + "/"@ + rest),
        is_system_path("/sys"@) && is_system_path("/sys"@ + "/"@ + rest),
{
    below_is_under("/etc"@, rest);
    below_is_under("/private/etc"@, rest);
    below_is_under("/root"@, rest);
    below_is_under("/var/run"@, rest);
    below_is_under("/var/log"@, rest);
    below_is_under("/usr/lib"@, rest);
    below_is_under("/usr/sbin"@, rest);
    below_is_under("/bin"@, rest);
    below_is_under("/sbin"@, rest);
    below_is_under("/dev"@, rest);
    below_is_under("/proc"@, rest);
    below_is_under("/sys"@, rest);
}

proof fn below_is_under(dir: Seq<char>, rest: Seq<char>)
    ensures
        under(dir, dir),
        under(dir + "/"@ + rest, dir),
{
    let p = dir + "/"@;
    assert((p + rest).take(p.len() as int) =~= p);
}

/// A home directory is no system directory.
pub proof fn a_home_can_be_imported(rest: Seq<char>)
    ensures
        !is_system_path("/home/"@ + rest),
{
    reveal_strlit("/home/");
    reveal_strlit("/");
    reveal_strlit("/etc");
    reveal_strlit("/private/etc");
    reveal_strlit("/root");
    reveal_strlit("/var/run");
    reveal_strlit("/var/log");
    reveal_strlit("/usr/lib");
    reveal_strlit("/usr/sbin");
    reveal_strlit("/bin");
    reveal_strlit("/sbin");
    reveal_strlit("/dev");
    reveal_strlit("/proc");
    reveal_strlit("/sys");
    let path = "/home/"@ + rest;
    assert(path[1] == 'h');
    not_under(path, "/etc"@);
    not_under(path, "/private/etc"@);
    not_under(path, "/root"@);
    not_under(path, "/var/run"@);
    not_under(path, "/var/log"@);
    not_under(path, "/usr/lib"@);
    not_under(path, "/usr/sbin"@);
    not_under(path, "/bin"@);
    not_under(path, "/sbin"@);
    not_under(path, "/dev"@);
    not_under(path, "/proc"@);
    not_under(path, "/sys"@);
}

proof fn not_under(path: Seq<char>, dir: Seq<char>)
    requires
        path.len() > 1,
        dir.len() > 1,
        path[1] != dir[1],
    ensures
        !under(path, dir),
{
    let p = dir + "/"@;
    if spec_starts(path, p) {
        assert(path.take(p.len() as int)[1] == path[1]);
        assert(p[1] == dir[1]);
    }
}

/// The owner of a tree is a registered project that works in it: the first one that does, and none
/// only where none does.
pub proof fn the_owner_works_in_the_tree(requested: Seq<char>, registered: Seq<(String, String)>)
    ensures
        match owner(requested, registered) {
            Some(id) => exists|i: int|
                0 <= i < registered.len() && overlaps(requested, (#[trigger] registered[i]).1@)
                    && registered[i].0 == id && forall|j: int|
                    0 <= j < i ==> !overlaps(requested, (#[trigger] registered[j]).1@),
            None => forall|j: int|
                0 <= j < registered.len() ==> !overlaps(requested, (#[trigger] registered[j]).1@),
        },
    decreases registered.len(),
{
    if registered.len() > 0 {
        let rest = registered.skip(1);
        the_owner_works_in_the_tree(requested, rest);
        assert(forall|j: int| 0 <= j < rest.len() ==> #[trigger] rest[j] == registered[j + 1]);
        assert(forall|j: int| 1 <= j < registered.len() ==> #[trigger] registered[j] == rest[j - 1]);
        if !overlaps(requested, registered[0].1@) && owner(requested, rest) is Some {
            let i = choose|i: int|
                0 <= i < rest.len() && overlaps(requested, (#[trigger] rest[i]).1@) && rest[i].0
                    == owner(requested, rest)->0 && forall|j: int|
                    0 <= j < i ==> !overlaps(requested, (#[trigger] rest[j]).1@);
            assert(registered[i + 1].0 == owner(requested, rest)->0);
        }
    }
}

} // verus!
