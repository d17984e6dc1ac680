//! The description of the API that the server gives of itself.

use crate::lists::collected_has_source;
use crate::order::{distinct_sorted, text_le};
use crate::route_table::{
    names_methods, rows_have_their_own_ids, rows_name_methods, ROUTE_TABLE,
};
use crate::text::{
    after_last, chars_of, contains, has_text, is_white, join3, lowercase, owned, same,
    spec_after_last, spec_ascii_lower, spec_contains, spec_lowercase, spec_split, spec_starts,
    spec_trim_start_char, spec_upper, spec_words, split, split_nonempty, split_of_joined,
    split_without, starts_with, strip_prefix, text_between, texts, texts_push, trim_start_char, white_pieces, word_rule,
    words,
};
use vstd::utf8::is_ascii_chars;
use vstd::prelude::*;

verus! {

/// What an operation asks of its caller.
#[derive(Clone, Copy, Debug, PartialEq, Eq, Structural)]
pub enum SecurityLevel {
    /// Nothing.
    Public,
    /// A session, and membership of the project in the path.
    Authenticated,
    /// A role that administers.
    Admin,
}

impl SecurityLevel {
    /// Whether the operation takes a bearer token.
    pub fn needs_bearer(self) -> (b: bool)
        ensures
            b == (self != SecurityLevel::Public),
    {
        self != SecurityLevel::Public
    }
}

/// A route: its path, its methods, and what overrides the description that the path gives.
#[derive(Clone, Debug)]
pub struct RouteSpec {
    pub path: String,
    pub methods: Vec<String>,
    pub tag: Option<String>,
    pub summary: Option<String>,
}

/// Whether a route is the one of a row: a path, and the methods that it answers.
pub open spec fn is_row(r: RouteSpec, row: (&str, &str)) -> bool {
    r.path@ == row.0@ && texts(r.methods@) == spec_words(row.1@) && r.tag is None && r.summary
        is None
}

/// Whether those are the routes of the server.
pub open spec fn is_table(routes: Seq<RouteSpec>) -> bool {
    routes.len() == ROUTE_TABLE@.len() && forall|i: int|
        0 <= i < routes.len() ==> is_row(#[trigger] routes[i], ROUTE_TABLE@[i])
}

/// Every route that the server has.
pub fn routes() -> (r: Vec<RouteSpec>)
    ensures
        is_table(r@),
{
    let mut r: Vec<RouteSpec> = Vec::new();
    let mut i: usize = 0;
    let n: usize = ROUTE_TABLE.len();
    while i < n
        invariant
            i <= n,
            n == ROUTE_TABLE@.len(),
            r@.len() == i,
            forall|k: int| 0 <= k < i ==> is_row(#[trigger] r@[k], ROUTE_TABLE@[k]),
        decreases n - i,
    {
        let row = ROUTE_TABLE[i];
        r.push(
            RouteSpec { path: owned(row.0), methods: words(row.1), tag: None, summary: None },
        );
        i += 1;
    }
    r
}

/// What a path asks of its caller.
pub open spec fn spec_security(path: Seq<char>) -> SecurityLevel {
    if path == "/api/health"@ || path == "/api/openapi.json"@ || path == "/api/auth/login"@
        || spec_starts(path, "/s/"@) {
        SecurityLevel::Public
    } else if spec_starts(path, "/api/auth/users"@) || spec_starts(path, "/api/auth/tokens"@)
        || spec_contains(path, "/share-links"@) {
        SecurityLevel::Admin
    } else {
        SecurityLevel::Authenticated
    }
}

/// What a path asks of its caller. The token of a share page is the credential itself.
pub fn security_for(path: &str) -> (r: SecurityLevel)
    ensures
        r == spec_security(path@),
{
    if same(path, "/api/health") || same(path, "/api/openapi.json") || same(path, "/api/auth/login")
        || starts_with(path, "/s/") {
        return SecurityLevel::Public;
    }
    if starts_with(path, "/api/auth/users") || starts_with(path, "/api/auth/tokens") || contains(
        path,
        "/share-links",
    ) {
        return SecurityLevel::Admin;
    }
    SecurityLevel::Authenticated
}

/// The upper-case text of a character, in Unicode's sense.
pub uninterp spec fn unicode_upper(c: char) -> Seq<char>;

/// `char::to_uppercase`, as a text. Its result is named; it has at least one character, and is
/// the ASCII upper case of an ASCII character.
#[verifier::external_body]
fn upper_text(c: char) -> (r: String)
    ensures
        r@ == unicode_upper(c),
        r@.len() >= 1,
        (c as u32) < 128 ==> r@ == seq![spec_upper(c)],
{
    c.to_uppercase().to_string()
}

/// The upper-case text of a character: one letter where it is ASCII.
pub open spec fn spec_uppercase(c: char) -> Seq<char> {
    if (c as u32) < 128 {
        seq![spec_upper(c)]
    } else {
        unicode_upper(c)
    }
}

/// A text with its first character in upper case.
pub open spec fn capitalised(s: Seq<char>) -> Seq<char> {
    if s.len() == 0 {
        s
    } else {
        spec_uppercase(s[0]) + s.skip(1)
    }
}

/// A text with its first character replaced by the given text.
pub fn with_first(s: &str, first: &str) -> (r: String)
    requires
        s@.len() > 0,
    ensures
        r@ == first@ + s@.skip(1),
{
    let v = chars_of(s);
    let rest = text_between(&v, 1, v.len());
    assert(rest@ =~= s@.skip(1));
    let mut r = owned(first);
    r.append(rest.as_str());
    r
}

fn capital(s: &str) -> (r: String)
    requires
        s@.len() > 0,
    ensures
        r@ == capitalised(s@),
        r@.len() > 0,
{
    let v = chars_of(s);
    let first = upper_text(v[0]);
    with_first(s, first.as_str())
}

/// The text without its dashes and underscores.
pub open spec fn unmarked(s: Seq<char>) -> Seq<char>
    decreases s.len(),
{
    if s.len() == 0 {
        Seq::empty()
    } else if s.last() == '-' || s.last() == '_' {
        unmarked(s.drop_last())
    } else {
        unmarked(s.drop_last()).push(s.last())
    }
}

fn without_marks(s: &str) -> (r: String)
    ensures
        r@ == unmarked(s@),
{
    let v = chars_of(s);
    let mut r = String::new();
    let mut i: usize = 0;
    assert(v@.take(0) =~= Seq::empty());
    assert(r@ =~= Seq::empty());
    while i < v.len()
        invariant
            i <= v.len(),
            r@ == unmarked(v@.take(i as int)),
        decreases v.len() - i,
    {
        assert(v@.take(i + 1).drop_last() =~= v@.take(i as int));
        if v[i] != '-' && v[i] != '_' {
            r.push(v[i]);
        }
        i += 1;
    }
    assert(v@.take(v@.len() as int) =~= v@);
    r
}

/// The first segment that is not a parameter.
pub open spec fn first_static(parts: Seq<Seq<char>>) -> Option<Seq<char>>
    decreases parts.len(),
{
    if parts.len() == 0 {
        None
    } else if !spec_starts(parts[0], ":"@) {
        Some(parts[0])
    } else {
        first_static(parts.skip(1))
    }
}

/// The segment that names the area of a path: the first static one of the API.
pub open spec fn area(path: Seq<char>) -> Seq<char> {
    if spec_starts(path, "/api/"@) {
        match first_static(spec_split(path.skip("/api/"@.len() as int), '/')) {
            Some(seg) => unmarked(seg),
            None => Seq::empty(),
        }
    } else {
        Seq::empty()
    }
}

pub open spec fn spec_autotag(path: Seq<char>) -> Seq<char> {
    if area(path).len() == 0 {
        "Misc"@
    } else {
        capitalised(area(path))
    }
}

fn area_of(path: &str) -> (r: String)
    ensures
        r@ == area(path@),
{
    match strip_prefix(path, "/api/") {
        None => String::new(),
        Some(rest) => {
            let parts = split(rest.as_str(), '/');
            let ghost all = texts(parts@);
            let mut i: usize = 0;
            assert(all.skip(0) =~= all);
            while i < parts.len()
                invariant
                    i <= parts.len(),
                    all == texts(parts@),
                    all == spec_split(rest@, '/'),
                    spec_starts(path@, "/api/"@),
                    rest@ == path@.skip("/api/"@.len() as int),
                    first_static(all) == first_static(all.skip(i as int)),
                decreases parts.len() - i,
            {
                assert(all.skip(i as int)[0] == parts@[i as int]@);
                assert(all.skip(i as int).skip(1) =~= all.skip(i + 1));
                if !starts_with(parts[i].as_str(), ":") {
                    return without_marks(parts[i].as_str());
                }
                i += 1;
            }
            String::new()
        },
    }
}

/// The area of a path, as a tag. There always is one.
pub fn autotag(path: &str) -> (r: String)
    ensures
        r@ == spec_autotag(path@),
        r@.len() > 0,
{
    proof {
        reveal_strlit("Misc");
    }
    let name = area_of(path);
    if name.as_str().unicode_len() == 0 {
        owned("Misc")
    } else {
        capital(name.as_str())
    }
}

/// A character of an operation's id.
pub open spec fn id_char(c: char) -> char {
    if c == '-' || c == ':' {
        '_'
    } else {
        c
    }
}

/// A segment of a path in an operation's id.
pub open spec fn id_part(seg: Seq<char>) -> Seq<char> {
    spec_trim_start_char(seg, ':').map_values(|c: char| id_char(c))
}

fn segment_id(seg: &str) -> (r: String)
    ensures
        r@ == id_part(seg@),
{
    let t = trim_start_char(seg, ':');
    let v = chars_of(t.as_str());
    let mut r = String::new();
    let mut i: usize = 0;
    while i < v.len()
        invariant
            i <= v.len(),
            r@.len() == i,
            forall|k: int| 0 <= k < i ==> #[trigger] r@[k] == id_char(v@[k]),
        decreases v.len() - i,
    {
        let c = v[i];
        r.push(
            if c == '-' || c == ':' {
                '_'
            } else {
                c
            },
        );
        i += 1;
    }
    assert(r@ =~= id_part(seg@));
    r
}

/// The segments joined by underscores.
pub open spec fn id_parts(parts: Seq<Seq<char>>) -> Seq<char>
    decreases parts.len(),
{
    if parts.len() == 0 {
        Seq::empty()
    } else if parts.len() == 1 {
        id_part(parts[0])
    } else {
        id_parts(parts.drop_last()) + "_"@ + id_part(parts.last())
    }
}

pub open spec fn spec_tail_word(path: Seq<char>) -> Seq<char> {
    id_parts(spec_split(spec_trim_start_char(path, '/'), '/'))
}

/// The id that a path gives its operations: its segments, the parameters among them by their bare
/// names, joined by underscores.
pub fn tail_word(path: &str) -> (r: String)
    ensures
        r@ == spec_tail_word(path@),
{
    let bare = trim_start_char(path, '/');
    let parts = split(bare.as_str(), '/');
    let ghost all = texts(parts@);
    proof {
        split_nonempty(bare@, '/');
        assert(all[0] == parts@[0]@);
    }
    let mut r = segment_id(parts[0].as_str());
    let mut i: usize = 1;
    assert(all.take(1) =~= seq![all[0]]);
    while i < parts.len()
        invariant
            1 <= i <= parts.len(),
            all == texts(parts@),
            r@ == id_parts(all.take(i as int)),
        decreases parts.len() - i,
    {
        proof {
            assert(all.take(i + 1).drop_last() =~= all.take(i as int));
            assert(all[i as int] == parts@[i as int]@);
        }
        let part = segment_id(parts[i].as_str());
        r.append("_");
        r.append(part.as_str());
        i += 1;
    }
    assert(all.take(all.len() as int) =~= all);
    r
}

/// The last segment that is not a parameter.
pub open spec fn last_static(parts: Seq<Seq<char>>) -> Option<Seq<char>>
    decreases parts.len(),
{
    if parts.len() == 0 {
        None
    } else if !spec_starts(parts.last(), ":"@) {
        Some(parts.last())
    } else {
        last_static(parts.drop_last())
    }
}

/// The word that a path is about: the last one of its last static segment.
pub open spec fn subject(path: Seq<char>) -> Seq<char> {
    match last_static(spec_split(spec_trim_start_char(path, '/'), '/')) {
        Some(seg) => spec_after_last(id_part(seg), '_'),
        None => Seq::empty(),
    }
}

pub open spec fn spec_autosummary(path: Seq<char>) -> Seq<char> {
    if subject(path).len() == 0 {
        "Operation"@
    } else {
        capitalised(subject(path))
    }
}

fn subject_of(path: &str) -> (r: String)
    ensures
        r@ == subject(path@),
{
    let bare = trim_start_char(path, '/');
    let parts = split(bare.as_str(), '/');
    let ghost all = texts(parts@);
    let mut n: usize = parts.len();
    assert(all.take(n as int) =~= all);
    while n > 0
        invariant
            n <= parts.len(),
            all == texts(parts@),
            last_static(all) == last_static(all.take(n as int)),
            all == spec_split(spec_trim_start_char(path@, '/'), '/'),
        decreases n,
    {
        assert(all.take(n as int).drop_last() =~= all.take(n - 1));
        assert(all[n - 1] == parts@[n - 1]@);
        if !starts_with(parts[n - 1].as_str(), ":") {
            let id = segment_id(parts[n - 1].as_str());
            return after_last(id.as_str(), '_');
        }
        n -= 1;
    }
    String::new()
}

/// One word on what a path is about. There always is one.
pub fn autosummary(path: &str) -> (r: String)
    ensures
        r@ == spec_autosummary(path@),
        r@.len() > 0,
{
    proof {
        reveal_strlit("Operation");
    }
    let word = subject_of(path);
    if word.as_str().unicode_len() == 0 {
        owned("Operation")
    } else {
        capital(word.as_str())
    }
}

/// The parameters among the segments of a path, in their order.
pub open spec fn params_of(parts: Seq<Seq<char>>) -> Seq<Seq<char>>
    decreases parts.len(),
{
    if parts.len() == 0 {
        Seq::empty()
    } else if spec_starts(parts.last(), ":"@) {
        params_of(parts.drop_last()).push(parts.last().skip(":"@.len() as int))
    } else {
        params_of(parts.drop_last())
    }
}

/// A parameter of an operation.
#[derive(Clone, Debug)]
pub struct Parameter {
    pub name: String,
    /// Where it stands.
    pub place: String,
    pub required: bool,
    /// Its type.
    pub kind: String,
}

/// Whether the parameters are those names, each a required text in the path.
pub open spec fn path_parameters(list: Seq<Parameter>, names: Seq<Seq<char>>) -> bool {
    list.len() == names.len() && forall|i: int|
        0 <= i < list.len() ==> (#[trigger] list[i]).name@ == names[i] && list[i].place@ == "path"@
            && list[i].required && list[i].kind@ == "string"@
}

/// The parameters of a path, in their order. All of them are required texts.
pub fn parameters(path: &str) -> (r: Vec<Parameter>)
    ensures
        path_parameters(r@, params_of(spec_split(path@, '/'))),
{
    let parts = split(path, '/');
    let ghost all = texts(parts@);
    let mut r: Vec<Parameter> = Vec::new();
    let mut i: usize = 0;
    assert(all.take(0) =~= Seq::empty());
    while i < parts.len()
        invariant
            i <= parts.len(),
            all == texts(parts@),
            path_parameters(r@, params_of(all.take(i as int))),
        decreases parts.len() - i,
    {
        proof {
            assert(all.take(i + 1).drop_last() =~= all.take(i as int));
            assert(all[i as int] == parts@[i as int]@);
        }
        if let Some(name) = strip_prefix(parts[i].as_str(), ":") {
            r.push(
                Parameter { name, place: owned("path"), required: true, kind: owned("string") },
            );
        }
        i += 1;
    }
    assert(all.take(all.len() as int) =~= all);
    r
}

/// What a route offers under one method.
#[derive(Clone, Debug)]
pub struct Operation {
    pub method: String,
    pub operation_id: String,
    pub tag: String,
    pub summary: String,
    pub parameters: Vec<Parameter>,
    pub security: SecurityLevel,
}

/// The id of an operation, given its method in lower case.
pub open spec fn operation_id(method: Seq<char>, path: Seq<char>) -> Seq<char> {
    method + "_"@ + spec_tail_word(path)
}

/// Whether an operation is the one of a route and a method.
pub open spec fn describes(op: Operation, route: RouteSpec, method: Seq<char>) -> bool {
    &&& op.method@ == method
    &&& op.operation_id@ == operation_id(spec_lowercase(method), route.path@)
    &&& op.tag@ == match route.tag {
        Some(t) => t@,
        None => spec_autotag(route.path@),
    }
    &&& route.tag is None ==> op.tag@.len() > 0
    &&& op.summary@ == match route.summary {
        Some(t) => t@,
        None => spec_autosummary(route.path@),
    }
    &&& route.summary is None ==> op.summary@.len() > 0
    &&& path_parameters(op.parameters@, params_of(spec_split(route.path@, '/')))
    &&& op.security == spec_security(route.path@)
}

/// Describes what a route offers under a method.
pub fn operation(route: &RouteSpec, method: &str) -> (r: Operation)
    ensures
        describes(r, *route, method@),
{
    let path = route.path.as_str();
    let tail = tail_word(path);
    let low = lowercase(method);
    Operation {
        method: owned(method),
        operation_id: join3(low.as_str(), "_", tail.as_str()),
        tag: match &route.tag {
            Some(t) => t.clone(),
            None => autotag(path),
        },
        summary: match &route.summary {
            Some(t) => t.clone(),
            None => autosummary(path),
        },
        parameters: parameters(path),
        security: security_for(path),
    }
}

/// What a path offers.
#[derive(Clone, Debug)]
pub struct PathItem {
    pub path: String,
    pub operations: Vec<Operation>,
}

/// The last route of that path and method.
pub open spec fn offer(routes: Seq<RouteSpec>, path: Seq<char>, method: Seq<char>) -> Option<int>
    decreases routes.len(),
{
    if routes.len() == 0 {
        None
    } else if routes.last().path@ == path && texts(routes.last().methods@).contains(method) {
        Some(routes.len() - 1)
    } else {
        offer(routes.drop_last(), path, method)
    }
}

/// The methods of a path, as often as routes have them.
pub open spec fn methods_of(routes: Seq<RouteSpec>, path: Seq<char>) -> Seq<Seq<char>>
    decreases routes.len(),
{
    if routes.len() == 0 {
        Seq::empty()
    } else if routes.last().path@ == path {
        methods_of(routes.drop_last(), path) + texts(routes.last().methods@)
    } else {
        methods_of(routes.drop_last(), path)
    }
}

proof fn offered_methods(routes: Seq<RouteSpec>, path: Seq<char>, method: Seq<char>)
    ensures
        methods_of(routes, path).contains(method) <==> offer(routes, path, method) is Some,
    decreases routes.len(),
{
    if routes.len() > 0 {
        let init = routes.drop_last();
        offered_methods(init, path, method);
        if routes.last().path@ == path {
            let a = methods_of(init, path);
            let b = texts(routes.last().methods@);
            if a.contains(method) {
                let i = choose|i: int| 0 <= i < a.len() && a[i] == method;
                assert((a + b)[i] == method);
            }
            if b.contains(method) {
                let i = choose|i: int| 0 <= i < b.len() && b[i] == method;
                assert((a + b)[a.len() + i] == method);
            }
            if (a + b).contains(method) {
                let i = choose|i: int| 0 <= i < (a + b).len() && (a + b)[i] == method;
                if i < a.len() {
                    assert(a[i] == method);
                } else {
                    assert(b[i - a.len()] == method);
                }
            }
        }
    }
}

fn find_offer(routes: &Vec<RouteSpec>, path: &str, method: &str) -> (r: Option<usize>)
    ensures
        match r {
            Some(k) => k < routes.len() && offer(routes@, path@, method@) == Some(k as int),
            None => offer(routes@, path@, method@) is None,
        },
{
    let mut n: usize = routes.len();
    assert(routes@.take(n as int) =~= routes@);
    while n > 0
        invariant
            n <= routes.len(),
            offer(routes@, path@, method@) == offer(routes@.take(n as int), path@, method@),
        decreases n,
    {
        assert(routes@.take(n as int).drop_last() =~= routes@.take(n - 1));
        let r = &routes[n - 1];
        if same(r.path.as_str(), path) && has_text(&r.methods, method) {
            return Some(n - 1);
        }
        n -= 1;
    }
    None
}

pub open spec fn lists_method(ops: Seq<Operation>, method: Seq<char>) -> bool {
    exists|j: int| 0 <= j < ops.len() && (#[trigger] ops[j]).method@ == method
}

pub open spec fn lists_path(items: Seq<PathItem>, path: Seq<char>) -> bool {
    exists|j: int| 0 <= j < items.len() && (#[trigger] items[j]).path@ == path
}

pub open spec fn has_route(routes: Seq<RouteSpec>, path: Seq<char>) -> bool {
    exists|j: int| 0 <= j < routes.len() && (#[trigger] routes[j]).path@ == path
}

/// Whether an item holds what the routes offer under its path: each method once, in the order of
/// their names, and of two routes the later.
pub open spec fn item_holds(item: PathItem, routes: Seq<RouteSpec>) -> bool {
    let ops = item.operations@;
    &&& forall|a: int, b: int|
        0 <= a < b < ops.len() ==> text_le((#[trigger] ops[a]).method@, (#[trigger] ops[b]).method@)
            && ops[a].method@ != ops[b].method@
    &&& forall|m: Seq<char>|
        #[trigger] lists_method(ops, m) <==> offer(routes, item.path@, m) is Some
    &&& forall|j: int|
        0 <= j < ops.len() ==> offer(routes, item.path@, (#[trigger] ops[j]).method@) is Some
            && describes(
            ops[j],
            routes[offer(routes, item.path@, ops[j].method@)->0],
            ops[j].method@,
        )
}

fn path_item(routes: &Vec<RouteSpec>, path: &String) -> (r: PathItem)
    ensures
        r.path == *path,
        item_holds(r, routes@),
{
    broadcast use crate::text::texts_push, crate::text::texts_empty;

    let mut all: Vec<String> = Vec::new();
    let mut i: usize = 0;
    assert(routes@.take(0) =~= Seq::empty());
    while i < routes.len()
        invariant
            i <= routes.len(),
            texts(all@) == methods_of(routes@.take(i as int), path@),
        decreases routes.len() - i,
    {
        assert(routes@.take(i + 1).drop_last() =~= routes@.take(i as int));
        let r = &routes[i];
        if same(r.path.as_str(), path.as_str()) {
            let ghost before = texts(all@);
            let mut k: usize = 0;
            assert(texts(r.methods@).take(0) =~= Seq::empty());
            assert(before + Seq::<Seq<char>>::empty() =~= before);
            while k < r.methods.len()
                invariant
                    k <= r.methods.len(),
                    texts(all@) == before + texts(r.methods@).take(k as int),
                decreases r.methods.len() - k,
            {
                let m = r.methods[k].clone();
                let ghost now = texts(all@);
                all.push(m);
                proof {
                    texts_push(all@.drop_last(), m);
                    assert(all@.drop_last().push(m) =~= all@);
                    assert(texts(r.methods@)[k as int] == m@);
                    assert(texts(all@) =~= now.push(m@));
                    assert(texts(all@) =~= before + texts(r.methods@).take(k + 1));
                }
                k += 1;
            }
            assert(texts(r.methods@).take(r.methods@.len() as int) =~= texts(r.methods@));
        }
        i += 1;
    }
    assert(routes@.take(routes@.len() as int) =~= routes@);
    let names = distinct_sorted(&all);
    let mut operations: Vec<Operation> = Vec::new();
    let mut n: usize = 0;
    while n < names.len()
        invariant
            n <= names.len(),
            texts(all@) == methods_of(routes@, path@),
            forall|x: Seq<char>| #[trigger] texts(names@).contains(x) <==> texts(all@).contains(x),
            operations@.len() == n,
            forall|j: int|
                0 <= j < n ==> (#[trigger] operations@[j]).method@ == names@[j]@ && offer(
                    routes@,
                    path@,
                    names@[j]@,
                ) is Some && describes(
                    operations@[j],
                    routes@[offer(routes@, path@, names@[j]@)->0],
                    names@[j]@,
                ),
        decreases names.len() - n,
    {
        let m = names[n].as_str();
        proof {
            assert(texts(names@)[n as int] == m@);
            assert(texts(names@).contains(m@));
            offered_methods(routes@, path@, m@);
        }
        if let Some(k) = find_offer(routes, path.as_str(), m) {
            let op = operation(&routes[k], m);
            operations.push(op);
        }
        n += 1;
    }
    let r = PathItem { path: path.clone(), operations };
    proof {
        let ops = r.operations@;
        assert forall|m: Seq<char>| #[trigger] lists_method(ops, m) <==> offer(
            routes@,
            path@,
            m,
        ) is Some by {
            offered_methods(routes@, path@, m);
            if lists_method(ops, m) {
                let j = choose|j: int| 0 <= j < ops.len() && (#[trigger] ops[j]).method@ == m;
                assert(names@[j]@ == m);
            }
            if offer(routes@, path@, m) is Some {
                assert(texts(names@).contains(m));
                let j = choose|j: int| 0 <= j < texts(names@).len() && texts(names@)[j] == m;
                assert(ops[j].method@ == m);
            }
        }
        assert forall|a: int, b: int| 0 <= a < b < ops.len() implies text_le(
            (#[trigger] ops[a]).method@,
            (#[trigger] ops[b]).method@,
        ) && ops[a].method@ != ops[b].method@ by {
            assert(text_le(names@[a]@, names@[b]@) && names@[a]@ != names@[b]@);
        }
    }
    r
}

/// Whether no two operations of a document have the same id.
pub open spec fn distinct_ids(doc: Seq<PathItem>) -> bool {
    forall|i: int, j: int, k: int, l: int|
        0 <= i < doc.len() && 0 <= j < doc[i].operations@.len() && 0 <= k < doc.len() && 0 <= l
            < doc[k].operations@.len() && !(i == k && j == l) ==> (#[trigger] doc[i].operations@[j]).operation_id@
            != (#[trigger] doc[k].operations@[l]).operation_id@
}

/// Whether a document describes the routes: each path once, in the order of their names, and
/// under each the methods that some route offers.
pub open spec fn describes_all(doc: Seq<PathItem>, routes: Seq<RouteSpec>) -> bool {
    &&& forall|a: int, b: int|
        0 <= a < b < doc.len() ==> text_le((#[trigger] doc[a]).path@, (#[trigger] doc[b]).path@)
            && doc[a].path@ != doc[b].path@
    &&& forall|p: Seq<char>| #[trigger] lists_path(doc, p) <==> has_route(routes, p)
    &&& forall|i: int| 0 <= i < doc.len() ==> item_holds(#[trigger] doc[i], routes)
}

/// Whether a text is made of letters in lower case.
pub open spec fn is_lower_word(w: Seq<char>) -> bool {
    forall|i: int| 0 <= i < w.len() ==> 'a' <= #[trigger] w[i] <= 'z'
}

proof fn lower_pieces(s: Seq<char>, k: int)
    requires
        names_methods(s),
        0 <= k < white_pieces(s).len(),
    ensures
        white_pieces(s).len() > 0,
        is_lower_word(white_pieces(s)[k]),
    decreases s.len(),
{
    if s.len() > 0 {
        let init = s.drop_last();
        assert(names_methods(init)) by {
            assert forall|i: int| 0 <= i < init.len() implies #[trigger] init[i] == ' ' || 'a'
                <= init[i] <= 'z' by {
                assert(init[i] == s[i]);
            }
        }
        let c = s[s.len() - 1];
        let before = white_pieces(init);
        if is_white(c) {
            if k < before.len() {
                lower_pieces(init, k);
            }
        } else {
            pieces_nonempty(init);
            if k < before.len() - 1 {
                lower_pieces(init, k);
            } else {
                lower_pieces(init, before.len() - 1);
                assert(white_pieces(s)[k] == before.last().push(c));
            }
        }
    }
}

proof fn pieces_nonempty(s: Seq<char>)
    ensures
        white_pieces(s).len() > 0,
    decreases s.len(),
{
    if s.len() > 0 {
        pieces_nonempty(s.drop_last());
    }
}

proof fn methods_are_lower(routes: Seq<RouteSpec>, a: int, m: Seq<char>)
    requires
        is_table(routes),
        0 <= a < routes.len(),
        texts(routes[a].methods@).contains(m),
    ensures
        is_lower_word(m),
        spec_ascii_lower(m) == m,
        is_ascii_chars(m),
{
    let text = ROUTE_TABLE@[a].1@;
    assert(is_row(routes[a], ROUTE_TABLE@[a]));
    rows_name_methods(a);
    let all = spec_words(text);
    let k = choose|k: int| 0 <= k < all.len() && all[k] == m;
    let pieces = white_pieces(text);
    collected_has_source(pieces, word_rule(), k);
    let i = choose|i: int|
        0 <= i < pieces.len() && word_rule()(#[trigger] pieces[i]) == Some(all[k]);
    lower_pieces(text, i);
    assert(m == pieces[i]);
    assert(spec_ascii_lower(m) =~= m);
}

proof fn an_offer_is_a_row(routes: Seq<RouteSpec>, path: Seq<char>, m: Seq<char>)
    requires
        offer(routes, path, m) is Some,
    ensures
        0 <= offer(routes, path, m)->0 < routes.len(),
        routes[offer(routes, path, m)->0].path@ == path,
        texts(routes[offer(routes, path, m)->0].methods@).contains(m),
    decreases routes.len(),
{
    if !(routes.last().path@ == path && texts(routes.last().methods@).contains(m)) {
        an_offer_is_a_row(routes.drop_last(), path, m);
    }
}

proof fn ids_tell(m: Seq<char>, n: Seq<char>, p: Seq<char>, q: Seq<char>)
    requires
        is_lower_word(m),
        is_lower_word(n),
        operation_id(m, p) == operation_id(n, q),
    ensures
        m == n,
        spec_tail_word(p) == spec_tail_word(q),
{
    reveal_strlit("_");
    let x = operation_id(m, p);
    let y = operation_id(n, q);
    assert(x[m.len() as int] == '_');
    assert(y[n.len() as int] == '_');
    if m.len() < n.len() {
        assert(y[m.len() as int] == n[m.len() as int]);
    } else if n.len() < m.len() {
        assert(x[n.len() as int] == m[n.len() as int]);
    }
    assert(x.take(m.len() as int) =~= m);
    assert(y.take(n.len() as int) =~= n);
    assert(x.skip(m.len() + 1int) =~= spec_tail_word(p));
    assert(y.skip(n.len() + 1int) =~= spec_tail_word(q));
}

/// An id names one operation: in the description of the server's routes no two operations have
/// the same.
pub proof fn operation_ids_differ(doc: Seq<PathItem>, routes: Seq<RouteSpec>)
    requires
        is_table(routes),
        describes_all(doc, routes),
    ensures
        distinct_ids(doc),
{
    assert forall|i: int, j: int, k: int, l: int|
        0 <= i < doc.len() && 0 <= j < doc[i].operations@.len() && 0 <= k < doc.len() && 0 <= l
            < doc[k].operations@.len() && !(i == k && j == l) implies (#[trigger] doc[i].operations@[j]).operation_id@
        != (#[trigger] doc[k].operations@[l]).operation_id@ by {
        let f = doc[i].operations@[j];
        let g = doc[k].operations@[l];
        let p = doc[i].path@;
        let q = doc[k].path@;
        assert(item_holds(doc[i], routes) && item_holds(doc[k], routes));
        let a = offer(routes, p, f.method@)->0;
        let b = offer(routes, q, g.method@)->0;
        an_offer_is_a_row(routes, p, f.method@);
        an_offer_is_a_row(routes, q, g.method@);
        methods_are_lower(routes, a, f.method@);
        methods_are_lower(routes, b, g.method@);
        assert(is_row(routes[a], ROUTE_TABLE@[a]) && is_row(routes[b], ROUTE_TABLE@[b]));
        if f.operation_id@ == g.operation_id@ {
            ids_tell(f.method@, g.method@, p, q);
            if i == k {
                if j < l {
                    assert(doc[i].operations@[j].method@ != doc[i].operations@[l].method@);
                } else {
                    assert(doc[i].operations@[l].method@ != doc[i].operations@[j].method@);
                }
            } else {
                if i < k {
                    assert(doc[i].path@ != doc[k].path@);
                } else {
                    assert(doc[k].path@ != doc[i].path@);
                }
                rows_have_their_own_ids(a, b);
            }
        }
    }
}

/// Whether every operation of a document has a tag and a summary.
pub open spec fn labelled(doc: Seq<PathItem>) -> bool {
    forall|i: int, j: int|
        0 <= i < doc.len() && 0 <= j < doc[i].operations@.len() ==> (#[trigger] doc[i].operations@[j]).tag@.len()
            > 0 && doc[i].operations@[j].summary@.len() > 0
}

/// Whether no route gives itself an empty tag or an empty summary.
pub open spec fn labels_given(routes: Seq<RouteSpec>) -> bool {
    forall|i: int|
        0 <= i < routes.len() ==> ((#[trigger] routes[i]).tag matches Some(t) ==> t@.len() > 0) && (
        routes[i].summary matches Some(t) ==> t@.len() > 0)
}

/// Every operation has a tag and a summary that is not empty, unless its route asks for an empty
/// one; the server's own routes ask for none.
pub proof fn operations_are_labelled(doc: Seq<PathItem>, routes: Seq<RouteSpec>)
    requires
        describes_all(doc, routes),
    ensures
        labels_given(routes) ==> labelled(doc),
        is_table(routes) ==> labelled(doc),
{
    if is_table(routes) {
        assert forall|i: int| 0 <= i < routes.len() implies (#[trigger] routes[i]).tag is None
            && routes[i].summary is None by {
            assert(is_row(routes[i], ROUTE_TABLE@[i]));
        }
        assert(labels_given(routes));
    }
    if labels_given(routes) {
        assert forall|i: int, j: int|
            0 <= i < doc.len() && 0 <= j < doc[i].operations@.len() implies (#[trigger] doc[i].operations@[j]).tag@.len()
            > 0 && doc[i].operations@[j].summary@.len() > 0 by {
            let op = doc[i].operations@[j];
            assert(item_holds(doc[i], routes));
            let k = offer(routes, doc[i].path@, op.method@)->0;
            an_offer_is_a_row(routes, doc[i].path@, op.method@);
            assert(describes(op, routes[k], op.method@));
        }
    }
}

/// Describes all routes: each path once, in the order of their names, and under each the methods
/// that some route offers. No route and no method is left out. Of the server's own routes no two
/// operations share an id, and each operation has a tag and a summary.
pub fn build_document(routes: &Vec<RouteSpec>) -> (r: Vec<PathItem>)
    ensures
        describes_all(r@, routes@),
        is_table(routes@) ==> distinct_ids(r@),
        is_table(routes@) || labels_given(routes@) ==> labelled(r@),
{
    broadcast use crate::text::texts_push, crate::text::texts_empty;

    let mut all: Vec<String> = Vec::new();
    let mut i: usize = 0;
    while i < routes.len()
        invariant
            i <= routes.len(),
            all@.len() == i,
            forall|k: int| 0 <= k < i ==> #[trigger] all@[k] == routes@[k].path,
        decreases routes.len() - i,
    {
        all.push(routes[i].path.clone());
        i += 1;
    }
    let names = distinct_sorted(&all);
    let mut r: Vec<PathItem> = Vec::new();
    let mut n: usize = 0;
    while n < names.len()
        invariant
            n <= names.len(),
            r@.len() == n,
            forall|j: int|
                0 <= j < n ==> (#[trigger] r@[j]).path == names@[j] && item_holds(r@[j], routes@),
        decreases names.len() - n,
    {
        let item = path_item(routes, &names[n]);
        r.push(item);
        n += 1;
    }
    proof {
        assert forall|p: Seq<char>| #[trigger] lists_path(r@, p) <==> has_route(routes@, p) by {
            if lists_path(r@, p) {
                let j = choose|j: int| 0 <= j < r@.len() && (#[trigger] r@[j]).path@ == p;
                assert(texts(names@)[j] == p);
                assert(texts(names@).contains(p));
                let k = choose|k: int| 0 <= k < texts(all@).len() && texts(all@)[k] == p;
                assert(routes@[k].path@ == p);
            }
            if has_route(routes@, p) {
                let k = choose|k: int| 0 <= k < routes@.len() && (#[trigger] routes@[k]).path@ == p;
                assert(texts(all@)[k] == p);
                assert(texts(names@).contains(p));
                let j = choose|j: int| 0 <= j < texts(names@).len() && texts(names@)[j] == p;
                assert(r@[j].path@ == p);
            }
        }
        assert forall|a: int, b: int| 0 <= a < b < r@.len() implies text_le(
            (#[trigger] r@[a]).path@,
            (#[trigger] r@[b]).path@,
        ) && r@[a].path@ != r@[b].path@ by {
            assert(text_le(names@[a]@, names@[b]@) && names@[a]@ != names@[b]@);
        }
        assert(describes_all(r@, routes@));
        if is_table(routes@) {
            operation_ids_differ(r@, routes@);
        }
        operations_are_labelled(r@, routes@);
    }
    r
}

proof fn starts_as_prefix(s: Seq<char>, p: Seq<char>)
    ensures
        spec_starts(s, p) <==> p.is_prefix_of(s),
{
    if spec_starts(s, p) {
        assert(p =~= s.subrange(0, p.len() as int));
    }
    if p.is_prefix_of(s) {
        assert(s.take(p.len() as int) =~= p);
    }
}

/// A path asks nothing of its caller exactly if it is one of the three that are open to all, or a
/// share page. Of the others those on accounts, tokens and share links ask for a role that
/// administers, the rest for a session.
pub proof fn what_a_path_asks(path: Seq<char>)
    ensures
        ({
            let open = path == "/api/health"@ || path == "/api/openapi.json"@ || path
                == "/api/auth/login"@ || "/s/"@.is_prefix_of(path);
            let admin = "/api/auth/users"@.is_prefix_of(path) || "/api/auth/tokens"@.is_prefix_of(
                path,
            ) || spec_contains(path, "/share-links"@);
            &&& spec_security(path) == SecurityLevel::Public <==> open
            &&& spec_security(path) == SecurityLevel::Admin <==> admin && !open
            &&& spec_security(path) == SecurityLevel::Authenticated <==> !admin && !open
        }),
{
    starts_as_prefix(path, "/s/"@);
    starts_as_prefix(path, "/api/auth/users"@);
    starts_as_prefix(path, "/api/auth/tokens"@);
}

/// The parameters of a path are its segments that begin with a colon, without it, in their order.
pub proof fn parameters_begin_with_a_colon(parts: Seq<Seq<char>>)
    ensures
        params_of(parts) == parts.filter(|p: Seq<char>| p.len() > 0 && p[0] == ':').map_values(
            |p: Seq<char>| p.skip(1),
        ),
    decreases parts.len(),
{
    reveal(Seq::filter);
    reveal_strlit(":");
    let keep = |p: Seq<char>| p.len() > 0 && p[0] == ':';
    let bare = |p: Seq<char>| p.skip(1);
    if parts.len() == 0 {
        assert(params_of(parts) =~= parts.filter(keep).map_values(bare));
    } else {
        let init = parts.drop_last();
        let last = parts.last();
        parameters_begin_with_a_colon(init);
        a_colon_in_front(last);
        let kept = init.filter(keep);
        assert(kept.push(last).map_values(bare) =~= kept.map_values(bare).push(bare(last)));
    }
}

proof fn a_colon_in_front(s: Seq<char>)
    ensures
        spec_starts(s, ":"@) <==> s.len() > 0 && s[0] == ':',
{
    reveal_strlit(":");
    if s.len() > 0 {
        assert(s.take(1)[0] == s[0]);
        if s[0] == ':' {
            assert(s.take(1) =~= ":"@);
        }
    }
}

/// A tag is the area without its dashes and underscores.
pub proof fn an_area_has_no_marks(s: Seq<char>)
    ensures
        unmarked(s) == s.filter(|c: char| c != '-' && c != '_'),
    decreases s.len(),
{
    reveal(Seq::filter);
    if s.len() > 0 {
        an_area_has_no_marks(s.drop_last());
    }
}

/// The area of a path is its first static segment below the API; what lies elsewhere has none.
pub proof fn an_area_is_the_first_static_segment(seg: Seq<char>, rest: Seq<char>, path: Seq<char>)
    requires
        !seg.contains('/'),
        seg.len() == 0 || seg[0] != ':',
    ensures
        area("/api/"@ + seg + seq!['/'] + rest) == unmarked(seg),
        area("/api/"@ + seg) == unmarked(seg),
        !"/api/"@.is_prefix_of(path) ==> area(path).len() == 0,
{
    let p = "/api/"@;
    let long = p + seg + seq!['/'] + rest;
    assert(long.take(p.len() as int) =~= p);
    assert(long.skip(p.len() as int) =~= seg + seq!['/'] + rest);
    split_of_joined(seg, rest, '/');
    split_without(seg, '/');
    assert((p + seg).take(p.len() as int) =~= p);
    assert((p + seg).skip(p.len() as int) =~= seg);
    a_colon_in_front(seg);
    starts_as_prefix(path, p);
    assert(spec_split(seg + seq!['/'] + rest, '/')[0] == seg);
    assert(first_static(spec_split(seg + seq!['/'] + rest, '/')) == Some(seg));
    assert(first_static(spec_split(seg, '/')) == Some(seg));
}

/// A parameter stands in an id by its bare name, and a dash as an underscore; nothing else changes.
pub proof fn an_id_bears_the_bare_segment(seg: Seq<char>, i: int)
    requires
        seg.len() == 0 || seg[0] != ':',
        0 <= i < seg.len(),
    ensures
        id_part(seg).len() == seg.len(),
        seg[i] == '-' || seg[i] == ':' ==> id_part(seg)[i] == '_',
        seg[i] != '-' && seg[i] != ':' ==> id_part(seg)[i] == seg[i],
        id_part(seq![':'] + seg) == id_part(seg),
{
    assert((seq![':'] + seg).skip(1) =~= seg);
    reveal_with_fuel(spec_trim_start_char, 2);
}

/// The ids of the segments are joined by underscores, in their order.
pub proof fn an_id_joins_its_segments(a: Seq<Seq<char>>, b: Seq<Seq<char>>)
    requires
        a.len() > 0,
        b.len() > 0,
    ensures
        id_parts(a + b) == id_parts(a) + "_"@ + id_parts(b),
    decreases b.len(),
{
    let whole = a + b;
    assert(whole.last() == b.last());
    assert(whole.drop_last() =~= a + b.drop_last());
    if b.len() == 1 {
        assert(a + b.drop_last() =~= a);
    } else {
        an_id_joins_its_segments(a, b.drop_last());
        assert(id_parts(whole) =~= id_parts(a) + "_"@ + id_parts(b));
    }
}

/// A text in upper case at its front keeps all that follows.
pub proof fn a_capital_changes_the_first_letter_alone(s: Seq<char>)
    ensures
        s.len() > 0 && 'a' <= s[0] <= 'z' ==> capitalised(s).len() == s.len() && capitalised(
            s,
        )[0] as int == s[0] as int - 32 && capitalised(s).skip(1) == s.skip(1),
        s.len() > 0 && 'A' <= s[0] <= 'Z' ==> capitalised(s) == s,
        s.len() == 0 ==> capitalised(s) == s,
{
    if s.len() > 0 && 'a' <= s[0] <= 'z' {
        assert(capitalised(s).skip(1) =~= s.skip(1));
    }
    if s.len() > 0 && 'A' <= s[0] <= 'Z' {
        assert(capitalised(s) =~= s);
    }
}

/// Of several routes with a path and a method the last one is described.
pub proof fn the_last_route_is_described(routes: Seq<RouteSpec>, path: Seq<char>, method: Seq<char>)
    ensures
        match offer(routes, path, method) {
            Some(k) => {
                &&& 0 <= k < routes.len()
                &&& routes[k].path@ == path && texts(routes[k].methods@).contains(method)
                &&& forall|j: int|
                    k < j < routes.len() ==> !((#[trigger] routes[j]).path@ == path && texts(
                        routes[j].methods@,
                    ).contains(method))
            },
            None => forall|j: int|
                0 <= j < routes.len() ==> !((#[trigger] routes[j]).path@ == path && texts(
                    routes[j].methods@,
                ).contains(method)),
        },
    decreases routes.len(),
{
    if routes.len() > 0 {
        let init = routes.drop_last();
        the_last_route_is_described(init, path, method);
        assert(forall|j: int| 0 <= j < init.len() ==> #[trigger] routes[j] == init[j]);
    }
}

/// The document leaves out no route and no method: each is described under its path.
pub proof fn no_route_is_left_out(doc: Seq<PathItem>, routes: Seq<RouteSpec>, i: int, method: Seq<char>)
    requires
        describes_all(doc, routes),
        0 <= i < routes.len(),
        texts(routes[i].methods@).contains(method),
    ensures
        exists|a: int, b: int|
            0 <= a < doc.len() && 0 <= b < doc[a].operations@.len() && doc[a].path@
                == routes[i].path@ && (#[trigger] doc[a].operations@[b]).method@ == method,
{
    let path = routes[i].path@;
    assert(has_route(routes, path));
    assert(lists_path(doc, path));
    let a = choose|a: int| 0 <= a < doc.len() && (#[trigger] doc[a]).path@ == path;
    assert(item_holds(doc[a], routes));
    the_last_route_is_described(routes, path, method);
    assert(lists_method(doc[a].operations@, method));
    let b = choose|b: int|
        0 <= b < doc[a].operations@.len() && (#[trigger] doc[a].operations@[b]).method@ == method;
    assert(doc[a].operations@[b].method@ == method);
}

/// Whatever the document describes a route offers, and it is described as that route is: by its
/// own tag and summary where it has them, and with what its path asks of the caller.
pub proof fn nothing_is_described_that_no_route_offers(
    doc: Seq<PathItem>,
    routes: Seq<RouteSpec>,
    a: int,
    b: int,
)
    requires
        describes_all(doc, routes),
        0 <= a < doc.len(),
        0 <= b < doc[a].operations@.len(),
    ensures
        ({
            let op = doc[a].operations@[b];
            exists|i: int| {
                &&& 0 <= i < routes.len()
                &&& (#[trigger] routes[i]).path@ == doc[a].path@
                &&& texts(routes[i].methods@).contains(op.method@)
                &&& routes[i].tag is Some ==> op.tag@ == routes[i].tag->0@
                &&& routes[i].summary is Some ==> op.summary@ == routes[i].summary->0@
                &&& op.security == spec_security(routes[i].path@)
                &&& op.operation_id@ == spec_lowercase(op.method@) + "_"@ + spec_tail_word(
                    routes[i].path@,
                )
                &&& op.parameters@.len() == params_of(spec_split(routes[i].path@, '/')).len()
                &&& forall|k: int|
                    0 <= k < op.parameters@.len() ==> (#[trigger] op.parameters@[k]).name@
                        == params_of(spec_split(routes[i].path@, '/'))[k]
                        && op.parameters@[k].required
            }
        }),
{
    let op = doc[a].operations@[b];
    assert(item_holds(doc[a], routes));
    an_offer_is_a_row(routes, doc[a].path@, op.method@);
    let i = offer(routes, doc[a].path@, op.method@)->0;
    assert(describes(op, routes[i], op.method@));
}

} // verus!
