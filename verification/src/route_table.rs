//! The routes that the server has.

use crate::openapi::{id_char, id_part, id_parts, spec_tail_word};
use crate::order::{text_le, text_le_from, text_le_is_an_order, text_le_is_strict};
use crate::text::{spec_split, spec_trim_start_char, split_nonempty};
use vstd::prelude::*;

verus! {

/// The routes that the server has, in the order of the ids that they give their operations: the
/// path, and the methods that it answers.
pub const ROUTE_TABLE: [(&'static str, &'static str); 187] = [
    ("/api/analyze-goal", "post"),
    ("/api/app/download/:file", "get"),
    ("/api/app/latest", "get"),
    ("/api/audit-log", "get"),
    ("/api/auth/2fa/disable", "post"),
    ("/api/auth/2fa/enable", "post"),
    ("/api/auth/2fa/enroll", "post"),
    ("/api/auth/login", "post"),
    ("/api/auth/logout", "post"),
    ("/api/auth/me", "get"),
    ("/api/auth/my/tokens", "get post"),
    ("/api/auth/my/tokens/:label", "delete"),
    ("/api/auth/profile", "patch"),
    ("/api/auth/sessions", "get"),
    ("/api/auth/tokens", "get post"),
    ("/api/auth/tokens/:label", "delete"),
    ("/api/auth/users", "get post"),
    ("/api/auth/users/:username", "delete patch"),
    ("/api/auth/users/:username/password", "post"),
    ("/api/chat/channel/:cid/topic", "get patch"),
    ("/api/chat/channels", "get post"),
    ("/api/chat/channels/:cid", "delete"),
    ("/api/chat/channels/:cid/invite", "post"),
    ("/api/chat/channels/:cid/members/:member", "delete"),
    ("/api/chat/channels/:cid/settings", "patch"),
    ("/api/chat/channels/:cid/topic", "get patch"),
    ("/api/chat/dm", "post"),
    ("/api/chat/hook/:token", "post"),
    ("/api/chat/ice", "get"),
    ("/api/chat/media/:file", "get"),
    ("/api/chat/members", "get"),
    ("/api/chat/messages", "get"),
    ("/api/chat/messages/:mid", "delete patch"),
    ("/api/chat/messages/:mid/pin", "post"),
    ("/api/chat/messages/:mid/reply", "post"),
    ("/api/chat/messages/:mid/thread", "get"),
    ("/api/chat/pins", "get"),
    ("/api/chat/react", "post"),
    ("/api/chat/search", "get"),
    ("/api/chat/send", "post"),
    ("/api/chat/upload", "post"),
    ("/api/chat/webhooks", "get post"),
    ("/api/chat/webhooks/:token", "delete"),
    ("/api/chat/ws", "get"),
    ("/api/engines", "get"),
    ("/api/engines/opencode/models", "get"),
    ("/api/fleet/ceiling", "put"),
    ("/api/fleet/river", "get"),
    ("/api/fleet/spend", "get"),
    ("/api/health", "get"),
    ("/api/manage/overview", "get"),
    ("/api/manage/spaces/:sid", "get"),
    ("/api/mcp", "post"),
    ("/api/me/agents", "get"),
    ("/api/meetings", "get post"),
    ("/api/meetings/:id", "patch"),
    ("/api/meetings/:id/join", "post"),
    ("/api/meetings/:id/ring", "post"),
    ("/api/openapi.json", "get"),
    ("/api/people-analytics", "get"),
    ("/api/pr-report", "post"),
    ("/api/pr-report/reviews", "get"),
    ("/api/profile", "post"),
    ("/api/profile/avatar", "delete post"),
    ("/api/profiles", "get"),
    ("/api/projects", "get post"),
    ("/api/projects/:pid", "delete patch"),
    ("/api/projects/:pid/agent-evals", "get"),
    ("/api/projects/:pid/agent-log", "get"),
    ("/api/projects/:pid/agent-log/stream", "get"),
    ("/api/projects/:pid/alerts", "get"),
    ("/api/projects/:pid/alerts/:id/replay", "post"),
    ("/api/projects/:pid/approval-policy", "get"),
    ("/api/projects/:pid/approval-policy/ask-again", "post"),
    ("/api/projects/:pid/approval-policy/release", "post"),
    ("/api/projects/:pid/architecture-review", "post"),
    ("/api/projects/:pid/attachment", "get"),
    ("/api/projects/:pid/audit", "get"),
    ("/api/projects/:pid/ba-analyze", "post"),
    ("/api/projects/:pid/brakes", "get"),
    ("/api/projects/:pid/brakes/:brake/hold", "delete post"),
    ("/api/projects/:pid/burn-mode", "post"),
    ("/api/projects/:pid/channels", "get post"),
    ("/api/projects/:pid/channels/:cid/invite", "post"),
    ("/api/projects/:pid/channels/:cid/members/:member", "delete"),
    ("/api/projects/:pid/channels/:cid/settings", "patch"),
    ("/api/projects/:pid/chat", "get post"),
    ("/api/projects/:pid/chat-reply", "post"),
    ("/api/projects/:pid/chat/ws", "get"),
    ("/api/projects/:pid/codegraph", "get"),
    ("/api/projects/:pid/codegraph/build", "post"),
    ("/api/projects/:pid/codegraph/deps", "get"),
    ("/api/projects/:pid/codegraph/refs", "get"),
    ("/api/projects/:pid/comments", "get post"),
    ("/api/projects/:pid/comments/:id/react", "post"),
    ("/api/projects/:pid/config", "get put"),
    ("/api/projects/:pid/context", "get post"),
    ("/api/projects/:pid/control/:action", "post"),
    ("/api/projects/:pid/dependencies", "get"),
    ("/api/projects/:pid/deps/scan", "post"),
    ("/api/projects/:pid/digest", "post"),
    ("/api/projects/:pid/discuss", "post"),
    ("/api/projects/:pid/doc-folders", "get post"),
    ("/api/projects/:pid/doc-folders/delete", "post"),
    ("/api/projects/:pid/docs", "get"),
    ("/api/projects/:pid/docs/generate", "post"),
    ("/api/projects/:pid/docs/:id", "delete put"),
    ("/api/projects/:pid/docs/:id/ai-edit", "post"),
    ("/api/projects/:pid/docs/:id/move", "post"),
    ("/api/projects/:pid/docs/:id/ws", "get"),
    ("/api/projects/:pid/docs-review", "post"),
    ("/api/projects/:pid/events", "get"),
    ("/api/projects/:pid/file", "get"),
    ("/api/projects/:pid/git/auth", "get"),
    ("/api/projects/:pid/git/connect", "post"),
    ("/api/projects/:pid/git/test", "post"),
    ("/api/projects/:pid/goals", "post"),
    ("/api/projects/:pid/goals/:gid/rename", "post"),
    ("/api/projects/:pid/goals/outcomes", "get"),
    ("/api/projects/:pid/inbox", "get"),
    ("/api/projects/:pid/lessons/dismiss", "post"),
    ("/api/projects/:pid/lessons/escalate", "post"),
    ("/api/projects/:pid/media/:file", "get"),
    ("/api/projects/:pid/members", "get post"),
    ("/api/projects/:pid/members/:username", "delete"),
    ("/api/projects/:pid/merge-sweep", "post"),
    ("/api/projects/:pid/metrics", "get"),
    ("/api/projects/:pid/metrics/burndown", "get"),
    ("/api/projects/:pid/metrics/summary", "get"),
    ("/api/projects/:pid/metrics/trends", "get"),
    ("/api/projects/:pid/milestone-complete/:name", "post"),
    ("/api/projects/:pid/milestones/projection", "get"),
    ("/api/projects/:pid/operators/:operator/:action", "post"),
    ("/api/projects/:pid/pr/:number/human", "post"),
    ("/api/projects/:pid/preflight", "get"),
    ("/api/projects/:pid/prs", "get"),
    ("/api/projects/:pid/prs/:num/:action", "post"),
    ("/api/projects/:pid/prs/:num/diff", "get"),
    ("/api/projects/:pid/reverts/:sha", "post"),
    ("/api/projects/:pid/runner", "get"),
    ("/api/projects/:pid/share-links", "get post"),
    ("/api/projects/:pid/share-links/:token", "delete"),
    ("/api/projects/:pid/sprint/:action", "post"),
    ("/api/projects/:pid/sprint/close", "post"),
    ("/api/projects/:pid/sprint/goal", "post"),
    ("/api/projects/:pid/sprint-queue", "post"),
    ("/api/projects/:pid/sprint-queue/:qid", "delete"),
    ("/api/projects/:pid/sprint-queue/:qid/move/:dir", "post"),
    ("/api/projects/:pid/sprint-queue/:qid/rename", "post"),
    ("/api/projects/:pid/sprint-queue/:qid/scope", "post"),
    ("/api/projects/:pid/standup", "post"),
    ("/api/projects/:pid/state", "get"),
    ("/api/projects/:pid/store", "get post"),
    ("/api/projects/:pid/terminal", "get"),
    ("/api/projects/:pid/ticket/:id", "get"),
    ("/api/projects/:pid/ticket/:id/approve-cost", "post"),
    ("/api/projects/:pid/ticket/:id/assign", "post"),
    ("/api/projects/:pid/ticket/:id/attachments", "delete post"),
    ("/api/projects/:pid/ticket/:id/edit", "post"),
    ("/api/projects/:pid/ticket/:id/goal", "post"),
    ("/api/projects/:pid/ticket/:id/priority", "post"),
    ("/api/projects/:pid/ticket/:id/ready", "post"),
    ("/api/projects/:pid/ticket/:id/reject", "post"),
    ("/api/projects/:pid/ticket/:id/reproduction-url", "get"),
    ("/api/projects/:pid/ticket/:id/send-back", "post"),
    ("/api/projects/:pid/ticket/:id/status/:action", "post"),
    ("/api/projects/:pid/ticket/:id/undo-approval", "post"),
    ("/api/projects/:pid/ticket/:id/unpark", "post"),
    ("/api/projects/:pid/ticket/:id/verify", "post"),
    ("/api/projects/:pid/ticket-refine", "post"),
    ("/api/projects/:pid/tickets", "post"),
    ("/api/projects/:pid/transcripts", "get"),
    ("/api/projects/:pid/transcripts/:name", "get"),
    ("/api/projects/:pid/upload", "post"),
    ("/api/projects/:pid/workers", "get"),
    ("/api/projects/:pid/workspace", "get"),
    ("/api/search", "get"),
    ("/api/spaces", "get post"),
    ("/api/spaces/:sid", "delete put"),
    ("/api/token-saver", "get"),
    ("/api/tooling", "get"),
    ("/api/workspace", "get put"),
    ("/api/workspace/invites", "get post"),
    ("/api/workspace/invites/:token", "delete"),
    ("/api/workspace/join", "post"),
    ("/api/workspace/overview", "get"),
    ("/s/:token", "get"),
];

/// What stands for a character of a path in an operation's id.
pub open spec fn mark(c: char) -> char {
    if c == '/' {
        '_'
    } else {
        id_char(c)
    }
}

/// Whether the segment that holds the character before the `i`th has nothing but colons so far.
pub open spec fn opening(p: Seq<char>, i: int) -> bool
    decreases i,
{
    if i < 1 {
        false
    } else {
        p[i - 1] == '/' || (p[i - 1] == ':' && opening(p, i - 1))
    }
}

/// Whether the `i`th character only says that a segment is a parameter.
pub open spec fn skipped(p: Seq<char>, i: int) -> bool {
    p[i] == ':' && opening(p, i)
}

/// The id that the first `n` characters of a path give.
pub open spec fn tail_to(p: Seq<char>, n: int) -> Seq<char>
    decreases n,
{
    if n <= 1 {
        Seq::empty()
    } else if skipped(p, n - 1) {
        tail_to(p, n - 1)
    } else {
        tail_to(p, n - 1).push(mark(p[n - 1]))
    }
}

/// Whether a path has a slash in front, one alone, and something behind it.
pub open spec fn is_path(p: Seq<char>) -> bool {
    p.len() > 1 && p[0] == '/' && p[1] != '/'
}

/// Whether a text names methods: letters in lower case, with spaces between.
pub open spec fn names_methods(m: Seq<char>) -> bool {
    forall|i: int| 0 <= i < m.len() ==> #[trigger] m[i] == ' ' || 'a' <= m[i] <= 'z'
}

/// Whether the id of `p` from its `i`th character on comes before that of `q` from its `j`th on.
pub open spec fn before(p: Seq<char>, i: int, q: Seq<char>, j: int) -> bool
    decreases p.len() - i + q.len() - j,
{
    if i < 1 || j < 1 || i > p.len() || j >= q.len() {
        false
    } else if skipped(q, j) {
        before(p, i, q, j + 1)
    } else if i >= p.len() {
        true
    } else if skipped(p, i) {
        before(p, i + 1, q, j)
    } else if mark(p[i]) == mark(q[j]) {
        before(p, i + 1, q, j + 1)
    } else {
        mark(p[i]) < mark(q[j])
    }
}

/// Whether a row of the table is one, and its id comes before that of the next.
spec fn row_holds(k: int) -> bool {
    &&& is_path(ROUTE_TABLE@[k].0@)
    &&& names_methods(ROUTE_TABLE@[k].1@)
    &&& k + 1 < ROUTE_TABLE@.len() ==> before(
        ROUTE_TABLE@[k].0@,
        1,
        ROUTE_TABLE@[k + 1].0@,
        1,
    )
}

proof fn trimming_on(s: Seq<char>, x: char, c: char)
    ensures
        spec_trim_start_char(s.push(x), c) == if spec_trim_start_char(s, c).len() == 0 && x == c {
            Seq::empty()
        } else {
            spec_trim_start_char(s, c).push(x)
        },
    decreases s.len(),
{
    if s.len() == 0 {
        assert(s.push(x).skip(1) =~= Seq::empty());
        assert(s =~= Seq::empty());
    } else if s[0] == c {
        assert(s.push(x).skip(1) =~= s.skip(1).push(x));
        trimming_on(s.skip(1), x, c);
    }
}

/// The id of a path, character by character.
proof fn tail_is_marked(p: Seq<char>, n: int)
    requires
        1 <= n <= p.len(),
        p[0] == '/',
    ensures
        id_parts(spec_split(p.subrange(1, n), '/')) == tail_to(p, n),
        (spec_trim_start_char(spec_split(p.subrange(1, n), '/').last(), ':').len() == 0) == opening(
            p,
            n,
        ),
    decreases n,
{
    let s = p.subrange(1, n);
    let parts = spec_split(s, '/');
    split_nonempty(s, '/');
    reveal_strlit("_");
    if n == 1 {
        assert(parts =~= seq![Seq::<char>::empty()]);
        assert(id_part(parts[0]) =~= Seq::empty());
    } else {
        let c = p[n - 1];
        let t = p.subrange(1, n - 1);
        let init = spec_split(t, '/');
        tail_is_marked(p, n - 1);
        split_nonempty(t, '/');
        assert(s.drop_last() =~= t);
        if c == '/' {
            assert(parts.drop_last() =~= init);
            assert(id_part(Seq::<char>::empty()) =~= Seq::empty());
            assert(id_parts(parts) =~= id_parts(init).push('_'));
        } else {
            let last = init.last();
            trimming_on(last, c, ':');
            assert(parts.drop_last() =~= init.drop_last());
            assert(parts.last() == last.push(c));
            if skipped(p, n - 1) {
                assert(id_part(last.push(c)) =~= id_part(last));
            } else {
                assert(id_part(last.push(c)) =~= id_part(last).push(id_char(c)));
            }
            if init.len() == 1 {
                assert(parts =~= seq![last.push(c)]);
                assert(init =~= seq![last]);
            } else {
                let front = id_parts(init.drop_last()) + "_"@;
                assert(id_parts(parts) =~= front + id_part(last.push(c)));
                assert(id_parts(init) =~= front + id_part(last));
                assert(front + id_part(last).push(id_char(c)) =~= (front + id_part(last)).push(
                    id_char(c),
                ));
            }
        }
    }
}

proof fn tail_of_path(p: Seq<char>)
    requires
        is_path(p),
    ensures
        spec_tail_word(p) == tail_to(p, p.len() as int),
{
    let s = p.skip(1);
    assert(spec_trim_start_char(s, '/') == s);
    assert(spec_trim_start_char(p, '/') == s);
    assert(s =~= p.subrange(1, p.len() as int));
    tail_is_marked(p, p.len() as int);
}

proof fn tail_grows(p: Seq<char>, i: int, n: int)
    requires
        1 <= i <= n,
    ensures
        tail_to(p, i).len() <= tail_to(p, n).len(),
        tail_to(p, n).take(tail_to(p, i).len() as int) == tail_to(p, i),
    decreases n - i,
{
    if i < n {
        tail_grows(p, i, n - 1);
        assert(tail_to(p, n).take(tail_to(p, i).len() as int) =~= tail_to(p, n - 1).take(
            tail_to(p, i).len() as int,
        ));
    } else {
        assert(tail_to(p, n).take(tail_to(p, n).len() as int) =~= tail_to(p, n));
    }
}

proof fn first_difference_decides(a: Seq<char>, b: Seq<char>, k: int, m: int)
    requires
        0 <= k <= m <= a.len(),
        m < b.len(),
        a.take(m) == b.take(m),
        m == a.len() || a[m] < b[m],
    ensures
        text_le_from(a, b, k),
        a != b,
    decreases m - k,
{
    if k < m {
        assert(a.take(m)[k] == a[k]);
        assert(b.take(m)[k] == b[k]);
        first_difference_decides(a, b, k + 1, m);
        assert(text_le_from(a, b, k + 1));
        assert(a[k] == b[k]);
    } else if m < a.len() {
        assert(a[m] != b[m]);
    }
}

proof fn before_is_strict(p: Seq<char>, i: int, q: Seq<char>, j: int)
    requires
        before(p, i, q, j),
        tail_to(p, i) == tail_to(q, j),
    ensures
        text_le(tail_to(p, p.len() as int), tail_to(q, q.len() as int)),
        tail_to(p, p.len() as int) != tail_to(q, q.len() as int),
    decreases p.len() - i + q.len() - j,
{
    let a = tail_to(p, p.len() as int);
    let b = tail_to(q, q.len() as int);
    let m = tail_to(p, i).len() as int;
    if skipped(q, j) {
        before_is_strict(p, i, q, j + 1);
    } else if i >= p.len() {
        tail_grows(q, j, q.len() as int);
        tail_grows(q, j + 1, q.len() as int);
        assert(a.take(m) =~= b.take(m));
        first_difference_decides(a, b, 0, m);
    } else if skipped(p, i) {
        before_is_strict(p, i + 1, q, j);
    } else if mark(p[i]) == mark(q[j]) {
        before_is_strict(p, i + 1, q, j + 1);
    } else {
        tail_grows(p, i, p.len() as int);
        tail_grows(p, i + 1, p.len() as int);
        tail_grows(q, j, q.len() as int);
        tail_grows(q, j + 1, q.len() as int);
        assert(a.take(m + 1)[m] == mark(p[i]));
        assert(b.take(m + 1)[m] == mark(q[j]));
        first_difference_decides(a, b, 0, m);
    }
}

proof fn rows_are_sorted(a: int, b: int)
    requires
        0 <= a < b < ROUTE_TABLE@.len(),
    ensures
        text_le(spec_tail_word(ROUTE_TABLE@[a].0@), spec_tail_word(ROUTE_TABLE@[b].0@)),
        spec_tail_word(ROUTE_TABLE@[a].0@) != spec_tail_word(ROUTE_TABLE@[b].0@),
    decreases b - a,
{
    let x = spec_tail_word(ROUTE_TABLE@[a].0@);
    let y = spec_tail_word(ROUTE_TABLE@[b - 1].0@);
    let z = spec_tail_word(ROUTE_TABLE@[b].0@);
    a_row_is_one(b - 1);
    a_row_is_one(b);
    tail_of_path(ROUTE_TABLE@[b - 1].0@);
    tail_of_path(ROUTE_TABLE@[b].0@);
    before_is_strict(ROUTE_TABLE@[b - 1].0@, 1, ROUTE_TABLE@[b].0@, 1);
    if a < b - 1 {
        rows_are_sorted(a, b - 1);
        text_le_is_an_order(x, y, z);
        text_le_is_strict(y, z);
    }
}

/// No two rows of the table give their operations the same id.
pub proof fn rows_have_their_own_ids(a: int, b: int)
    requires
        0 <= a < ROUTE_TABLE@.len(),
        0 <= b < ROUTE_TABLE@.len(),
        a != b,
    ensures
        spec_tail_word(ROUTE_TABLE@[a].0@) != spec_tail_word(ROUTE_TABLE@[b].0@),
{
    if a < b {
        rows_are_sorted(a, b);
    } else {
        rows_are_sorted(b, a);
    }
}

/// The methods of a row are words of letters in lower case.
pub proof fn rows_name_methods(k: int)
    requires
        0 <= k < ROUTE_TABLE@.len(),
    ensures
        names_methods(ROUTE_TABLE@[k].1@),
{
    a_row_is_one(k);
}

/// Each row is one; the rows are looked at a few at a time, literal by literal.
proof fn a_row_is_one(k: int)
    requires
        0 <= k < ROUTE_TABLE@.len(),
    ensures
        row_holds(k),
{
    if k < 8 {
        rows_from_0(k);
    } else if k < 16 {
        rows_from_8(k);
    } else if k < 24 {
        rows_from_16(k);
    } else if k < 32 {
        rows_from_24(k);
    } else if k < 40 {
        rows_from_32(k);
    } else if k < 48 {
        rows_from_40(k);
    } else if k < 56 {
        rows_from_48(k);
    } else if k < 64 {
        rows_from_56(k);
    } else if k < 72 {
        rows_from_64(k);
    } else if k < 80 {
        rows_from_72(k);
    } else if k < 88 {
        rows_from_80(k);
    } else if k < 96 {
        rows_from_88(k);
    } else if k < 104 {
        rows_from_96(k);
    } else if k < 112 {
        rows_from_104(k);
    } else if k < 120 {
        rows_from_112(k);
    } else if k < 128 {
        rows_from_120(k);
    } else if k < 136 {
        rows_from_128(k);
    } else if k < 144 {
        rows_from_136(k);
    } else if k < 152 {
        rows_from_144(k);
    } else if k < 160 {
        rows_from_152(k);
    } else if k < 168 {
        rows_from_160(k);
    } else if k < 176 {
        rows_from_168(k);
    } else if k < 184 {
        rows_from_176(k);
    } else {
        rows_from_184(k);
    }
}

#[verifier::rlimit(50)]
#[verifier::spinoff_prover]
proof fn rows_from_0(k: int)
    requires
        0 <= k < 8,
    ensures
        row_holds(k),
{
    reveal_with_fuel(before, 64);
    reveal_with_fuel(opening, 2);
    reveal_strlit("get");
    reveal_strlit("post");
    reveal_strlit("/api/analyze-goal");
    reveal_strlit("/api/app/download/:file");
    reveal_strlit("/api/app/latest");
    reveal_strlit("/api/audit-log");
    reveal_strlit("/api/auth/2fa/disable");
    reveal_strlit("/api/auth/2fa/enable");
    reveal_strlit("/api/auth/2fa/enroll");
    reveal_strlit("/api/auth/login");
    reveal_strlit("/api/auth/logout");
    assert(row_holds(0));
    assert(row_holds(1));
    assert(row_holds(2));
    assert(row_holds(3));
    assert(row_holds(4));
    assert(row_holds(5));
    assert(row_holds(6));
    assert(row_holds(7));
}

#[verifier::rlimit(50)]
#[verifier::spinoff_prover]
proof fn rows_from_8(k: int)
    requires
        8 <= k < 16,
    ensures
        row_holds(k),
{
    reveal_with_fuel(before, 64);
    reveal_with_fuel(opening, 2);
    reveal_strlit("delete");
    reveal_strlit("get");
    reveal_strlit("get post");
    reveal_strlit("patch");
    reveal_strlit("post");
    reveal_strlit("/api/auth/logout");
    reveal_strlit("/api/auth/me");
    reveal_strlit("/api/auth/my/tokens");
    reveal_strlit("/api/auth/my/tokens/:label");
    reveal_strlit("/api/auth/profile");
    reveal_strlit("/api/auth/sessions");
    reveal_strlit("/api/auth/tokens");
    reveal_strlit("/api/auth/tokens/:label");
    reveal_strlit("/api/auth/users");
    assert(row_holds(8));
    assert(row_holds(9));
    assert(row_holds(10));
    assert(row_holds(11));
    assert(row_holds(12));
    assert(row_holds(13));
    assert(row_holds(14));
    assert(row_holds(15));
}

#[verifier::rlimit(50)]
#[verifier::spinoff_prover]
proof fn rows_from_16(k: int)
    requires
        16 <= k < 24,
    ensures
        row_holds(k),
{
    reveal_with_fuel(before, 64);
    reveal_with_fuel(opening, 2);
    reveal_strlit("delete");
    reveal_strlit("delete patch");
    reveal_strlit("get patch");
    reveal_strlit("get post");
    reveal_strlit("post");
    reveal_strlit("/api/auth/users");
    reveal_strlit("/api/auth/users/:username");
    reveal_strlit("/api/auth/users/:username/password");
    reveal_strlit("/api/chat/channel/:cid/topic");
    reveal_strlit("/api/chat/channels");
    reveal_strlit("/api/chat/channels/:cid");
    reveal_strlit("/api/chat/channels/:cid/invite");
    reveal_strlit("/api/chat/channels/:cid/members/:member");
    reveal_strlit("/api/chat/channels/:cid/settings");
    assert(row_holds(16));
    assert(row_holds(17));
    assert(row_holds(18));
    assert(row_holds(19));
    assert(row_holds(20));
    assert(row_holds(21));
    assert(row_holds(22));
    assert(row_holds(23));
}

#[verifier::rlimit(50)]
#[verifier::spinoff_prover]
proof fn rows_from_24(k: int)
    requires
        24 <= k < 32,
    ensures
        row_holds(k),
{
    reveal_with_fuel(before, 64);
    reveal_with_fuel(opening, 2);
    reveal_strlit("get");
    reveal_strlit("get patch");
    reveal_strlit("patch");
    reveal_strlit("post");
    reveal_strlit("/api/chat/channels/:cid/settings");
    reveal_strlit("/api/chat/channels/:cid/topic");
    reveal_strlit("/api/chat/dm");
    reveal_strlit("/api/chat/hook/:token");
    reveal_strlit("/api/chat/ice");
    reveal_strlit("/api/chat/media/:file");
    reveal_strlit("/api/chat/members");
    reveal_strlit("/api/chat/messages");
    reveal_strlit("/api/chat/messages/:mid");
    assert(row_holds(24));
    assert(row_holds(25));
    assert(row_holds(26));
    assert(row_holds(27));
    assert(row_holds(28));
    assert(row_holds(29));
    assert(row_holds(30));
    assert(row_holds(31));
}

#[verifier::rlimit(50)]
#[verifier::spinoff_prover]
proof fn rows_from_32(k: int)
    requires
        32 <= k < 40,
    ensures
        row_holds(k),
{
    reveal_with_fuel(before, 64);
    reveal_with_fuel(opening, 2);
    reveal_strlit("delete patch");
    reveal_strlit("get");
    reveal_strlit("post");
    reveal_strlit("/api/chat/messages/:mid");
    reveal_strlit("/api/chat/messages/:mid/pin");
    reveal_strlit("/api/chat/messages/:mid/reply");
    reveal_strlit("/api/chat/messages/:mid/thread");
    reveal_strlit("/api/chat/pins");
    reveal_strlit("/api/chat/react");
    reveal_strlit("/api/chat/search");
    reveal_strlit("/api/chat/send");
    reveal_strlit("/api/chat/upload");
    assert(row_holds(32));
    assert(row_holds(33));
    assert(row_holds(34));
    assert(row_holds(35));
    assert(row_holds(36));
    assert(row_holds(37));
    assert(row_holds(38));
    assert(row_holds(39));
}

#[verifier::rlimit(50)]
#[verifier::spinoff_prover]
proof fn rows_from_40(k: int)
    requires
        40 <= k < 48,
    ensures
        row_holds(k),
{
    reveal_with_fuel(before, 64);
    reveal_with_fuel(opening, 2);
    reveal_strlit("delete");
    reveal_strlit("get");
    reveal_strlit("get post");
    reveal_strlit("post");
    reveal_strlit("put");
    reveal_strlit("/api/chat/upload");
    reveal_strlit("/api/chat/webhooks");
    reveal_strlit("/api/chat/webhooks/:token");
    reveal_strlit("/api/chat/ws");
    reveal_strlit("/api/engines");
    reveal_strlit("/api/engines/opencode/models");
    reveal_strlit("/api/fleet/ceiling");
    reveal_strlit("/api/fleet/river");
    reveal_strlit("/api/fleet/spend");
    assert(row_holds(40));
    assert(row_holds(41));
    assert(row_holds(42));
    assert(row_holds(43));
    assert(row_holds(44));
    assert(row_holds(45));
    assert(row_holds(46));
    assert(row_holds(47));
}

#[verifier::rlimit(50)]
#[verifier::spinoff_prover]
proof fn rows_from_48(k: int)
    requires
        48 <= k < 56,
    ensures
        row_holds(k),
{
    reveal_with_fuel(before, 64);
    reveal_with_fuel(opening, 2);
    reveal_strlit("get");
    reveal_strlit("get post");
    reveal_strlit("patch");
    reveal_strlit("post");
    reveal_strlit("/api/fleet/spend");
    reveal_strlit("/api/health");
    reveal_strlit("/api/manage/overview");
    reveal_strlit("/api/manage/spaces/:sid");
    reveal_strlit("/api/mcp");
    reveal_strlit("/api/me/agents");
    reveal_strlit("/api/meetings");
    reveal_strlit("/api/meetings/:id");
    reveal_strlit("/api/meetings/:id/join");
    assert(row_holds(48));
    assert(row_holds(49));
    assert(row_holds(50));
    assert(row_holds(51));
    assert(row_holds(52));
    assert(row_holds(53));
    assert(row_holds(54));
    assert(row_holds(55));
}

#[verifier::rlimit(50)]
#[verifier::spinoff_prover]
proof fn rows_from_56(k: int)
    requires
        56 <= k < 64,
    ensures
        row_holds(k),
{
    reveal_with_fuel(before, 64);
    reveal_with_fuel(opening, 2);
    reveal_strlit("delete post");
    reveal_strlit("get");
    reveal_strlit("post");
    reveal_strlit("/api/meetings/:id/join");
    reveal_strlit("/api/meetings/:id/ring");
    reveal_strlit("/api/openapi.json");
    reveal_strlit("/api/people-analytics");
    reveal_strlit("/api/pr-report");
    reveal_strlit("/api/pr-report/reviews");
    reveal_strlit("/api/profile");
    reveal_strlit("/api/profile/avatar");
    reveal_strlit("/api/profiles");
    assert(row_holds(56));
    assert(row_holds(57));
    assert(row_holds(58));
    assert(row_holds(59));
    assert(row_holds(60));
    assert(row_holds(61));
    assert(row_holds(62));
    assert(row_holds(63));
}

#[verifier::rlimit(50)]
#[verifier::spinoff_prover]
proof fn rows_from_64(k: int)
    requires
        64 <= k < 72,
    ensures
        row_holds(k),
{
    reveal_with_fuel(before, 64);
    reveal_with_fuel(opening, 2);
    reveal_strlit("delete patch");
    reveal_strlit("get");
    reveal_strlit("get post");
    reveal_strlit("post");
    reveal_strlit("/api/profiles");
    reveal_strlit("/api/projects");
    reveal_strlit("/api/projects/:pid");
    reveal_strlit("/api/projects/:pid/agent-evals");
    reveal_strlit("/api/projects/:pid/agent-log");
    reveal_strlit("/api/projects/:pid/agent-log/stream");
    reveal_strlit("/api/projects/:pid/alerts");
    reveal_strlit("/api/projects/:pid/alerts/:id/replay");
    reveal_strlit("/api/projects/:pid/approval-policy");
    assert(row_holds(64));
    assert(row_holds(65));
    assert(row_holds(66));
    assert(row_holds(67));
    assert(row_holds(68));
    assert(row_holds(69));
    assert(row_holds(70));
    assert(row_holds(71));
}

#[verifier::rlimit(50)]
#[verifier::spinoff_prover]
proof fn rows_from_72(k: int)
    requires
        72 <= k < 80,
    ensures
        row_holds(k),
{
    reveal_with_fuel(before, 64);
    reveal_with_fuel(opening, 2);
    reveal_strlit("get");
    reveal_strlit("post");
    reveal_strlit("/api/projects/:pid/approval-policy");
    reveal_strlit("/api/projects/:pid/approval-policy/ask-again");
    reveal_strlit("/api/projects/:pid/approval-policy/release");
    reveal_strlit("/api/projects/:pid/architecture-review");
    reveal_strlit("/api/projects/:pid/attachment");
    reveal_strlit("/api/projects/:pid/audit");
    reveal_strlit("/api/projects/:pid/ba-analyze");
    reveal_strlit("/api/projects/:pid/brakes");
    reveal_strlit("/api/projects/:pid/brakes/:brake/hold");
    assert(row_holds(72));
    assert(row_holds(73));
    assert(row_holds(74));
    assert(row_holds(75));
    assert(row_holds(76));
    assert(row_holds(77));
    assert(row_holds(78));
    assert(row_holds(79));
}

#[verifier::rlimit(50)]
#[verifier::spinoff_prover]
proof fn rows_from_80(k: int)
    requires
        80 <= k < 88,
    ensures
        row_holds(k),
{
    reveal_with_fuel(before, 64);
    reveal_with_fuel(opening, 2);
    reveal_strlit("delete");
    reveal_strlit("delete post");
    reveal_strlit("get post");
    reveal_strlit("patch");
    reveal_strlit("post");
    reveal_strlit("/api/projects/:pid/brakes/:brake/hold");
    reveal_strlit("/api/projects/:pid/burn-mode");
    reveal_strlit("/api/projects/:pid/channels");
    reveal_strlit("/api/projects/:pid/channels/:cid/invite");
    reveal_strlit("/api/projects/:pid/channels/:cid/members/:member");
    reveal_strlit("/api/projects/:pid/channels/:cid/settings");
    reveal_strlit("/api/projects/:pid/chat");
    reveal_strlit("/api/projects/:pid/chat-reply");
    reveal_strlit("/api/projects/:pid/chat/ws");
    assert(row_holds(80));
    assert(row_holds(81));
    assert(row_holds(82));
    assert(row_holds(83));
    assert(row_holds(84));
    assert(row_holds(85));
    assert(row_holds(86));
    assert(row_holds(87));
}

#[verifier::rlimit(50)]
#[verifier::spinoff_prover]
proof fn rows_from_88(k: int)
    requires
        88 <= k < 96,
    ensures
        row_holds(k),
{
    reveal_with_fuel(before, 64);
    reveal_with_fuel(opening, 2);
    reveal_strlit("get");
    reveal_strlit("get post");
    reveal_strlit("get put");
    reveal_strlit("post");
    reveal_strlit("/api/projects/:pid/chat/ws");
    reveal_strlit("/api/projects/:pid/codegraph");
    reveal_strlit("/api/projects/:pid/codegraph/build");
    reveal_strlit("/api/projects/:pid/codegraph/deps");
    reveal_strlit("/api/projects/:pid/codegraph/refs");
    reveal_strlit("/api/projects/:pid/comments");
    reveal_strlit("/api/projects/:pid/comments/:id/react");
    reveal_strlit("/api/projects/:pid/config");
    reveal_strlit("/api/projects/:pid/context");
    assert(row_holds(88));
    assert(row_holds(89));
    assert(row_holds(90));
    assert(row_holds(91));
    assert(row_holds(92));
    assert(row_holds(93));
    assert(row_holds(94));
    assert(row_holds(95));
}

#[verifier::rlimit(50)]
#[verifier::spinoff_prover]
proof fn rows_from_96(k: int)
    requires
        96 <= k < 104,
    ensures
        row_holds(k),
{
    reveal_with_fuel(before, 64);
    reveal_with_fuel(opening, 2);
    reveal_strlit("get");
    reveal_strlit("get post");
    reveal_strlit("post");
    reveal_strlit("/api/projects/:pid/context");
    reveal_strlit("/api/projects/:pid/control/:action");
    reveal_strlit("/api/projects/:pid/dependencies");
    reveal_strlit("/api/projects/:pid/deps/scan");
    reveal_strlit("/api/projects/:pid/digest");
    reveal_strlit("/api/projects/:pid/discuss");
    reveal_strlit("/api/projects/:pid/doc-folders");
    reveal_strlit("/api/projects/:pid/doc-folders/delete");
    reveal_strlit("/api/projects/:pid/docs");
    assert(row_holds(96));
    assert(row_holds(97));
    assert(row_holds(98));
    assert(row_holds(99));
    assert(row_holds(100));
    assert(row_holds(101));
    assert(row_holds(102));
    assert(row_holds(103));
}

#[verifier::rlimit(50)]
#[verifier::spinoff_prover]
proof fn rows_from_104(k: int)
    requires
        104 <= k < 112,
    ensures
        row_holds(k),
{
    reveal_with_fuel(before, 64);
    reveal_with_fuel(opening, 2);
    reveal_strlit("delete put");
    reveal_strlit("get");
    reveal_strlit("post");
    reveal_strlit("/api/projects/:pid/docs");
    reveal_strlit("/api/projects/:pid/docs/generate");
    reveal_strlit("/api/projects/:pid/docs/:id");
    reveal_strlit("/api/projects/:pid/docs/:id/ai-edit");
    reveal_strlit("/api/projects/:pid/docs/:id/move");
    reveal_strlit("/api/projects/:pid/docs/:id/ws");
    reveal_strlit("/api/projects/:pid/docs-review");
    reveal_strlit("/api/projects/:pid/events");
    reveal_strlit("/api/projects/:pid/file");
    assert(row_holds(104));
    assert(row_holds(105));
    assert(row_holds(106));
    assert(row_holds(107));
    assert(row_holds(108));
    assert(row_holds(109));
    assert(row_holds(110));
    assert(row_holds(111));
}

#[verifier::rlimit(50)]
#[verifier::spinoff_prover]
proof fn rows_from_112(k: int)
    requires
        112 <= k < 120,
    ensures
        row_holds(k),
{
    reveal_with_fuel(before, 64);
    reveal_with_fuel(opening, 2);
    reveal_strlit("get");
    reveal_strlit("post");
    reveal_strlit("/api/projects/:pid/file");
    reveal_strlit("/api/projects/:pid/git/auth");
    reveal_strlit("/api/projects/:pid/git/connect");
    reveal_strlit("/api/projects/:pid/git/test");
    reveal_strlit("/api/projects/:pid/goals");
    reveal_strlit("/api/projects/:pid/goals/:gid/rename");
    reveal_strlit("/api/projects/:pid/goals/outcomes");
    reveal_strlit("/api/projects/:pid/inbox");
    reveal_strlit("/api/projects/:pid/lessons/dismiss");
    assert(row_holds(112));
    assert(row_holds(113));
    assert(row_holds(114));
    assert(row_holds(115));
    assert(row_holds(116));
    assert(row_holds(117));
    assert(row_holds(118));
    assert(row_holds(119));
}

#[verifier::rlimit(50)]
#[verifier::spinoff_prover]
proof fn rows_from_120(k: int)
    requires
        120 <= k < 128,
    ensures
        row_holds(k),
{
    reveal_with_fuel(before, 64);
    reveal_with_fuel(opening, 2);
    reveal_strlit("delete");
    reveal_strlit("get");
    reveal_strlit("get post");
    reveal_strlit("post");
    reveal_strlit("/api/projects/:pid/lessons/dismiss");
    reveal_strlit("/api/projects/:pid/lessons/escalate");
    reveal_strlit("/api/projects/:pid/media/:file");
    reveal_strlit("/api/projects/:pid/members");
    reveal_strlit("/api/projects/:pid/members/:username");
    reveal_strlit("/api/projects/:pid/merge-sweep");
    reveal_strlit("/api/projects/:pid/metrics");
    reveal_strlit("/api/projects/:pid/metrics/burndown");
    reveal_strlit("/api/projects/:pid/metrics/summary");
    assert(row_holds(120));
    assert(row_holds(121));
    assert(row_holds(122));
    assert(row_holds(123));
    assert(row_holds(124));
    assert(row_holds(125));
    assert(row_holds(126));
    assert(row_holds(127));
}

#[verifier::rlimit(50)]
#[verifier::spinoff_prover]
proof fn rows_from_128(k: int)
    requires
        128 <= k < 136,
    ensures
        row_holds(k),
{
    reveal_with_fuel(before, 64);
    reveal_with_fuel(opening, 2);
    reveal_strlit("get");
    reveal_strlit("post");
    reveal_strlit("/api/projects/:pid/metrics/summary");
    reveal_strlit("/api/projects/:pid/metrics/trends");
    reveal_strlit("/api/projects/:pid/milestone-complete/:name");
    reveal_strlit("/api/projects/:pid/milestones/projection");
    reveal_strlit("/api/projects/:pid/operators/:operator/:action");
    reveal_strlit("/api/projects/:pid/pr/:number/human");
    reveal_strlit("/api/projects/:pid/preflight");
    reveal_strlit("/api/projects/:pid/prs");
    reveal_strlit("/api/projects/:pid/prs/:num/:action");
    assert(row_holds(128));
    assert(row_holds(129));
    assert(row_holds(130));
    assert(row_holds(131));
    assert(row_holds(132));
    assert(row_holds(133));
    assert(row_holds(134));
    assert(row_holds(135));
}

#[verifier::rlimit(50)]
#[verifier::spinoff_prover]
proof fn rows_from_136(k: int)
    requires
        136 <= k < 144,
    ensures
        row_holds(k),
{
    reveal_with_fuel(before, 64);
    reveal_with_fuel(opening, 2);
    reveal_strlit("delete");
    reveal_strlit("get");
    reveal_strlit("get post");
    reveal_strlit("post");
    reveal_strlit("/api/projects/:pid/prs/:num/:action");
    reveal_strlit("/api/projects/:pid/prs/:num/diff");
    reveal_strlit("/api/projects/:pid/reverts/:sha");
    reveal_strlit("/api/projects/:pid/runner");
    reveal_strlit("/api/projects/:pid/share-links");
    reveal_strlit("/api/projects/:pid/share-links/:token");
    reveal_strlit("/api/projects/:pid/sprint/:action");
    reveal_strlit("/api/projects/:pid/sprint/close");
    reveal_strlit("/api/projects/:pid/sprint/goal");
    assert(row_holds(136));
    assert(row_holds(137));
    assert(row_holds(138));
    assert(row_holds(139));
    assert(row_holds(140));
    assert(row_holds(141));
    assert(row_holds(142));
    assert(row_holds(143));
}

#[verifier::rlimit(50)]
#[verifier::spinoff_prover]
proof fn rows_from_144(k: int)
    requires
        144 <= k < 152,
    ensures
        row_holds(k),
{
    reveal_with_fuel(before, 64);
    reveal_with_fuel(opening, 2);
    reveal_strlit("delete");
    reveal_strlit("get");
    reveal_strlit("post");
    reveal_strlit("/api/projects/:pid/sprint/goal");
    reveal_strlit("/api/projects/:pid/sprint-queue");
    reveal_strlit("/api/projects/:pid/sprint-queue/:qid");
    reveal_strlit("/api/projects/:pid/sprint-queue/:qid/move/:dir");
    reveal_strlit("/api/projects/:pid/sprint-queue/:qid/rename");
    reveal_strlit("/api/projects/:pid/sprint-queue/:qid/scope");
    reveal_strlit("/api/projects/:pid/standup");
    reveal_strlit("/api/projects/:pid/state");
    reveal_strlit("/api/projects/:pid/store");
    assert(row_holds(144));
    assert(row_holds(145));
    assert(row_holds(146));
    assert(row_holds(147));
    assert(row_holds(148));
    assert(row_holds(149));
    assert(row_holds(150));
    assert(row_holds(151));
}

#[verifier::rlimit(50)]
#[verifier::spinoff_prover]
proof fn rows_from_152(k: int)
    requires
        152 <= k < 160,
    ensures
        row_holds(k),
{
    reveal_with_fuel(before, 64);
    reveal_with_fuel(opening, 2);
    reveal_strlit("delete post");
    reveal_strlit("get");
    reveal_strlit("get post");
    reveal_strlit("post");
    reveal_strlit("/api/projects/:pid/store");
    reveal_strlit("/api/projects/:pid/terminal");
    reveal_strlit("/api/projects/:pid/ticket/:id");
    reveal_strlit("/api/projects/:pid/ticket/:id/approve-cost");
    reveal_strlit("/api/projects/:pid/ticket/:id/assign");
    reveal_strlit("/api/projects/:pid/ticket/:id/attachments");
    reveal_strlit("/api/projects/:pid/ticket/:id/edit");
    reveal_strlit("/api/projects/:pid/ticket/:id/goal");
    reveal_strlit("/api/projects/:pid/ticket/:id/priority");
    assert(row_holds(152));
    assert(row_holds(153));
    assert(row_holds(154));
    assert(row_holds(155));
    assert(row_holds(156));
    assert(row_holds(157));
    assert(row_holds(158));
    assert(row_holds(159));
}

#[verifier::rlimit(50)]
#[verifier::spinoff_prover]
proof fn rows_from_160(k: int)
    requires
        160 <= k < 168,
    ensures
        row_holds(k),
{
    reveal_with_fuel(before, 64);
    reveal_with_fuel(opening, 2);
    reveal_strlit("get");
    reveal_strlit("post");
    reveal_strlit("/api/projects/:pid/ticket/:id/priority");
    reveal_strlit("/api/projects/:pid/ticket/:id/ready");
    reveal_strlit("/api/projects/:pid/ticket/:id/reject");
    reveal_strlit("/api/projects/:pid/ticket/:id/reproduction-url");
    reveal_strlit("/api/projects/:pid/ticket/:id/send-back");
    reveal_strlit("/api/projects/:pid/ticket/:id/status/:action");
    reveal_strlit("/api/projects/:pid/ticket/:id/undo-approval");
    reveal_strlit("/api/projects/:pid/ticket/:id/unpark");
    reveal_strlit("/api/projects/:pid/ticket/:id/verify");
    assert(row_holds(160));
    assert(row_holds(161));
    assert(row_holds(162));
    assert(row_holds(163));
    assert(row_holds(164));
    assert(row_holds(165));
    assert(row_holds(166));
    assert(row_holds(167));
}

#[verifier::rlimit(50)]
#[verifier::spinoff_prover]
proof fn rows_from_168(k: int)
    requires
        168 <= k < 176,
    ensures
        row_holds(k),
{
    reveal_with_fuel(before, 64);
    reveal_with_fuel(opening, 2);
    reveal_strlit("get");
    reveal_strlit("post");
    reveal_strlit("/api/projects/:pid/ticket/:id/verify");
    reveal_strlit("/api/projects/:pid/ticket-refine");
    reveal_strlit("/api/projects/:pid/tickets");
    reveal_strlit("/api/projects/:pid/transcripts");
    reveal_strlit("/api/projects/:pid/transcripts/:name");
    reveal_strlit("/api/projects/:pid/upload");
    reveal_strlit("/api/projects/:pid/workers");
    reveal_strlit("/api/projects/:pid/workspace");
    reveal_strlit("/api/search");
    assert(row_holds(168));
    assert(row_holds(169));
    assert(row_holds(170));
    assert(row_holds(171));
    assert(row_holds(172));
    assert(row_holds(173));
    assert(row_holds(174));
    assert(row_holds(175));
}

#[verifier::rlimit(50)]
#[verifier::spinoff_prover]
proof fn rows_from_176(k: int)
    requires
        176 <= k < 184,
    ensures
        row_holds(k),
{
    reveal_with_fuel(before, 64);
    reveal_with_fuel(opening, 2);
    reveal_strlit("delete");
    reveal_strlit("delete put");
    reveal_strlit("get");
    reveal_strlit("get post");
    reveal_strlit("get put");
    reveal_strlit("/api/search");
    reveal_strlit("/api/spaces");
    reveal_strlit("/api/spaces/:sid");
    reveal_strlit("/api/token-saver");
    reveal_strlit("/api/tooling");
    reveal_strlit("/api/workspace");
    reveal_strlit("/api/workspace/invites");
    reveal_strlit("/api/workspace/invites/:token");
    reveal_strlit("/api/workspace/join");
    assert(row_holds(176));
    assert(row_holds(177));
    assert(row_holds(178));
    assert(row_holds(179));
    assert(row_holds(180));
    assert(row_holds(181));
    assert(row_holds(182));
    assert(row_holds(183));
}

#[verifier::rlimit(50)]
#[verifier::spinoff_prover]
proof fn rows_from_184(k: int)
    requires
        184 <= k < 187,
    ensures
        row_holds(k),
{
    reveal_with_fuel(before, 64);
    reveal_with_fuel(opening, 2);
    reveal_strlit("get");
    reveal_strlit("post");
    reveal_strlit("/api/workspace/join");
    reveal_strlit("/api/workspace/overview");
    reveal_strlit("/s/:token");
    assert(row_holds(184));
    assert(row_holds(185));
    assert(row_holds(186));
}

} // verus!
