//! The accounts that a forge's command line is signed in with, and who may force a merge.

use crate::hub::CliOutput;
use crate::reply::{not_found, plain, Refusal};
use crate::text::{
    chars_of, contains, find, join2, lines, opt_text, owned, same, spec_contains, spec_find,
    spec_lines, spec_starts, spec_trim, spec_words, starts_with, text_between, texts, trim, words,
};
use vstd::prelude::*;

verus! {

/// An account and whether it is the active one.
pub type Account = (Seq<char>, bool);

pub open spec fn is_mark(c: char) -> bool {
    c == '@' || c == '(' || c == ')' || c == '.'
}

pub open spec fn unmark_start(s: Seq<char>) -> Seq<char>
    decreases s.len(),
{
    if s.len() > 0 && is_mark(s[0]) {
        unmark_start(s.skip(1))
    } else {
        s
    }
}

pub open spec fn unmark_end(s: Seq<char>) -> Seq<char>
    decreases s.len(),
{
    if s.len() > 0 && is_mark(s.last()) {
        unmark_end(s.drop_last())
    } else {
        s
    }
}

/// A name without the marks around it.
pub open spec fn unmarked(s: Seq<char>) -> Seq<char> {
    unmark_end(unmark_start(s))
}

fn mark(c: char) -> (b: bool)
    ensures
        b == is_mark(c),
{
    c == '@' || c == '(' || c == ')' || c == '.'
}

fn strip_marks(s: &str) -> (r: String)
    ensures
        r@ == unmarked(s@),
{
    let v = chars_of(s);
    let mut a: usize = 0;
    assert(v@.skip(0) =~= v@);
    while a < v.len() && mark(v[a])
        invariant
            a <= v.len(),
            unmark_start(v@) == unmark_start(v@.skip(a as int)),
        decreases v.len() - a,
    {
        assert(v@.skip(a as int).skip(1) =~= v@.skip(a + 1));
        a += 1;
    }
    let ghost t = v@.skip(a as int);
    assert(unmark_start(v@) == t);
    let mut b: usize = v.len();
    assert(t.take(t.len() as int) =~= t);
    while b > a && mark(v[b - 1])
        invariant
            a <= b <= v.len(),
            t == v@.skip(a as int),
            unmark_end(t) == unmark_end(t.take(b - a)),
        decreases b,
    {
        assert(t.take(b - a).drop_last() =~= t.take(b - 1 - a));
        b -= 1;
    }
    assert(t.take(b - a) =~= v@.subrange(a as int, b as int));
    text_between(&v, a, b)
}

/// The account that a `Logged in to` line names: the word after the host, or after the marker
/// `account` or `as` that follows it.
pub open spec fn named_account(rest: Seq<char>) -> Seq<char> {
    let w = spec_words(rest);
    if w.len() < 2 {
        Seq::empty()
    } else if w[1] == "account"@ || w[1] == "as"@ {
        if w.len() > 2 {
            unmarked(w[2])
        } else {
            Seq::empty()
        }
    } else {
        unmarked(w[1])
    }
}

fn account_name(rest: &str) -> (r: String)
    ensures
        r@ == named_account(rest@),
{
    let w = words(rest);
    let ghost t = texts(w@);
    assert(t.len() == w@.len());
    assert(unmarked(Seq::empty()) =~= Seq::empty());
    if w.len() < 2 {
        return String::new();
    }
    assert(t[1] == w@[1]@);
    if same(w[1].as_str(), "account") || same(w[1].as_str(), "as") {
        if w.len() > 2 {
            assert(t[2] == w@[2]@);
            strip_marks(w[2].as_str())
        } else {
            String::new()
        }
    } else {
        strip_marks(w[1].as_str())
    }
}

/// Whether the list has an account of that name.
pub open spec fn has_account(acc: Seq<Account>, name: Seq<char>) -> bool {
    exists|i: int| 0 <= i < acc.len() && (#[trigger] acc[i]).0 == name
}

/// What one line adds to the accounts. A `Logged in to` line names an account, which counts
/// once; an `Active account:` line tells of the last account named.
pub open spec fn account_step(acc: Seq<Account>, line: Seq<char>) -> Seq<Account> {
    let t = spec_trim(line);
    match spec_find(t, "Logged in to "@) {
        None => if (spec_starts(t, "- Active account:"@) || spec_starts(t, "Active account:"@))
            && acc.len() > 0 {
            acc.update(acc.len() - 1, (acc.last().0, spec_contains(t, "true"@)))
        } else {
            acc
        },
        Some(i) => {
            let name = named_account(t.skip(i + "Logged in to "@.len()));
            if name.len() == 0 || has_account(acc, name) {
                acc
            } else {
                acc.push((name, false))
            }
        },
    }
}

/// The accounts that the lines tell of.
pub open spec fn accounts_in(all: Seq<Seq<char>>) -> Seq<Account>
    decreases all.len(),
{
    if all.len() == 0 {
        Seq::empty()
    } else {
        account_step(accounts_in(all.drop_last()), all.last())
    }
}

/// Whether some account is active.
pub open spec fn any_active(acc: Seq<Account>) -> bool {
    exists|i: int| 0 <= i < acc.len() && (#[trigger] acc[i]).1
}

/// The accounts, the first of which is the active one where none was said to be.
pub open spec fn with_active(acc: Seq<Account>) -> Seq<Account> {
    if acc.len() > 0 && !any_active(acc) {
        acc.update(0, (acc[0].0, true))
    } else {
        acc
    }
}

/// The accounts in the output of a status command.
pub open spec fn spec_accounts(out: Seq<char>) -> Seq<Account> {
    with_active(accounts_in(spec_lines(out)))
}

/// The names and marks of a list of accounts.
pub open spec fn accounts_view(v: Seq<(String, bool)>) -> Seq<Account> {
    v.map_values(|a: (String, bool)| (a.0@, a.1))
}

fn known(v: &Vec<(String, bool)>, name: &str) -> (b: bool)
    ensures
        b == has_account(accounts_view(v@), name@),
{
    let ghost acc = accounts_view(v@);
    let mut i: usize = 0;
    while i < v.len()
        invariant
            i <= v.len(),
            acc == accounts_view(v@),
            forall|j: int| 0 <= j < i ==> (#[trigger] acc[j]).0 != name@,
        decreases v.len() - i,
    {
        assert(acc[i as int].0 == v@[i as int].0@);
        if same(v[i].0.as_str(), name) {
            return true;
        }
        i += 1;
    }
    false
}

fn active_at(v: &Vec<(String, bool)>) -> (r: Option<usize>)
    ensures
        match r {
            Some(i) => i < v.len() && v@[i as int].1 && any_active(accounts_view(v@)),
            None => !any_active(accounts_view(v@)),
        },
{
    let ghost acc = accounts_view(v@);
    let mut i: usize = 0;
    while i < v.len()
        invariant
            i <= v.len(),
            acc == accounts_view(v@),
            forall|j: int| 0 <= j < i ==> !(#[trigger] v@[j]).1,
        decreases v.len() - i,
    {
        if v[i].1 {
            assert(acc[i as int].1);
            return Some(i);
        }
        i += 1;
    }
    assert forall|j: int| 0 <= j < acc.len() implies !(#[trigger] acc[j]).1 by {
        assert(acc[j].1 == v@[j].1);
    }
    None
}

fn take_line(acc: &mut Vec<(String, bool)>, line: &str)
    ensures
        accounts_view(final(acc)@) == account_step(accounts_view(old(acc)@), line@),
{
    let t = trim(line);
    let s = t.as_str();
    let ghost before = accounts_view(acc@);
    match find(s, "Logged in to ") {
        None => {
            if starts_with(s, "- Active account:") || starts_with(s, "Active account:") {
                let n: usize = acc.len();
                if n > 0 {
                    let name = acc[n - 1].0.clone();
                    let on = contains(s, "true");
                    acc.set(n - 1, (name, on));
                    assert(accounts_view(acc@) =~= before.update(
                        n - 1,
                        (before.last().0, on),
                    ));
                }
            }
        },
        Some(i) => {
            let n: usize = s.unicode_len();
            let m: usize = "Logged in to ".unicode_len();
            let rest = s.substring_char(i + m, n);
            assert(rest@ =~= s@.skip(i + m));
            let name = account_name(rest);
            if !name.as_str().is_empty() && !known(acc, name.as_str()) {
                let ghost nv = name@;
                acc.push((name, false));
                assert(accounts_view(acc@) =~= before.push((nv, false)));
            }
        },
    }
}

/// The signed-in accounts in the output of `gh auth status` or `glab auth status`, in the order
/// of the output, with the active one marked.
pub fn parse_accounts(out: &str) -> (r: Vec<(String, bool)>)
    ensures
        accounts_view(r@) == spec_accounts(out@),
{
    let all = lines(out);
    let ghost t = texts(all@);
    let mut acc: Vec<(String, bool)> = Vec::new();
    let mut i: usize = 0;
    assert(t.take(0) =~= Seq::empty());
    assert(accounts_view(acc@) =~= Seq::empty());
    while i < all.len()
        invariant
            i <= all.len(),
            t == texts(all@),
            accounts_view(acc@) == accounts_in(t.take(i as int)),
        decreases all.len() - i,
    {
        assert(t.take(i + 1).drop_last() =~= t.take(i as int));
        assert(t.take(i + 1).last() == all@[i as int]@);
        take_line(&mut acc, all[i].as_str());
        i += 1;
    }
    assert(t.take(t.len() as int) =~= t);
    if acc.len() > 0 && active_at(&acc).is_none() {
        let ghost before = accounts_view(acc@);
        let name = acc[0].0.clone();
        acc.set(0, (name, true));
        assert(accounts_view(acc@) =~= before.update(0, (before[0].0, true)));
    }
    acc
}

/// The first active account.
pub open spec fn first_active(acc: Seq<Account>, i: int) -> Option<Seq<char>>
    decreases acc.len() - i,
{
    if i < 0 || i >= acc.len() {
        None
    } else if acc[i].1 {
        Some(acc[i].0)
    } else {
        first_active(acc, i + 1)
    }
}

/// The account that is signed in: the first active one.
pub fn parse_account(out: &str) -> (r: Option<String>)
    ensures
        opt_text(r) == first_active(spec_accounts(out@), 0),
{
    let all = parse_accounts(out);
    let ghost acc = accounts_view(all@);
    let mut i: usize = 0;
    while i < all.len()
        invariant
            i <= all.len(),
            acc == accounts_view(all@),
            acc == spec_accounts(out@),
            first_active(acc, 0) == first_active(acc, i as int),
        decreases all.len() - i,
    {
        assert(acc[i as int] == (all@[i as int].0@, all@[i as int].1));
        if all[i].1 {
            return Some(all[i].0.clone());
        }
        i += 1;
    }
    None
}

proof fn accounts_are_distinct(all: Seq<Seq<char>>)
    ensures
        forall|i: int, j: int|
            0 <= i < j < accounts_in(all).len() ==> (#[trigger] accounts_in(all)[i]).0 != (
            #[trigger] accounts_in(all)[j]).0,
        forall|i: int| 0 <= i < accounts_in(all).len() ==> (#[trigger] accounts_in(all)[i]).0.len()
            > 0,
    decreases all.len(),
{
    if all.len() > 0 {
        accounts_are_distinct(all.drop_last());
        let acc = accounts_in(all.drop_last());
        let next = accounts_in(all);
        assert(next == account_step(acc, all.last()));
        assert(next.len() == acc.len() || next.len() == acc.len() + 1);
        assert forall|i: int| 0 <= i < acc.len() implies (#[trigger] next[i]).0 == acc[i].0 by {}
        if next.len() == acc.len() + 1 {
            assert(!has_account(acc, next.last().0));
            assert forall|i: int| 0 <= i < acc.len() implies (#[trigger] next[i]).0
                != next.last().0 by {
                assert(acc[i].0 != next.last().0);
            }
        }
    }
}

/// Every account is listed once, none without a name, and wherever there is an account one of
/// them is active.
pub proof fn accounts_are_named_once_and_one_is_active(out: Seq<char>)
    ensures
        forall|i: int, j: int|
            0 <= i < j < spec_accounts(out).len() ==> (#[trigger] spec_accounts(out)[i]).0 != (
            #[trigger] spec_accounts(out)[j]).0,
        forall|i: int|
            0 <= i < spec_accounts(out).len() ==> (#[trigger] spec_accounts(out)[i]).0.len() > 0,
        spec_accounts(out).len() > 0 ==> any_active(spec_accounts(out)),
{
    let acc = accounts_in(spec_lines(out));
    let r = spec_accounts(out);
    accounts_are_distinct(spec_lines(out));
    assert forall|i: int| 0 <= i < acc.len() implies (#[trigger] r[i]).0 == acc[i].0 by {}
    if acc.len() > 0 && !any_active(acc) {
        assert(r[0].1);
    }
}

/// Whether a forced merge of that pull request runs.
pub open spec fn running(inflight: Seq<(String, u64)>, pid: Seq<char>, number: u64) -> bool {
    exists|i: int|
        0 <= i < inflight.len() && (#[trigger] inflight[i]).0@ == pid && inflight[i].1 == number
}

fn runs(inflight: &Vec<(String, u64)>, pid: &str, number: u64) -> (b: bool)
    ensures
        b == running(inflight@, pid@, number),
{
    let mut i: usize = 0;
    while i < inflight.len()
        invariant
            i <= inflight.len(),
            forall|j: int|
                0 <= j < i ==> !((#[trigger] inflight@[j]).0@ == pid@ && inflight@[j].1 == number),
        decreases inflight.len() - i,
    {
        if inflight[i].1 == number && same(inflight[i].0.as_str(), pid) {
            return true;
        }
        i += 1;
    }
    false
}

/// Claims a forced merge: two of the same pull request would work in one directory, so the
/// second is refused.
pub fn claim_force(inflight: &mut Vec<(String, u64)>, pid: &str, number: u64) -> (r: Result<
    (),
    Refusal,
>)
    ensures
        match r {
            Ok(_) => !running(old(inflight)@, pid@, number) && running(
                final(inflight)@,
                pid@,
                number,
            ) && forall|p: Seq<char>, n: u64|
                (p != pid@ || n != number) ==> (#[trigger] running(final(inflight)@, p, n)
                    == running(old(inflight)@, p, n)),
            Err(e) => running(old(inflight)@, pid@, number) && final(inflight)@ == old(inflight)@
                && e.v() == (409u16, "force-merge for this PR is already running"@, false),
        },
{
    if runs(inflight, pid, number) {
        return Err(plain(409, "force-merge for this PR is already running"));
    }
    let ghost before = inflight@;
    let key = owned(pid);
    inflight.push((key, number));
    proof {
        let after = inflight@;
        assert(after[before.len() as int].0@ == pid@ && after[before.len() as int].1 == number);
        assert forall|p: Seq<char>, n: u64| (p != pid@ || n != number) implies (#[trigger] running(
            after,
            p,
            n,
        )) == running(before, p, n) by {
            if running(before, p, n) {
                let i = choose|i: int|
                    0 <= i < before.len() && (#[trigger] before[i]).0@ == p && before[i].1 == n;
                assert(after[i].0@ == p && after[i].1 == n);
            }
            if running(after, p, n) {
                let i = choose|i: int|
                    0 <= i < after.len() && (#[trigger] after[i]).0@ == p && after[i].1 == n;
                assert(i < before.len());
                assert(before[i].0@ == p && before[i].1 == n);
            }
        }
    }
    Ok(())
}

/// Releases the claim of a forced merge that is over.
pub fn release_force(inflight: &mut Vec<(String, u64)>, pid: &str, number: u64)
    ensures
        !running(final(inflight)@, pid@, number),
        forall|p: Seq<char>, n: u64|
            (p != pid@ || n != number) ==> (#[trigger] running(final(inflight)@, p, n) == running(
                old(inflight)@,
                p,
                n,
            )),
{
    let ghost before = inflight@;
    let mut kept: Vec<(String, u64)> = Vec::new();
    let mut i: usize = 0;
    while i < inflight.len()
        invariant
            i <= inflight.len(),
            inflight@ == before,
            !running(kept@, pid@, number),
            forall|p: Seq<char>, n: u64|
                (p != pid@ || n != number) ==> (#[trigger] running(kept@, p, n) == running(
                    before.take(i as int),
                    p,
                    n,
                )),
        decreases inflight.len() - i,
    {
        let ghost old_kept = kept@;
        let other = inflight[i].1 != number || !same(inflight[i].0.as_str(), pid);
        if other {
            let item = (inflight[i].0.clone(), inflight[i].1);
            kept.push(item);
        }
        proof {
            let now = before.take(i + 1);
            let prev = before.take(i as int);
            assert forall|p: Seq<char>, n: u64| (p != pid@ || n != number) implies (
            #[trigger] running(kept@, p, n)) == running(now, p, n) by {
                assert(running(old_kept, p, n) == running(prev, p, n));
                let hit = before[i as int].0@ == p && before[i as int].1 == n;
                if running(prev, p, n) {
                    let j = choose|j: int|
                        0 <= j < prev.len() && (#[trigger] prev[j]).0@ == p && prev[j].1 == n;
                    assert(now[j].0@ == p && now[j].1 == n);
                    let k = choose|k: int|
                        0 <= k < old_kept.len() && (#[trigger] old_kept[k]).0@ == p && old_kept[k].1
                            == n;
                    assert(kept@[k].0@ == p && kept@[k].1 == n);
                } else if hit {
                    assert(now[i as int].0@ == p && now[i as int].1 == n);
                    assert(kept@[kept@.len() - 1].0@ == p && kept@[kept@.len() - 1].1 == n);
                } else {
                    if running(now, p, n) {
                        let j = choose|j: int|
                            0 <= j < now.len() && (#[trigger] now[j]).0@ == p && now[j].1 == n;
                        assert(j < i);
                        assert(prev[j].0@ == p && prev[j].1 == n);
                    }
                    if running(kept@, p, n) {
                        let k = choose|k: int|
                            0 <= k < kept@.len() && (#[trigger] kept@[k]).0@ == p && kept@[k].1 == n;
                        assert(k < old_kept.len());
                        assert(old_kept[k].0@ == p && old_kept[k].1 == n);
                    }
                }
            }
            if running(kept@, pid@, number) {
                let k = choose|k: int|
                    0 <= k < kept@.len() && (#[trigger] kept@[k]).0@ == pid@ && kept@[k].1
                        == number;
                assert(k < old_kept.len());
                assert(old_kept[k].0@ == pid@ && old_kept[k].1 == number);
            }
        }
        i += 1;
    }
    assert(before.take(before.len() as int) =~= before);
    *inflight = kept;
}

/// A review of a pull request.
#[derive(Clone, Debug)]
pub struct PrReview {
    pub number: u64,
    pub decision: String,
    pub summary: String,
    pub at: String,
}

/// The first review of a pull request.
pub open spec fn review_of(reviews: Seq<PrReview>, number: u64) -> Option<PrReview>
    decreases reviews.len(),
{
    if reviews.len() == 0 {
        None
    } else if reviews[0].number == number {
        Some(reviews[0])
    } else {
        review_of(reviews.skip(1), number)
    }
}

fn find_review(reviews: &Vec<PrReview>, number: u64) -> (r: Option<PrReview>)
    ensures
        r == review_of(reviews@, number),
{
    let mut i: usize = 0;
    assert(reviews@.skip(0) =~= reviews@);
    while i < reviews.len()
        invariant
            i <= reviews.len(),
            review_of(reviews@, number) == review_of(reviews@.skip(i as int), number),
        decreases reviews.len() - i,
    {
        let v = &reviews[i];
        if v.number == number {
            return Some(
                PrReview {
                    number: v.number,
                    decision: v.decision.clone(),
                    summary: v.summary.clone(),
                    at: v.at.clone(),
                },
            );
        }
        assert(reviews@.skip(i as int).skip(1) =~= reviews@.skip(i + 1));
        i += 1;
    }
    None
}

/// The open pull requests: whether there is a forge, whether it merges by itself, and the review
/// of each.
#[derive(Clone, Debug)]
pub struct PrListing {
    pub configured: bool,
    pub auto_merge: bool,
    pub reviews: Vec<Option<PrReview>>,
}

/// Lists the open pull requests (`open` holds their numbers; nothing where the state could not be
/// read) with their reviews.
pub fn list_prs(
    exists_: bool,
    open: &Option<Vec<u64>>,
    reviews: &Vec<PrReview>,
    has_forge: bool,
    auto_merge: bool,
) -> (r: Result<PrListing, Refusal>)
    ensures
        match r {
            Err(e) => !exists_ && e.v() == (404u16, "no such project"@, false),
            Ok(l) => exists_ && match open {
                None => !l.configured && !l.auto_merge && l.reviews@.len() == 0,
                Some(numbers) => {
                    &&& l.configured == has_forge
                    &&& l.auto_merge == auto_merge
                    &&& l.reviews@.len() == numbers@.len()
                    &&& forall|i: int|
                        0 <= i < numbers@.len() ==> #[trigger] l.reviews@[i] == review_of(
                            reviews@,
                            numbers@[i],
                        )
                },
            },
        },
{
    if !exists_ {
        return Err(not_found());
    }
    match open {
        None => Ok(PrListing { configured: false, auto_merge: false, reviews: Vec::new() }),
        Some(numbers) => {
            let mut found: Vec<Option<PrReview>> = Vec::new();
            let mut i: usize = 0;
            while i < numbers.len()
                invariant
                    i <= numbers.len(),
                    found@.len() == i,
                    forall|k: int|
                        0 <= k < i ==> #[trigger] found@[k] == review_of(reviews@, numbers@[k]),
                decreases numbers.len() - i,
            {
                found.push(find_review(reviews, numbers[i]));
                i += 1;
            }
            Ok(PrListing { configured: has_forge, auto_merge, reviews: found })
        },
    }
}

/// Whether a provider's command line is there and signed in, and as whom.
#[derive(Clone, Debug)]
pub struct AuthStatus {
    pub present: bool,
    pub authenticated: bool,
    pub account: Option<String>,
}

/// Reads the status that a provider's command line printed; nothing where it could not be run.
pub fn auth_status(out: &Option<CliOutput>) -> (r: AuthStatus)
    ensures
        match out {
            None => !r.present && !r.authenticated && r.account is None,
            Some(o) => r.present && r.authenticated == o.success && opt_text(r.account)
                == first_active(spec_accounts(o.stdout@ + o.stderr@), 0),
        },
{
    match out {
        None => AuthStatus { present: false, authenticated: false, account: None },
        Some(o) => {
            let printed = join2(o.stdout.as_str(), o.stderr.as_str());
            AuthStatus {
                present: true,
                authenticated: o.success,
                account: parse_account(printed.as_str()),
            }
        },
    }
}

/// The marks around a name go, and nothing of the name: it neither begins nor ends with one, and a
/// name without marks stays as it is.
pub proof fn marks_are_not_part_of_a_name(s: Seq<char>)
    ensures
        unmarked(s).len() > 0 ==> !is_mark(unmarked(s)[0]) && !is_mark(unmarked(s).last()),
        s.len() > 0 && !is_mark(s[0]) && !is_mark(s.last()) ==> unmarked(s) == s,
        is_mark('@') && is_mark('(') && is_mark(')') && is_mark('.'),
{
    start_is_unmarked(s);
    end_is_unmarked(unmark_start(s));
}

proof fn start_is_unmarked(s: Seq<char>)
    ensures
        unmark_start(s).len() > 0 ==> !is_mark(unmark_start(s)[0]),
    decreases s.len(),
{
    if s.len() > 0 && is_mark(s[0]) {
        start_is_unmarked(s.skip(1));
    }
}

proof fn end_is_unmarked(s: Seq<char>)
    ensures
        unmark_end(s).len() > 0 ==> !is_mark(unmark_end(s).last()) && unmark_end(s)[0] == s[0],
    decreases s.len(),
{
    if s.len() > 0 && is_mark(s.last()) {
        end_is_unmarked(s.drop_last());
    }
}

/// The account of a line is the word after the host, or the one after `account` or `as` where that
/// stands there.
pub proof fn the_account_follows_the_host(rest: Seq<char>)
    ensures
        ({
            let w = spec_words(rest);
            &&& w.len() <= 1 ==> named_account(rest).len() == 0
            &&& w.len() == 2 && (w[1] == "account"@ || w[1] == "as"@) ==> named_account(rest).len()
                == 0
            &&& w.len() == 2 && w[1] != "account"@ && w[1] != "as"@ ==> named_account(rest)
                == unmarked(w[1])
            &&& w.len() >= 3 && (w[1] == "account"@ || w[1] == "as"@) ==> named_account(rest)
                == unmarked(w[2])
            &&& w.len() >= 2 && w[1] != "account"@ && w[1] != "as"@ ==> named_account(rest)
                == unmarked(w[1])
        }),
{
}

/// A line of the output says one thing: a sign-in adds its account unless it is there, a line on
/// the active account tells of the last account named, and any other line changes nothing. No line
/// takes an account away.
pub proof fn a_line_adds_one_account_at_most(acc: Seq<Account>, line: Seq<char>)
    ensures
        ({
            let now = account_step(acc, line);
            let t = spec_trim(line);
            &&& acc.len() <= now.len() <= acc.len() + 1
            &&& forall|i: int| 0 <= i < acc.len() ==> (#[trigger] now[i]).0 == acc[i].0
            &&& forall|i: int| 0 <= i < acc.len() - 1 ==> #[trigger] now[i] == acc[i]
            &&& now.len() > acc.len() ==> !now.last().1 && now.last().0.len() > 0 && forall|i: int|
                0 <= i < acc.len() ==> (#[trigger] acc[i]).0 != now.last().0
            &&& spec_find(t, "Logged in to "@) is None && !spec_starts(t, "- Active account:"@)
                && !spec_starts(t, "Active account:"@) ==> now == acc
            &&& spec_find(t, "Logged in to "@) is None && spec_starts(t, "- Active account:"@)
                && acc.len() > 0 ==> now.last().1 == spec_contains(t, "true"@)
            &&& spec_find(t, "Logged in to "@) is None && spec_starts(t, "Active account:"@)
                && acc.len() > 0 ==> now.last().1 == spec_contains(t, "true"@)
            &&& spec_find(t, "Logged in to "@) is Some ==> {
                let name = named_account(
                    t.skip(spec_find(t, "Logged in to "@)->0 + "Logged in to "@.len()),
                );
                name.len() > 0 ==> exists|i: int| 0 <= i < now.len() && (#[trigger] now[i]).0 == name
            }
        }),
{
    let now = account_step(acc, line);
    let t = spec_trim(line);
    if spec_find(t, "Logged in to "@) is Some {
        let name = named_account(t.skip(spec_find(t, "Logged in to "@)->0 + "Logged in to "@.len()));
        if name.len() > 0 {
            if has_account(acc, name) {
                let i = choose|i: int| 0 <= i < acc.len() && (#[trigger] acc[i]).0 == name;
                assert(now[i].0 == name);
            } else {
                assert(now[acc.len() as int].0 == name);
            }
        }
    }
}

/// Where no account was said to be active the first one is; where one was, all stay as they are.
pub proof fn the_first_account_is_active_by_default(acc: Seq<Account>)
    ensures
        with_active(acc).len() == acc.len(),
        forall|i: int| 0 <= i < acc.len() ==> (#[trigger] with_active(acc)[i]).0 == acc[i].0,
        (exists|i: int| 0 <= i < acc.len() && (#[trigger] acc[i]).1) ==> with_active(acc) == acc,
        acc.len() > 0 && (forall|i: int| 0 <= i < acc.len() ==> !(#[trigger] acc[i]).1)
            ==> with_active(acc)[0].1 && forall|i: int|
            0 < i < acc.len() ==> !(#[trigger] with_active(acc)[i]).1,
{
}

/// The account that is signed in is the first one that is active.
pub proof fn the_signed_in_account_is_the_first_active(acc: Seq<Account>, i: int)
    requires
        0 <= i,
    ensures
        match first_active(acc, i) {
            Some(name) => exists|k: int|
                i <= k < acc.len() && (#[trigger] acc[k]).1 && acc[k].0 == name && (forall|j: int|
                    i <= j < k ==> !(#[trigger] acc[j]).1),
            None => forall|j: int| i <= j < acc.len() ==> !(#[trigger] acc[j]).1,
        },
    decreases acc.len() - i,
{
    if i < acc.len() {
        if acc[i].1 {
            assert(acc[i].0 == acc[i].0);
        } else {
            the_signed_in_account_is_the_first_active(acc, i + 1);
        }
    }
}

/// The review that goes with a pull request is the first one of its number.
pub proof fn a_review_is_found_by_its_number(reviews: Seq<PrReview>, number: u64)
    ensures
        match review_of(reviews, number) {
            Some(v) => exists|i: int|
                0 <= i < reviews.len() && (#[trigger] reviews[i]).number == number && reviews[i] == v && (forall|j: int|
                    0 <= j < i ==> !((#[trigger] reviews[j]).number == number)),
            None => forall|j: int| 0 <= j < reviews.len() ==> !((#[trigger] reviews[j]).number == number),
        },
    decreases reviews.len(),
{
    if reviews.len() > 0 {
        let rest = reviews.skip(1);
        a_review_is_found_by_its_number(rest, number);
        assert(forall|j: int| 0 <= j < rest.len() ==> #[trigger] rest[j] == reviews[j + 1]);
        assert(forall|j: int| 1 <= j < reviews.len() ==> #[trigger] reviews[j] == rest[j - 1]);
        if !(reviews[0].number == number) && review_of(rest, number) is Some {
            let v = review_of(rest, number)->0;
            let i = choose|i: int|
                0 <= i < rest.len() && (#[trigger] rest[i]).number == number && rest[i] == v && (forall|j: int|
                    0 <= j < i ==> !((#[trigger] rest[j]).number == number));
            assert(reviews[i + 1].number == number);
        }
    }
}

/// However often an account is named, it is listed once, and no line takes one off the list.
pub proof fn an_account_is_listed_once(all: Seq<Seq<char>>, line: Seq<char>, i: int, j: int)
    ensures
        0 <= i < j < accounts_in(all).len() ==> accounts_in(all)[i].0 != accounts_in(all)[j].0,
        accounts_in(all.push(line)).len() >= accounts_in(all).len(),
        0 <= i < accounts_in(all).len() ==> accounts_in(all.push(line))[i].0 == accounts_in(all)[i].0,
    decreases all.len(),
{
    assert(all.push(line).drop_last() =~= all);
    a_line_adds_one_account_at_most(accounts_in(all), line);
    if all.len() > 0 {
        let before = accounts_in(all.drop_last());
        an_account_is_listed_once(all.drop_last(), line, i, j);
        a_line_adds_one_account_at_most(before, all.last());
        let now = accounts_in(all);
        if 0 <= i < j < now.len() && j == before.len() {
            assert(before[i].0 != now.last().0);
        }
    }
}

/// A forced merge runs from when it is entered: that of another project or number does not count.
pub proof fn a_forced_merge_runs_once_entered(
    inflight: Seq<(String, u64)>,
    entry: (String, u64),
    pid: Seq<char>,
    number: u64,
)
    ensures
        !running(Seq::empty(), pid, number),
        running(inflight.push(entry), pid, number) <==> running(inflight, pid, number) || (entry.0@
            == pid && entry.1 == number),
{
    let more = inflight.push(entry);
    if running(inflight, pid, number) {
        let i = choose|i: int|
            0 <= i < inflight.len() && (#[trigger] inflight[i]).0@ == pid && inflight[i].1 == number;
        assert(more[i].0@ == pid);
    }
    if entry.0@ == pid && entry.1 == number {
        assert(more[inflight.len() as int].0@ == pid);
    }
    if running(more, pid, number) {
        let i = choose|i: int|
            0 <= i < more.len() && (#[trigger] more[i]).0@ == pid && more[i].1 == number;
        if i < inflight.len() {
            assert(inflight[i].0@ == pid);
        }
    }
}

} // verus!
