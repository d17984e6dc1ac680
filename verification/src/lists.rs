//! Lists as sequences: keeping, finding and collecting.

use crate::text::{same, texts};
use vstd::prelude::*;

verus! {

/// What `f` makes of the items, in order, without those it makes nothing of.
pub open spec fn collect<A, B>(s: Seq<A>, f: spec_fn(A) -> Option<B>) -> Seq<B>
    decreases s.len(),
{
    if s.len() == 0 {
        Seq::empty()
    } else {
        let init = collect(s.drop_last(), f);
        match f(s.last()) {
            Some(b) => init.push(b),
            None => init,
        }
    }
}

/// Collecting one item more.
pub proof fn collect_step<A, B>(s: Seq<A>, f: spec_fn(A) -> Option<B>, i: int)
    requires
        0 <= i < s.len(),
    ensures
        collect(s.take(i + 1), f) == (match f(s[i]) {
            Some(b) => collect(s.take(i), f).push(b),
            None => collect(s.take(i), f),
        }),
{
    assert(s.take(i + 1).drop_last() =~= s.take(i));
    assert(s.take(i + 1).last() == s[i]);
}

/// Each collected item comes from an item of the list.
pub proof fn collected_has_source<A, B>(s: Seq<A>, f: spec_fn(A) -> Option<B>, k: int)
    requires
        0 <= k < collect(s, f).len(),
    ensures
        exists|i: int| 0 <= i < s.len() && f(#[trigger] s[i]) == Some(collect(s, f)[k]),
    decreases s.len(),
{
    let init = collect(s.drop_last(), f);
    if k < init.len() {
        collected_has_source(s.drop_last(), f, k);
        let i = choose|i: int|
            0 <= i < s.drop_last().len() && f(#[trigger] s.drop_last()[i]) == Some(init[k]);
        assert(s[i] == s.drop_last()[i]);
    } else {
        assert(s[s.len() - 1] == s.last());
    }
}

/// Each item that `f` makes something of is collected.
pub proof fn source_is_collected<A, B>(s: Seq<A>, f: spec_fn(A) -> Option<B>, i: int)
    requires
        0 <= i < s.len(),
        f(s[i]) is Some,
    ensures
        collect(s, f).contains(f(s[i])->0),
    decreases s.len(),
{
    let init = collect(s.drop_last(), f);
    if i < s.len() - 1 {
        source_is_collected(s.drop_last(), f, i);
        let k = choose|k: int| 0 <= k < init.len() && init[k] == f(s[i])->0;
        assert(collect(s, f)[k] == f(s[i])->0);
    } else {
        assert(collect(s, f)[init.len() as int] == f(s[i])->0);
    }
}

/// Two rules that keep the same items, and make of them what `g` sees as the same,
/// collect what `g` sees as the same.
pub proof fn collect_alike<A, B, C>(
    s: Seq<A>,
    f1: spec_fn(A) -> Option<B>,
    f2: spec_fn(A) -> Option<B>,
    g: spec_fn(B) -> C,
)
    requires
        forall|a: A| (#[trigger] f1(a)) is Some <==> f2(a) is Some,
        forall|a: A| (#[trigger] f1(a)) is Some ==> g(f1(a)->0) == g(f2(a)->0),
    ensures
        collect(s, f1).map_values(g) == collect(s, f2).map_values(g),
    decreases s.len(),
{
    if s.len() > 0 {
        collect_alike(s.drop_last(), f1, f2, g);
        let a = s.last();
        let i1 = collect(s.drop_last(), f1);
        let i2 = collect(s.drop_last(), f2);
        if f1(a) is Some {
            assert(i1.push(f1(a)->0).map_values(g) =~= i1.map_values(g).push(g(f1(a)->0)));
            assert(i2.push(f2(a)->0).map_values(g) =~= i2.map_values(g).push(g(f2(a)->0)));
        }
    } else {
        assert(collect(s, f1) =~= collect(s, f2));
    }
}

pub open spec fn other_rule(id: Seq<char>) -> spec_fn(String) -> Option<String> {
    |s: String|
        if s@ != id {
            Some(s)
        } else {
            None
        }
}

/// The list without a text.
pub open spec fn without_text(list: Seq<String>, id: Seq<char>) -> Seq<String> {
    collect(list, other_rule(id))
}

/// Removes every occurrence of a text from a list.
pub(crate) fn drop_text(list: &mut Vec<String>, id: &str)
    ensures
        final(list)@ == without_text(old(list)@, id@),
{
    let mut kept: Vec<String> = Vec::new();
    let ghost f = other_rule(id@);
    let mut i: usize = 0;
    assert(list@.take(0) =~= Seq::empty());
    while i < list.len()
        invariant
            i <= list.len(),
            f == other_rule(id@),
            kept@ == collect(list@.take(i as int), f),
        decreases list.len() - i,
    {
        proof {
            collect_step(list@, f, i as int);
        }
        if !same(list[i].as_str(), id) {
            let keep = list[i].clone();
            kept.push(keep);
        }
        i += 1;
    }
    assert(list@.take(list@.len() as int) =~= list@);
    *list = kept;
}

/// A text that was removed from a list is no longer in it.
pub proof fn dropped_text_is_gone(list: Seq<String>, id: Seq<char>)
    ensures
        !texts(without_text(list, id)).contains(id),
    decreases list.len(),
{
    if list.len() > 0 {
        let init = list.drop_last();
        dropped_text_is_gone(init, id);
        let w = without_text(list, id);
        let wi = without_text(init, id);
        assert forall|k: int| 0 <= k < w.len() implies texts(w)[k] != id by {
            if k < wi.len() {
                assert(texts(wi)[k] != id);
            }
        }
    }
}

/// Removing a text leaves the others in the list.
pub proof fn dropping_keeps_others(list: Seq<String>, id: Seq<char>, other: Seq<char>)
    requires
        other != id,
    ensures
        texts(without_text(list, id)).contains(other) == texts(list).contains(other),
    decreases list.len(),
{
    if list.len() > 0 {
        let init = list.drop_last();
        dropping_keeps_others(init, id, other);
        let w = without_text(list, id);
        let wi = without_text(init, id);
        assert(texts(list) =~= texts(init).push(list.last()@));
        if list.last()@ != id {
            assert(texts(w) =~= texts(wi).push(list.last()@));
        } else {
            assert(texts(w) =~= texts(wi));
        }
        if texts(init).contains(other) {
            let i = choose|i: int| 0 <= i < texts(init).len() && texts(init)[i] == other;
            assert(texts(list)[i] == other);
            let k = choose|k: int| 0 <= k < texts(wi).len() && texts(wi)[k] == other;
            assert(texts(w)[k] == other);
        } else if list.last()@ == other {
            assert(texts(list)[list.len() - 1] == other);
            assert(texts(w)[w.len() - 1] == other);
        } else {
            assert forall|k: int| 0 <= k < texts(w).len() implies texts(w)[k] != other by {
                if k < wi.len() {
                    assert(texts(wi)[k] != other);
                }
            }
            assert forall|k: int| 0 <= k < texts(list).len() implies texts(list)[k] != other by {
                if k < init.len() {
                    assert(texts(init)[k] != other);
                }
            }
        }
    } else {
        assert(without_text(list, id) =~= list);
    }
}

/// The items that are marked.
pub open spec fn marked_only<T>(s: Seq<T>, keep: Seq<bool>) -> Seq<T>
    decreases s.len(),
{
    if s.len() == 0 {
        s
    } else {
        let init = marked_only(s.drop_last(), keep);
        if keep[s.len() - 1] {
            init.push(s.last())
        } else {
            init
        }
    }
}

/// Keeps the items that are marked, in place.
pub(crate) fn keep_marked<T>(v: &mut Vec<T>, keep: &Vec<bool>)
    requires
        keep@.len() == old(v)@.len(),
    ensures
        final(v)@ == marked_only(old(v)@, keep@),
{
    let ghost all = v@;
    let mut i: usize = 0;
    let mut done: usize = 0;
    assert(all.take(0) =~= Seq::empty());
    assert(v@.take(0) =~= Seq::empty());
    assert(all.skip(0) =~= all);
    assert(v@.skip(0) =~= v@);
    while done < keep.len()
        invariant
            done <= keep@.len() == all.len(),
            i <= done,
            i <= v@.len(),
            v@.take(i as int) == marked_only(all.take(done as int), keep@),
            v@.skip(i as int) == all.skip(done as int),
        decreases keep@.len() - done,
    {
        proof {
            assert(all.skip(done as int).len() > 0);
            assert(v@[i as int] == v@.skip(i as int)[0]);
            assert(v@[i as int] == all[done as int]);
            assert(all.take(done + 1).drop_last() =~= all.take(done as int));
            assert(all.skip(done as int).skip(1) =~= all.skip(done + 1));
        }
        if keep[done] {
            proof {
                assert(v@.take(i + 1) =~= v@.take(i as int).push(v@[i as int]));
                assert(v@.skip(i + 1) =~= v@.skip(i as int).skip(1));
            }
            i += 1;
        } else {
            let ghost before = v@;
            let _gone = v.remove(i);
            proof {
                assert(v@.take(i as int) =~= before.take(i as int));
                assert(v@.skip(i as int) =~= before.skip(i as int).skip(1));
            }
        }
        done += 1;
    }
    assert(v@.skip(i as int).len() == 0);
    assert(v@.take(i as int) =~= v@);
    assert(all.take(all.len() as int) =~= all);
}

/// Marks that follow a rule keep what the rule collects.
pub proof fn marked_is_collected<T>(s: Seq<T>, keep: Seq<bool>, f: spec_fn(T) -> Option<T>)
    requires
        keep.len() >= s.len(),
        forall|i: int|
            0 <= i < s.len() ==> f(#[trigger] s[i]) == (if keep[i] {
                Some(s[i])
            } else {
                None
            }),
    ensures
        marked_only(s, keep) == collect(s, f),
    decreases s.len(),
{
    if s.len() > 0 {
        let init = s.drop_last();
        assert forall|i: int| 0 <= i < init.len() implies f(#[trigger] init[i]) == (if keep[i] {
            Some(init[i])
        } else {
            None
        }) by {
            assert(init[i] == s[i]);
        }
        marked_is_collected(init, keep, f);
        assert(s.last() == s[s.len() - 1]);
    } else {
        assert(marked_only(s, keep) =~= collect(s, f));
    }
}

/// Collected items stand in the order of the items that they come from, each from one of its own.
pub proof fn collected_in_order<A, B>(s: Seq<A>, f: spec_fn(A) -> Option<B>, k: int, l: int)
    requires
        0 <= k < l < collect(s, f).len(),
    ensures
        exists|i: int, j: int|
            0 <= i < j < s.len() && f(#[trigger] s[i]) == Some(collect(s, f)[k]) && f(
                #[trigger] s[j],
            ) == Some(collect(s, f)[l]),
    decreases s.len(),
{
    let init = s.drop_last();
    if l < collect(init, f).len() {
        collected_in_order(init, f, k, l);
        let (i, j) = choose|i: int, j: int|
            0 <= i < j < init.len() && f(#[trigger] init[i]) == Some(collect(init, f)[k]) && f(
                #[trigger] init[j],
            ) == Some(collect(init, f)[l]);
        assert(s[i] == init[i] && s[j] == init[j]);
    } else {
        collected_has_source(init, f, k);
        let i = choose|i: int| 0 <= i < init.len() && f(#[trigger] init[i]) == Some(collect(init, f)[k]);
        assert(s[i] == init[i]);
        assert(s[s.len() - 1] == s.last());
    }
}

/// Two lists one after the other are collected one after the other.
pub proof fn collected_in_turn<A, B>(a: Seq<A>, b: Seq<A>, f: spec_fn(A) -> Option<B>)
    ensures
        collect(a + b, f) == collect(a, f) + collect(b, f),
    decreases b.len(),
{
    if b.len() == 0 {
        assert(a + b =~= a);
        assert(collect(a, f) + collect(b, f) =~= collect(a, f));
    } else {
        collected_in_turn(a, b.drop_last(), f);
        assert((a + b).drop_last() =~= a + b.drop_last());
        assert((a + b).last() == b.last());
        assert(collect(a + b, f) =~= collect(a, f) + collect(b, f));
    }
}

/// Collecting is keeping some items and making something of each of them.
pub proof fn collected_is_filtered<A, B>(
    s: Seq<A>,
    f: spec_fn(A) -> Option<B>,
    keep: spec_fn(A) -> bool,
    make: spec_fn(A) -> B,
)
    requires
        forall|a: A|
            #[trigger] f(a) == if keep(a) {
                Some(make(a))
            } else {
                None
            },
    ensures
        collect(s, f) == s.filter(keep).map_values(make),
    decreases s.len(),
{
    reveal(Seq::filter);
    if s.len() == 0 {
        assert(s.filter(keep).map_values(make) =~= Seq::empty());
    } else {
        collected_is_filtered(s.drop_last(), f, keep, make);
        let a = s.last();
        let init = s.drop_last().filter(keep);
        assert(f(a) == if keep(a) {
            Some(make(a))
        } else {
            None
        });
        if keep(a) {
            assert(init.push(a).map_values(make) =~= init.map_values(make).push(make(a)));
        }
    }
}

/// Collecting the items that are kept as they are.
pub proof fn kept_is_filtered<A>(s: Seq<A>, f: spec_fn(A) -> Option<A>, keep: spec_fn(A) -> bool)
    requires
        forall|a: A|
            #[trigger] f(a) == if keep(a) {
                Some(a)
            } else {
                None
            },
    ensures
        collect(s, f) == s.filter(keep),
{
    let same = |a: A| a;
    collected_is_filtered(s, f, keep, same);
    assert(s.filter(keep).map_values(same) =~= s.filter(keep));
}

} // verus!
