//! Orders and sorting.

use crate::text::{chars_of, copy_texts, same, texts};
use vstd::prelude::*;
use vstd::seq_lib::*;

verus! {

/// Whether `a` comes before or with `b`, character by character from `i` on.
pub open spec fn text_le_from(a: Seq<char>, b: Seq<char>, i: int) -> bool
    decreases a.len() - i,
{
    if i < 0 || i >= a.len() {
        true
    } else if i >= b.len() {
        false
    } else if a[i] != b[i] {
        a[i] < b[i]
    } else {
        text_le_from(a, b, i + 1)
    }
}

/// The order of texts: by the code points, a prefix first.
pub open spec fn text_le(a: Seq<char>, b: Seq<char>) -> bool {
    text_le_from(a, b, 0)
}

proof fn text_le_total_from(a: Seq<char>, b: Seq<char>, i: int)
    requires
        0 <= i,
    ensures
        text_le_from(a, b, i) || text_le_from(b, a, i),
    decreases a.len() - i,
{
    if i < a.len() && i < b.len() && a[i] == b[i] {
        text_le_total_from(a, b, i + 1);
    }
}

proof fn text_le_transitive_from(a: Seq<char>, b: Seq<char>, c: Seq<char>, i: int)
    requires
        0 <= i,
        text_le_from(a, b, i),
        text_le_from(b, c, i),
    ensures
        text_le_from(a, c, i),
    decreases a.len() - i,
{
    if i < a.len() && i < b.len() && i < c.len() && a[i] == b[i] && b[i] == c[i] {
        text_le_transitive_from(a, b, c, i + 1);
    }
}

/// Texts are in a total order.
pub proof fn text_le_is_an_order(a: Seq<char>, b: Seq<char>, c: Seq<char>)
    ensures
        text_le(a, b) || text_le(b, a),
        text_le(a, b) && text_le(b, c) ==> text_le(a, c),
{
    text_le_total_from(a, b, 0);
    if text_le(a, b) && text_le(b, c) {
        text_le_transitive_from(a, b, c, 0);
    }
}

proof fn text_le_strict_from(a: Seq<char>, b: Seq<char>, i: int)
    requires
        0 <= i <= a.len(),
        i <= b.len(),
        text_le_from(a, b, i),
        text_le_from(b, a, i),
        a.take(i) == b.take(i),
    ensures
        a == b,
    decreases a.len() - i,
{
    if i < a.len() && i < b.len() {
        assert(a.take(i + 1) =~= a.take(i).push(a[i]));
        assert(b.take(i + 1) =~= b.take(i).push(b[i]));
        text_le_strict_from(a, b, i + 1);
    } else {
        assert(a.take(i) =~= a);
        assert(b.take(i) =~= b);
    }
}

/// No two texts come before one another.
pub proof fn text_le_is_strict(a: Seq<char>, b: Seq<char>)
    ensures
        text_le(a, b) && text_le(b, a) ==> a == b,
{
    if text_le(a, b) && text_le(b, a) {
        assert(a.take(0) =~= b.take(0));
        text_le_strict_from(a, b, 0);
    }
}

/// Whether a text comes before or with another.
pub fn text_leq(a: &str, b: &str) -> (r: bool)
    ensures
        r == text_le(a@, b@),
{
    let x = chars_of(a);
    let y = chars_of(b);
    let mut i: usize = 0;
    while i < x.len()
        invariant
            i <= x.len(),
            x@ == a@,
            y@ == b@,
            text_le(a@, b@) == text_le_from(a@, b@, i as int),
        decreases x.len() - i,
    {
        if i >= y.len() {
            return false;
        }
        if x[i] != y[i] {
            return x[i] < y[i];
        }
        i += 1;
    }
    true
}

/// Values in a total order.
pub trait Ordered: Sized {
    /// Whether `self` comes before or with `other`.
    spec fn le(self, other: Self) -> bool;

    fn leq(&self, other: &Self) -> (r: bool)
        ensures
            r == self.le(*other),
    ;

    proof fn total(a: Self, b: Self)
        ensures
            a.le(b) || b.le(a),
    ;

    proof fn transitive(a: Self, b: Self, c: Self)
        requires
            a.le(b),
            b.le(c),
        ensures
            a.le(c),
    ;
}

/// A sorted sequence with one value more: it comes after those it does not come before.
pub open spec fn inserted<T: Ordered>(s: Seq<T>, x: T) -> Seq<T>
    decreases s.len(),
{
    if s.len() == 0 || s.last().le(x) {
        s.push(x)
    } else {
        inserted(s.drop_last(), x).push(s.last())
    }
}

/// The values in order; those that tie stay as they were.
pub open spec fn sorted<T: Ordered>(s: Seq<T>) -> Seq<T>
    decreases s.len(),
{
    if s.len() == 0 {
        s
    } else {
        inserted(sorted(s.drop_last()), s.last())
    }
}

/// Whether each value comes before or with those behind it.
pub open spec fn in_order<T: Ordered>(s: Seq<T>) -> bool {
    forall|i: int, j: int| 0 <= i < j < s.len() ==> (#[trigger] s[i]).le(#[trigger] s[j])
}

proof fn inserted_keeps_order<T: Ordered>(s: Seq<T>, x: T)
    requires
        in_order(s),
    ensures
        in_order(inserted(s, x)),
        inserted(s, x).to_multiset() == s.to_multiset().insert(x),
        inserted(s, x).len() == s.len() + 1,
    decreases s.len(),
{
    broadcast use group_to_multiset_ensures;

    if s.len() == 0 || s.last().le(x) {
        let r = s.push(x);
        assert forall|i: int, j: int| 0 <= i < j < r.len() implies (#[trigger] r[i]).le(
            #[trigger] r[j],
        ) by {
            if j == s.len() && i < s.len() - 1 {
                T::transitive(s[i], s.last(), x);
            }
        }
    } else {
        let init = s.drop_last();
        inserted_keeps_order(init, x);
        let m = inserted(init, x);
        let r = m.push(s.last());
        T::total(s.last(), x);
        assert(s =~= init.push(s.last()));
        assert(init.to_multiset().insert(s.last()) == s.to_multiset());
        assert forall|i: int, j: int| 0 <= i < j < r.len() implies (#[trigger] r[i]).le(
            #[trigger] r[j],
        ) by {
            if j == m.len() {
                assert(m.to_multiset().contains(m[i]));
                if m[i] != x {
                    assert(init.to_multiset().contains(m[i]));
                    let k = choose|k: int| 0 <= k < init.len() && init[k] == m[i];
                    assert(s[k].le(s[s.len() - 1]));
                }
            }
        }
        assert(r.to_multiset() == init.to_multiset().insert(x).insert(s.last()));
        assert(r.to_multiset() =~= s.to_multiset().insert(x));
    }
}

/// Sorting puts the values in order and keeps exactly them.
pub proof fn sorting_orders_and_keeps<T: Ordered>(s: Seq<T>)
    ensures
        in_order(sorted(s)),
        sorted(s).to_multiset() == s.to_multiset(),
        sorted(s).len() == s.len(),
    decreases s.len(),
{
    broadcast use group_to_multiset_ensures;

    if s.len() > 0 {
        sorting_orders_and_keeps(s.drop_last());
        inserted_keeps_order(sorted(s.drop_last()), s.last());
        assert(s =~= s.drop_last().push(s.last()));
    }
}

fn place<T: Ordered>(v: &mut Vec<T>, x: T)
    ensures
        final(v)@ == inserted(old(v)@, x),
{
    let ghost s = v@;
    let mut i: usize = v.len();
    assert(s.take(i as int) =~= s);
    assert(inserted(s, x) =~= inserted(s.take(i as int), x) + s.skip(i as int));
    while i > 0 && !v[i - 1].leq(&x)
        invariant
            i <= v.len(),
            v@ == s,
            inserted(s, x) == inserted(s.take(i as int), x) + s.skip(i as int),
        decreases i,
    {
        proof {
            assert(s.take(i as int).drop_last() =~= s.take(i - 1));
            assert(s.take(i as int).last() == s[i - 1]);
            assert(inserted(s.take(i - 1), x).push(s[i - 1]) + s.skip(i as int) =~= inserted(
                s.take(i - 1),
                x,
            ) + s.skip(i - 1));
        }
        i -= 1;
    }
    assert(inserted(s.take(i as int), x) == s.take(i as int).push(x));
    assert(s.insert(i as int, x) =~= s.take(i as int).push(x) + s.skip(i as int));
    v.insert(i, x);
}

/// Sorts; the values that tie stay as they were.
pub fn sort<T: Ordered>(list: Vec<T>) -> (r: Vec<T>)
    ensures
        r@ == sorted(list@),
{
    let mut left = list;
    let ghost all = left@;
    let mut r: Vec<T> = Vec::new();
    assert(all.skip(0) =~= all);
    assert(all.take(0) =~= Seq::empty());
    while left.len() > 0
        invariant
            left@.len() <= all.len(),
            left@ == all.skip(all.len() - left@.len()),
            r@ == sorted(all.take(all.len() - left@.len())),
        decreases left.len(),
    {
        let ghost i = all.len() - left@.len();
        let x = left.remove(0);
        proof {
            assert(x == all[i]);
            assert(all.take(i + 1).drop_last() =~= all.take(i));
            assert(all.take(i + 1).last() == x);
            assert(left@ =~= all.skip(i + 1));
        }
        place(&mut r, x);
    }
    assert(all.take(all.len() as int) =~= all);
    r
}

impl Ordered for String {
    open spec fn le(self, other: String) -> bool {
        text_le(self@, other@)
    }

    fn leq(&self, other: &String) -> (r: bool) {
        text_leq(self.as_str(), other.as_str())
    }

    proof fn total(a: String, b: String) {
        text_le_is_an_order(a@, b@, a@);
    }

    proof fn transitive(a: String, b: String, c: String) {
        text_le_is_an_order(a@, b@, c@);
    }
}

/// A value is in the sorted list exactly where it was in the list.
pub proof fn sorting_adds_nothing<T: Ordered>(s: Seq<T>, x: T)
    ensures
        sorted(s).contains(x) <==> s.contains(x),
{
    sorting_orders_and_keeps(s);
    s.to_multiset_ensures();
    sorted(s).to_multiset_ensures();
    assert(s.contains(x) <==> s.to_multiset().count(x) > 0);
    assert(sorted(s).contains(x) <==> sorted(s).to_multiset().count(x) > 0);
}

/// Sorting a list of distinct values leaves them distinct.
pub proof fn sorting_keeps_distinct<T: Ordered>(s: Seq<T>)
    requires
        s.no_duplicates(),
    ensures
        sorted(s).no_duplicates(),
{
    sorting_orders_and_keeps(s);
    s.lemma_multiset_has_no_duplicates();
    sorted(s).lemma_multiset_has_no_duplicates_conv();
}

/// Texts in strictly rising order.
pub open spec fn rising(v: Seq<String>) -> bool {
    forall|i: int, j: int|
        0 <= i < j < v.len() ==> text_le((#[trigger] v[i])@, (#[trigger] v[j])@) && v[i]@ != v[j]@
}

/// The texts of a list in rising order, each once.
pub fn distinct_sorted(list: &Vec<String>) -> (r: Vec<String>)
    ensures
        rising(r@),
        forall|x: Seq<char>| #[trigger] texts(r@).contains(x) <==> texts(list@).contains(x),
{
    let v = copy_texts(list);
    let s = sort(v);
    proof {
        sorting_orders_and_keeps(list@);
    }
    let mut r: Vec<String> = Vec::new();
    let mut i: usize = 0;
    while i < s.len()
        invariant
            i <= s.len(),
            s@ == sorted(list@),
            in_order(s@),
            rising(r@),
            i > 0 ==> r@.len() > 0 && r@.last()@ == s@[i - 1]@,
            i == 0 ==> r@.len() == 0,
            forall|k: int| 0 <= k < i ==> texts(r@).contains((#[trigger] s@[k])@),
            forall|m: int| 0 <= m < r@.len() ==> s@.contains(#[trigger] r@[m]),
        decreases s.len() - i,
    {
        let last: usize = r.len();
        if last == 0 || !same(r[last - 1].as_str(), s[i].as_str()) {
            let ghost before = r@;
            let x = s[i].clone();
            r.push(x);
            proof {
                assert(texts(r@) =~= texts(before).push(x@));
                assert forall|a: int, b: int| 0 <= a < b < r@.len() implies text_le(
                    (#[trigger] r@[a])@,
                    (#[trigger] r@[b])@,
                ) && r@[a]@ != r@[b]@ by {
                    if b == before.len() {
                        let prev = before[before.len() - 1]@;
                        assert(s@[i - 1].le(s@[i as int]));
                        assert(text_le(prev, x@));
                        if a < before.len() - 1 {
                            assert(text_le(before[a]@, prev));
                            text_le_is_an_order(before[a]@, prev, x@);
                            if before[a]@ == x@ {
                                text_le_is_strict(before[a]@, prev);
                            }
                        }
                    } else {
                        assert(text_le(before[a]@, before[b]@) && before[a]@ != before[b]@);
                    }
                }
                assert forall|k: int| 0 <= k < i + 1 implies texts(r@).contains(
                    (#[trigger] s@[k])@,
                ) by {
                    if k < i {
                        let m = choose|m: int|
                            0 <= m < texts(before).len() && texts(before)[m] == s@[k]@;
                        assert(texts(r@)[m] == s@[k]@);
                    } else {
                        assert(texts(r@)[before.len() as int] == s@[k]@);
                    }
                }
            }
        } else {
            proof {
                assert(texts(r@)[last - 1] == s@[i as int]@);
            }
        }
        i += 1;
    }
    proof {
        assert forall|x: Seq<char>| #[trigger] texts(r@).contains(x) <==> texts(
            list@,
        ).contains(x) by {
            if texts(r@).contains(x) {
                let m = choose|m: int| 0 <= m < texts(r@).len() && texts(r@)[m] == x;
                assert(s@.contains(r@[m]));
                sorting_adds_nothing(list@, r@[m]);
                let k = choose|k: int| 0 <= k < list@.len() && list@[k] == r@[m];
                assert(texts(list@)[k] == x);
            }
            if texts(list@).contains(x) {
                let k = choose|k: int| 0 <= k < texts(list@).len() && texts(list@)[k] == x;
                sorting_adds_nothing(list@, list@[k]);
                let m = choose|m: int| 0 <= m < s@.len() && s@[m] == list@[k];
                assert(texts(r@).contains(s@[m]@));
            }
        }
    }
    r
}

/// Texts are ordered like the words of a dictionary: by the first character in which they differ,
/// and a text before those that it begins.
pub proof fn texts_are_ordered_by_the_first_difference(a: Seq<char>, b: Seq<char>, k: int)
    requires
        0 <= k <= a.len(),
        k <= b.len(),
        a.take(k) == b.take(k),
    ensures
        k == a.len() ==> text_le(a, b),
        k == b.len() && k < a.len() ==> !text_le(a, b),
        k < a.len() && k < b.len() && a[k] < b[k] ==> text_le(a, b) && !text_le(b, a),
{
    first_difference_from(a, b, 0, k);
}

proof fn first_difference_from(a: Seq<char>, b: Seq<char>, i: int, k: int)
    requires
        0 <= i <= k <= a.len(),
        k <= b.len(),
        a.take(k) == b.take(k),
    ensures
        k == a.len() ==> text_le_from(a, b, i),
        k == b.len() && k < a.len() ==> !text_le_from(a, b, i),
        k < a.len() && k < b.len() && a[k] < b[k] ==> text_le_from(a, b, i) && !text_le_from(b, a, i),
    decreases k - i,
{
    if i < k {
        assert(a.take(k)[i] == a[i] && b.take(k)[i] == b[i]);
        first_difference_from(a, b, i + 1, k);
    }
}

/// Sorting is stable: of values that come with one another, those that stood first still do.
pub proof fn sorting_keeps_the_order_of_equals<T: Ordered>(s: Seq<T>, x: T)
    ensures
        sorted(s).filter(|y: T| y.le(x) && x.le(y)) == s.filter(|y: T| y.le(x) && x.le(y)),
    decreases s.len(),
{
    reveal(Seq::filter);
    if s.len() > 0 {
        let init = s.drop_last();
        sorting_keeps_the_order_of_equals(init, x);
        inserted_behind_its_equals(sorted(init), s.last(), x);
        filter_of_push(sorted(init), s.last(), |y: T| y.le(x) && x.le(y));
        filter_of_push(init, s.last(), |y: T| y.le(x) && x.le(y));
        assert(init.push(s.last()) =~= s);
    }
}

proof fn inserted_behind_its_equals<T: Ordered>(s: Seq<T>, v: T, x: T)
    ensures
        inserted(s, v).filter(|y: T| y.le(x) && x.le(y)) == s.push(v).filter(
            |y: T| y.le(x) && x.le(y),
        ),
    decreases s.len(),
{
    let alike = |y: T| y.le(x) && x.le(y);
    if s.len() > 0 && !s.last().le(v) {
        let init = s.drop_last();
        inserted_behind_its_equals(init, v, x);
        assert(init.push(s.last()) =~= s);
        filter_of_push(init, v, alike);
        filter_of_push(init, s.last(), alike);
        filter_of_push(s, v, alike);
        filter_of_push(inserted(init, v), s.last(), alike);
        T::total(v, s.last());
        if alike(v) && alike(s.last()) {
            T::transitive(s.last(), x, v);
        }
    }
}

proof fn filter_of_push<T>(s: Seq<T>, v: T, keep: spec_fn(T) -> bool)
    ensures
        s.push(v).filter(keep) == if keep(v) {
            s.filter(keep).push(v)
        } else {
            s.filter(keep)
        },
{
    reveal(Seq::filter);
    assert(s.push(v).drop_last() =~= s);
}

} // verus!
