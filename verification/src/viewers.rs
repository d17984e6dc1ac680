//! Who is connected: each person counts once, however many windows they have open.

use crate::order::{in_order, sort, sorted, sorting_orders_and_keeps};
use crate::text::{owned, same, texts};
use vstd::prelude::*;

verus! {

/// The connections of each person.
#[derive(Clone, Debug)]
pub struct Roster {
    pub entries: Vec<(String, usize)>,
}

/// How many connections a person has.
pub open spec fn connections(v: Seq<(String, usize)>, user: Seq<char>) -> nat
    decreases v.len(),
{
    if v.len() == 0 {
        0
    } else if v[0].0@ == user {
        v[0].1 as nat
    } else {
        connections(v.skip(1), user)
    }
}

pub open spec fn distinct_names(v: Seq<(String, usize)>) -> bool {
    forall|i: int, j: int| 0 <= i < j < v.len() ==> (#[trigger] v[i]).0@ != (#[trigger] v[j]).0@
}

/// One connection of the person more; those of everyone else stay.
pub open spec fn one_more(before: Roster, after: Roster, user: Seq<char>) -> bool {
    &&& after.of(user) == before.of(user) + 1
    &&& forall|u: Seq<char>| u != user ==> #[trigger] after.of(u) == before.of(u)
}

/// One connection of the person less, where there is one; those of everyone else stay.
pub open spec fn one_less(before: Roster, after: Roster, user: Seq<char>) -> bool {
    &&& after.of(user) == if before.of(user) > 0 {
        (before.of(user) - 1) as nat
    } else {
        0
    }
    &&& forall|u: Seq<char>| u != user ==> #[trigger] after.of(u) == before.of(u)
}

impl Roster {
    /// Everyone is listed once, and only while connected.
    pub open spec fn wf(self) -> bool {
        &&& distinct_names(self.entries@)
        &&& forall|i: int| 0 <= i < self.entries@.len() ==> (#[trigger] self.entries@[i]).1 > 0
    }

    /// How many connections the person has.
    pub open spec fn of(self, user: Seq<char>) -> nat {
        connections(self.entries@, user)
    }

    /// Nobody is connected.
    pub fn new() -> (r: Roster)
        ensures
            r.wf(),
            forall|u: Seq<char>| r.of(u) == 0,
    {
        Roster { entries: Vec::new() }
    }

    fn position(&self, user: &str) -> (r: Option<usize>)
        requires
            self.wf(),
        ensures
            match r {
                Some(i) => i < self.entries.len() && self.entries@[i as int].0@ == user@
                    && self.of(user@) == self.entries@[i as int].1,
                None => self.of(user@) == 0 && forall|j: int|
                    0 <= j < self.entries@.len() ==> (#[trigger] self.entries@[j]).0@ != user@,
            },
    {
        let mut i: usize = 0;
        assert(self.entries@.skip(0) =~= self.entries@);
        while i < self.entries.len()
            invariant
                i <= self.entries.len(),
                self.wf(),
                connections(self.entries@, user@) == connections(
                    self.entries@.skip(i as int),
                    user@,
                ),
                forall|j: int| 0 <= j < i ==> (#[trigger] self.entries@[j]).0@ != user@,
            decreases self.entries.len() - i,
        {
            if same(self.entries[i].0.as_str(), user) {
                return Some(i);
            }
            assert(self.entries@.skip(i as int).skip(1) =~= self.entries@.skip(i + 1));
            i += 1;
        }
        None
    }

    /// A connection of the person opens.
    pub fn join(&mut self, user: &str)
        requires
            old(self).wf(),
            old(self).of(user@) < usize::MAX,
        ensures
            final(self).wf(),
            one_more(*old(self), *final(self), user@),
    {
        let ghost before = self.entries@;
        match self.position(user) {
            Some(i) => {
                let name = self.entries[i].0.clone();
                let n: usize = self.entries[i].1 + 1;
                self.entries.set(i, (name, n));
                proof {
                    let after = self.entries@;
                    assert forall|u: Seq<char>| u != user@ implies #[trigger] connections(after, u)
                        == connections(before, u) by {
                        update_keeps_others(before, i as int, n, u);
                    }
                    update_sets(before, i as int, n);
                    assert forall|a: int, b: int| 0 <= a < b < after.len() implies (
                    #[trigger] after[a]).0@ != (#[trigger] after[b]).0@ by {
                        assert(before[a].0@ != before[b].0@);
                    }
                }
            },
            None => {
                self.entries.push((owned(user), 1));
                proof {
                    let after = self.entries@;
                    assert forall|u: Seq<char>| #[trigger] connections(after, u) == if u == user@ {
                        1
                    } else {
                        connections(before, u)
                    } by {
                        push_counts(before, after.last(), u);
                        assert(after =~= before.push(after.last()));
                    }
                }
            },
        }
    }

    /// A connection of the person closes; who has none left is no longer listed.
    pub fn leave(&mut self, user: &str)
        requires
            old(self).wf(),
        ensures
            final(self).wf(),
            one_less(*old(self), *final(self), user@),
    {
        let ghost before = self.entries@;
        if let Some(i) = self.position(user) {
            let n: usize = self.entries[i].1 - 1;
            if n == 0 {
                let _gone = self.entries.remove(i);
                proof {
                    let after = self.entries@;
                    assert(after =~= before.remove(i as int));
                    assert forall|u: Seq<char>| #[trigger] connections(after, u) == if u == user@ {
                        0
                    } else {
                        connections(before, u)
                    } by {
                        remove_counts(before, i as int, u);
                    }
                    assert forall|a: int, b: int| 0 <= a < b < after.len() implies (
                    #[trigger] after[a]).0@ != (#[trigger] after[b]).0@ by {
                        let x = if a < i { a } else { a + 1 };
                        let y = if b < i { b } else { b + 1 };
                        assert(before[x].0@ != before[y].0@);
                    }
                    assert forall|a: int| 0 <= a < after.len() implies (#[trigger] after[a]).1
                        > 0 by {
                        let x = if a < i { a } else { a + 1 };
                        assert(before[x].1 > 0);
                    }
                }
            } else {
                let name = self.entries[i].0.clone();
                self.entries.set(i, (name, n));
                proof {
                    let after = self.entries@;
                    assert forall|u: Seq<char>| u != user@ implies #[trigger] connections(after, u)
                        == connections(before, u) by {
                        update_keeps_others(before, i as int, n, u);
                    }
                    update_sets(before, i as int, n);
                    assert forall|a: int, b: int| 0 <= a < b < after.len() implies (
                    #[trigger] after[a]).0@ != (#[trigger] after[b]).0@ by {
                        assert(before[a].0@ != before[b].0@);
                    }
                }
            }
        }
    }

    /// How many people are connected; whoever asks is, so never none.
    pub fn count(&self) -> (n: usize)
        ensures
            n == if self.entries@.len() > 0 {
                self.entries@.len()
            } else {
                1
            },
    {
        let n: usize = self.entries.len();
        if n > 0 {
            n
        } else {
            1
        }
    }

    /// The names of those who are connected, in the order in which they came.
    pub open spec fn spec_names(self) -> Seq<String> {
        self.entries@.map_values(|e: (String, usize)| e.0)
    }

    /// Who is connected.
    pub fn online_users(&self) -> (r: Vec<String>)
        ensures
            r@ == self.spec_names(),
    {
        let mut r: Vec<String> = Vec::new();
        let mut i: usize = 0;
        while i < self.entries.len()
            invariant
                i <= self.entries.len(),
                r@.len() == i,
                forall|j: int| 0 <= j < i ==> #[trigger] r@[j] == self.entries@[j].0,
            decreases self.entries.len() - i,
        {
            let name = self.entries[i].0.clone();
            r.push(name);
            i += 1;
        }
        assert(r@ =~= self.spec_names());
        r
    }

    /// Who is connected, sorted by name.
    pub fn roster(&self) -> (r: Vec<String>)
        ensures
            r@ == sorted(self.spec_names()),
    {
        let names = self.online_users();
        sort(names)
    }
}

proof fn connections_absent(v: Seq<(String, usize)>, user: Seq<char>)
    requires
        forall|j: int| 0 <= j < v.len() ==> (#[trigger] v[j]).0@ != user,
    ensures
        connections(v, user) == 0,
    decreases v.len(),
{
    if v.len() > 0 {
        assert(v[0].0@ != user);
        let rest = v.skip(1);
        assert forall|j: int| 0 <= j < rest.len() implies (#[trigger] rest[j]).0@ != user by {
            assert(rest[j] == v[j + 1]);
        }
        connections_absent(rest, user);
    }
}

proof fn connections_at(v: Seq<(String, usize)>, i: int)
    requires
        distinct_names(v),
        0 <= i < v.len(),
    ensures
        connections(v, v[i].0@) == v[i].1,
    decreases v.len(),
{
    if i > 0 {
        assert(v[0].0@ != v[i].0@);
        let rest = v.skip(1);
        assert forall|a: int, b: int| 0 <= a < b < rest.len() implies (#[trigger] rest[a]).0@ != (
        #[trigger] rest[b]).0@ by {
            assert(v[a + 1].0@ != v[b + 1].0@);
        }
        connections_at(rest, i - 1);
        assert(rest[i - 1] == v[i]);
    }
}

proof fn update_keeps_others(v: Seq<(String, usize)>, i: int, n: usize, u: Seq<char>)
    requires
        0 <= i < v.len(),
        v[i].0@ != u,
    ensures
        connections(v.update(i, (v[i].0, n)), u) == connections(v, u),
    decreases v.len(),
{
    let w = v.update(i, (v[i].0, n));
    if i == 0 {
        assert(w.skip(1) =~= v.skip(1));
    } else if v[0].0@ != u {
        assert(w.skip(1) =~= v.skip(1).update(i - 1, (v[i].0, n)));
        update_keeps_others(v.skip(1), i - 1, n, u);
    }
}

proof fn update_sets(v: Seq<(String, usize)>, i: int, n: usize)
    requires
        distinct_names(v),
        0 <= i < v.len(),
    ensures
        connections(v.update(i, (v[i].0, n)), v[i].0@) == n,
{
    let w = v.update(i, (v[i].0, n));
    assert forall|a: int, b: int| 0 <= a < b < w.len() implies (#[trigger] w[a]).0@ != (
    #[trigger] w[b]).0@ by {
        assert(v[a].0@ != v[b].0@);
    }
    connections_at(w, i);
}

proof fn push_counts(v: Seq<(String, usize)>, e: (String, usize), u: Seq<char>)
    requires
        forall|j: int| 0 <= j < v.len() ==> (#[trigger] v[j]).0@ != e.0@,
    ensures
        connections(v.push(e), u) == if u == e.0@ {
            e.1 as nat
        } else {
            connections(v, u)
        },
    decreases v.len(),
{
    if v.len() > 0 {
        assert(v[0].0@ != e.0@);
        assert(v.push(e).skip(1) =~= v.skip(1).push(e));
        let rest = v.skip(1);
        assert forall|j: int| 0 <= j < rest.len() implies (#[trigger] rest[j]).0@ != e.0@ by {
            assert(rest[j] == v[j + 1]);
        }
        push_counts(rest, e, u);
    } else {
        reveal_with_fuel(connections, 2);
        assert(v.push(e).skip(1) =~= v);
    }
}

proof fn remove_counts(v: Seq<(String, usize)>, i: int, u: Seq<char>)
    requires
        distinct_names(v),
        0 <= i < v.len(),
    ensures
        connections(v.remove(i), u) == if u == v[i].0@ {
            0
        } else {
            connections(v, u)
        },
    decreases v.len(),
{
    let w = v.remove(i);
    if u == v[i].0@ {
        assert forall|j: int| 0 <= j < w.len() implies (#[trigger] w[j]).0@ != u by {
            let x = if j < i { j } else { j + 1 };
            if x < i {
                assert(v[x].0@ != v[i].0@);
            } else {
                assert(v[i].0@ != v[x].0@);
            }
        }
        connections_absent(w, u);
    } else if i == 0 {
        assert(w =~= v.skip(1));
    } else if v[0].0@ != u {
        let rest = v.skip(1);
        assert forall|a: int, b: int| 0 <= a < b < rest.len() implies (#[trigger] rest[a]).0@ != (
        #[trigger] rest[b]).0@ by {
            assert(v[a + 1].0@ != v[b + 1].0@);
        }
        remove_counts(rest, i - 1, u);
        assert(w.skip(1) =~= rest.remove(i - 1));
    }
}

proof fn connected_is_listed(v: Seq<(String, usize)>, user: Seq<char>)
    requires
        connections(v, user) > 0,
    ensures
        exists|i: int| 0 <= i < v.len() && (#[trigger] v[i]).0@ == user,
    decreases v.len(),
{
    if v.len() > 0 && v[0].0@ != user {
        connected_is_listed(v.skip(1), user);
        let i = choose|i: int| 0 <= i < v.skip(1).len() && (#[trigger] v.skip(1)[i]).0@ == user;
        assert(v[i + 1].0@ == user);
    } else if v.len() > 0 {
        assert(v[0].0@ == user);
    }
}

/// A person is listed exactly while they have a connection, and once: the list is as long as
/// there are people, not windows.
pub proof fn a_person_is_listed_while_connected(r: Roster, user: Seq<char>)
    requires
        r.wf(),
    ensures
        texts(r.spec_names()).contains(user) <==> r.of(user) > 0,
        texts(r.spec_names()).no_duplicates(),
{
    let names = texts(r.spec_names());
    if r.of(user) > 0 {
        connected_is_listed(r.entries@, user);
        let i = choose|i: int|
            0 <= i < r.entries@.len() && (#[trigger] r.entries@[i]).0@ == user;
        assert(names[i] == user);
    }
    if names.contains(user) {
        let i = choose|i: int| 0 <= i < names.len() && names[i] == user;
        connections_at(r.entries@, i);
    }
    assert forall|i: int, j: int| 0 <= i < names.len() && 0 <= j < names.len() && i != j implies
        names[i] != names[j] by {
        if i < j {
            assert(r.entries@[i].0@ != r.entries@[j].0@);
        } else {
            assert(r.entries@[j].0@ != r.entries@[i].0@);
        }
    }
}

/// A visit leaves no trace: once a connection that was opened is closed, everyone has as many
/// connections as before, whoever else was listed.
pub proof fn a_visit_leaves_no_trace(before: Roster, during: Roster, after: Roster, user: Seq<char>)
    requires
        one_more(before, during, user),
        one_less(during, after, user),
    ensures
        forall|u: Seq<char>| #[trigger] after.of(u) == before.of(u),
{
    assert forall|u: Seq<char>| #[trigger] after.of(u) == before.of(u) by {
        if u != user {
            assert(during.of(u) == before.of(u));
        }
    }
}

/// The sorted roster holds exactly the people who are connected.
pub proof fn the_roster_is_sorted(r: Roster)
    ensures
        in_order(sorted(r.spec_names())),
        sorted(r.spec_names()).to_multiset() == r.spec_names().to_multiset(),
{
    sorting_orders_and_keeps(r.spec_names());
}

/// The people at work on one page.
#[derive(Clone, Debug)]
pub struct Room {
    pub name: String,
    pub roster: Roster,
}

/// The pages that someone works on.
#[derive(Clone, Debug)]
pub struct Rooms {
    pub rooms: Vec<Room>,
}

/// A person came to a page (`joined`) or left it; nothing else changed.
pub open spec fn moved(
    before: Rooms,
    after: Rooms,
    room: Seq<char>,
    user: Seq<char>,
    joined: bool,
) -> bool {
    &&& after.of(room, user) == if joined {
        before.of(room, user) + 1
    } else if before.of(room, user) > 0 {
        (before.of(room, user) - 1) as nat
    } else {
        0
    }
    &&& forall|u: Seq<char>| u != user ==> #[trigger] after.of(room, u) == before.of(room, u)
    &&& forall|other: Seq<char>, u: Seq<char>|
        other != room ==> #[trigger] after.of(other, u) == before.of(other, u)
}

impl Rooms {
    /// Each page is listed once, and only while someone is there.
    pub open spec fn wf(self) -> bool {
        &&& forall|i: int, j: int|
            0 <= i < j < self.rooms@.len() ==> (#[trigger] self.rooms@[i]).name@ != (
            #[trigger] self.rooms@[j]).name@
        &&& forall|i: int|
            0 <= i < self.rooms@.len() ==> (#[trigger] self.rooms@[i]).roster.wf()
                && self.rooms@[i].roster.entries@.len() > 0
    }

    /// Whether someone works on the page.
    pub open spec fn open_at(self, room: Seq<char>) -> bool {
        exists|i: int| 0 <= i < self.rooms@.len() && (#[trigger] self.rooms@[i]).name@ == room
    }

    pub open spec fn at(self, room: Seq<char>) -> int {
        choose|i: int| 0 <= i < self.rooms@.len() && (#[trigger] self.rooms@[i]).name@ == room
    }

    /// How many connections a person has to a page.
    pub open spec fn of(self, room: Seq<char>, user: Seq<char>) -> nat {
        if self.open_at(room) {
            self.rooms@[self.at(room)].roster.of(user)
        } else {
            0
        }
    }

    /// Who works on a page, in the order in which they came.
    pub open spec fn names(self, room: Seq<char>) -> Seq<String> {
        if self.open_at(room) {
            self.rooms@[self.at(room)].roster.spec_names()
        } else {
            Seq::empty()
        }
    }

    /// Nobody works on any page.
    pub fn new() -> (r: Rooms)
        ensures
            r.wf(),
            forall|room: Seq<char>, user: Seq<char>| r.of(room, user) == 0,
    {
        Rooms { rooms: Vec::new() }
    }

    fn position(&self, room: &str) -> (r: Option<usize>)
        requires
            self.wf(),
        ensures
            match r {
                Some(i) => i < self.rooms.len() && self.rooms@[i as int].name@ == room@
                    && self.open_at(room@) && self.at(room@) == i,
                None => !self.open_at(room@),
            },
    {
        let mut i: usize = 0;
        while i < self.rooms.len()
            invariant
                i <= self.rooms.len(),
                self.wf(),
                forall|j: int| 0 <= j < i ==> (#[trigger] self.rooms@[j]).name@ != room@,
            decreases self.rooms.len() - i,
        {
            if same(self.rooms[i].name.as_str(), room) {
                assert(self.rooms@[i as int].name@ == room@);
                return Some(i);
            }
            i += 1;
        }
        None
    }

    /// Who works on a page.
    pub fn editors(&self, room: &str) -> (r: Vec<String>)
        requires
            self.wf(),
        ensures
            r@ == self.names(room@),
    {
        match self.position(room) {
            Some(i) => self.rooms[i].roster.online_users(),
            None => Vec::new(),
        }
    }

    /// A person comes to a page or leaves it. Returns who works on it now, sorted by name.
    pub fn presence(&mut self, room: &str, user: &str, joined: bool) -> (r: Vec<String>)
        requires
            old(self).wf(),
            joined ==> old(self).of(room@, user@) < usize::MAX,
        ensures
            final(self).wf(),
            moved(*old(self), *final(self), room@, user@, joined),
            r@ == sorted(final(self).names(room@)),
    {
        let ghost before = *self;
        match self.position(room) {
            Some(i) => {
                if joined {
                    self.rooms[i].roster.join(user);
                } else {
                    self.rooms[i].roster.leave(user);
                }
                let r = self.rooms[i].roster.roster();
                let ghost now = self.rooms@;
                if self.rooms[i].roster.entries.len() == 0 {
                    let _gone = self.rooms.remove(i);
                    proof {
                        let after = *self;
                        assert(after.rooms@ =~= now.remove(i as int));
                        assert forall|a: int, b: int| 0 <= a < b < after.rooms@.len() implies (
                        #[trigger] after.rooms@[a]).name@ != (#[trigger] after.rooms@[b]).name@ by {
                            let x = if a < i { a } else { a + 1 };
                            let y = if b < i { b } else { b + 1 };
                            assert(before.rooms@[x].name@ != before.rooms@[y].name@);
                        }
                        assert forall|a: int| 0 <= a < after.rooms@.len() implies (
                        #[trigger] after.rooms@[a]).roster.wf()
                            && after.rooms@[a].roster.entries@.len() > 0 by {
                            let x = if a < i { a } else { a + 1 };
                            assert(before.rooms@[x].roster.wf());
                        }
                        if after.open_at(room@) {
                            let a = after.at(room@);
                            let x = if a < i { a } else { a + 1 };
                            assert(before.rooms@[x].name@ == room@);
                        }
                        assert forall|other: Seq<char>, u: Seq<char>| other != room@ implies
                            #[trigger] after.of(other, u) == before.of(other, u) by {
                            if before.open_at(other) {
                                let x = before.at(other);
                                let a = if x < i { x } else { x - 1 };
                                assert(after.rooms@[a].name@ == other);
                                let b = after.at(other);
                                assert(a == b);
                            } else if after.open_at(other) {
                                let a = after.at(other);
                                let x = if a < i { a } else { a + 1 };
                                assert(before.rooms@[x].name@ == other);
                            }
                        }
                        assert forall|u: Seq<char>| u != user@ implies #[trigger] after.of(
                            room@,
                            u,
                        ) == before.of(room@, u) by {
                            assert(now[i as int].roster.of(u) == before.rooms@[i as int].roster.of(
                                u,
                            ));
                        }
                        assert(now[i as int].roster.spec_names() =~= Seq::empty());
                        assert(now[i as int].roster.of(user@) == 0);
                    }
                } else {
                    proof {
                        let after = *self;
                        assert forall|a: int| 0 <= a < after.rooms@.len() && a != i implies (
                        #[trigger] after.rooms@[a]) == before.rooms@[a] by {}
                        assert(after.rooms@[i as int].name@ == room@);
                        assert(after.at(room@) == i);
                        assert forall|other: Seq<char>, u: Seq<char>| other != room@ implies
                            #[trigger] after.of(other, u) == before.of(other, u) by {
                            if before.open_at(other) {
                                let x = before.at(other);
                                assert(after.rooms@[x].name@ == other);
                                assert(after.at(other) == x);
                            } else if after.open_at(other) {
                                let a = after.at(other);
                                assert(before.rooms@[a].name@ == other);
                            }
                        }
                    }
                }
                r
            },
            None => {
                if joined {
                    let mut roster = Roster::new();
                    roster.join(user);
                    let r = roster.roster();
                    proof {
                        connected_is_listed(roster.entries@, user@);
                    }
                    let ghost fresh = roster;
                    self.rooms.push(Room { name: owned(room), roster });
                    proof {
                        let after = *self;
                        let last = before.rooms@.len() as int;
                        assert(after.rooms@[last].name@ == room@);
                        assert forall|a: int| 0 <= a < last implies #[trigger] after.rooms@[a]
                            == before.rooms@[a] by {}
                        assert forall|a: int, b: int| 0 <= a < b < after.rooms@.len() implies (
                        #[trigger] after.rooms@[a]).name@ != (#[trigger] after.rooms@[b]).name@ by {
                            if b == last {
                                assert(before.rooms@[a].name@ != room@);
                            } else {
                                assert(before.rooms@[a].name@ != before.rooms@[b].name@);
                            }
                        }
                        assert(after.at(room@) == last);
                        assert forall|other: Seq<char>, u: Seq<char>| other != room@ implies
                            #[trigger] after.of(other, u) == before.of(other, u) by {
                            if before.open_at(other) {
                                let x = before.at(other);
                                assert(after.rooms@[x].name@ == other);
                                assert(after.at(other) == x);
                            } else if after.open_at(other) {
                                let a = after.at(other);
                                assert(before.rooms@[a].name@ == other);
                            }
                        }
                    }
                    r
                } else {
                    Vec::new()
                }
            },
        }
    }
}

/// Who comes to a page and leaves it again changes nothing, there or on any other page.
pub proof fn who_leaves_a_page_is_gone(
    before: Rooms,
    during: Rooms,
    after: Rooms,
    room: Seq<char>,
    user: Seq<char>,
)
    requires
        moved(before, during, room, user, true),
        moved(during, after, room, user, false),
    ensures
        forall|r: Seq<char>, u: Seq<char>| #[trigger] after.of(r, u) == before.of(r, u),
{
    assert forall|r: Seq<char>, u: Seq<char>| #[trigger] after.of(r, u) == before.of(r, u) by {
        if r != room || u != user {
            assert(during.of(r, u) == before.of(r, u));
        }
    }
}

/// A person has as many connections as their entry says, and none without an entry.
pub proof fn connections_are_those_of_the_entry(r: Roster, i: int, user: Seq<char>)
    requires
        r.wf(),
        0 <= i < r.entries@.len(),
    ensures
        r.of(r.entries@[i].0@) == r.entries@[i].1,
        (forall|j: int| 0 <= j < r.entries@.len() ==> (#[trigger] r.entries@[j]).0@ != user)
            ==> r.of(user) == 0,
{
    connections_at(r.entries@, i);
    if forall|j: int| 0 <= j < r.entries@.len() ==> (#[trigger] r.entries@[j]).0@ != user {
        connections_absent(r.entries@, user);
    }
}

/// Whoever opens a second window and closes it again is still there: only the last window that
/// closes takes a person off the roster, and nobody else's windows count.
pub proof fn the_last_window_counts(before: Roster, after: Roster, user: Seq<char>, other: Seq<char>)
    requires
        one_less(before, after, user),
        other != user,
    ensures
        before.of(user) > 1 ==> after.of(user) > 0 && after.of(user) + 1 == before.of(user),
        before.of(user) <= 1 ==> after.of(user) == 0,
        after.of(other) == before.of(other),
{
}

/// A window that opens counts as one, for the person it belongs to and nobody else.
pub proof fn a_window_counts_once(before: Roster, after: Roster, user: Seq<char>, other: Seq<char>)
    requires
        one_more(before, after, user),
        other != user,
    ensures
        after.of(user) == before.of(user) + 1,
        after.of(other) == before.of(other),
{
}

/// On a page a person counts once for each time they came; who leaves goes from that page alone,
/// and the others on it stay.
pub proof fn coming_and_going_concerns_one_page(
    before: Rooms,
    after: Rooms,
    room: Seq<char>,
    user: Seq<char>,
    joined: bool,
    other_room: Seq<char>,
    other: Seq<char>,
)
    requires
        moved(before, after, room, user, joined),
        other != user,
        other_room != room,
    ensures
        joined ==> after.of(room, user) == before.of(room, user) + 1,
        !joined && before.of(room, user) > 0 ==> after.of(room, user) + 1 == before.of(room, user),
        !joined && before.of(room, user) == 0 ==> after.of(room, user) == 0,
        after.of(room, other) == before.of(room, other),
        after.of(other_room, user) == before.of(other_room, user),
        after.of(other_room, other) == before.of(other_room, other),
{
}

} // verus!
