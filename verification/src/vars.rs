//! A small ordered key/value store for shell variables.
//!
//! The store keeps its entries in insertion order and never holds the same
//! name twice, so it serves both as the per-command override map and as an
//! explicit stand-in for the process environment.

use vstd::prelude::*;

verus! {

/// The map that an ordered list of `(name, value)` pairs denotes: later pairs
/// win over earlier ones with the same name.
pub open spec fn map_of(entries: Seq<(Seq<char>, Seq<char>)>) -> Map<Seq<char>, Seq<char>>
    decreases entries.len(),
{
    if entries.len() == 0 {
        Map::empty()
    } else {
        map_of(entries.drop_last()).insert(entries.last().0, entries.last().1)
    }
}

/// No name occurs twice among `entries`.
pub open spec fn distinct_names(entries: Seq<(Seq<char>, Seq<char>)>) -> bool {
    forall|i: int, j: int|
        0 <= i < j < entries.len() ==> (#[trigger] entries[i]).0 != (#[trigger] entries[j]).0
}

/// The position of `name` among `entries`, or `entries.len()` when absent.
pub open spec fn position_of(entries: Seq<(Seq<char>, Seq<char>)>, name: Seq<char>) -> int
    decreases entries.len(),
{
    if entries.len() == 0 {
        0
    } else if entries[0].0 == name {
        0
    } else {
        1 + position_of(entries.drop_first(), name)
    }
}

/// `position_of` finds the first entry with the given name, if there is one.
pub proof fn lemma_position_of(entries: Seq<(Seq<char>, Seq<char>)>, name: Seq<char>)
    ensures
        0 <= position_of(entries, name) <= entries.len(),
        position_of(entries, name) < entries.len() ==> entries[position_of(entries, name)].0
            == name,
        forall|i: int| 0 <= i < position_of(entries, name) ==> (#[trigger] entries[i]).0 != name,
    decreases entries.len(),
{
    if entries.len() > 0 && entries[0].0 != name {
        let rest = entries.drop_first();
        lemma_position_of(rest, name);
        assert forall|i: int| 0 <= i < position_of(entries, name) implies (#[trigger] entries[i]).0
            != name by {
            if i > 0 {
                assert(entries[i] == rest[i - 1]);
            }
        }
    }
}

/// What `map_of` holds, entry by entry.
pub proof fn lemma_map_of(entries: Seq<(Seq<char>, Seq<char>)>)
    ensures
        map_of(entries).dom().finite(),
        forall|k: Seq<char>| #[trigger]
            map_of(entries).contains_key(k) <==> position_of(entries, k) < entries.len(),
        distinct_names(entries) ==> forall|i: int|
            0 <= i < entries.len() ==> map_of(entries).contains_key((#[trigger] entries[i]).0)
                && map_of(entries)[entries[i].0] == entries[i].1,
        distinct_names(entries) ==> map_of(entries).dom().len() == entries.len(),
    decreases entries.len(),
{
    if entries.len() > 0 {
        let front = entries.drop_last();
        let last = entries.last();
        lemma_map_of(front);
        assert forall|k: Seq<char>| #[trigger]
            map_of(entries).contains_key(k) <==> position_of(entries, k) < entries.len() by {
            lemma_position_of(entries, k);
            lemma_position_of(front, k);
            let p = position_of(entries, k);
            let q = position_of(front, k);
            if q < front.len() {
                assert(entries[q] == front[q]);
                if p > q {
                    assert(entries[q].0 != k);
                }
            } else if p < front.len() {
                assert(front[p] == entries[p]);
            }
        }
        if distinct_names(entries) {
            assert(distinct_names(front)) by {
                assert forall|i: int, j: int| 0 <= i < j < front.len() implies (#[trigger] front[i]).0
                    != (#[trigger] front[j]).0 by {
                    assert(front[i] == entries[i]);
                    assert(front[j] == entries[j]);
                }
            }
            assert forall|i: int| 0 <= i < entries.len() implies map_of(entries).contains_key(
                (#[trigger] entries[i]).0,
            ) && map_of(entries)[entries[i].0] == entries[i].1 by {
                if i < front.len() {
                    assert(front[i] == entries[i]);
                    assert(entries[i].0 != entries[entries.len() - 1].0);
                }
            }
            assert(!map_of(front).contains_key(last.0)) by {
                lemma_position_of(front, last.0);
                let q = position_of(front, last.0);
                if q < front.len() {
                    assert(front[q] == entries[q]);
                    assert(entries[q].0 != entries[entries.len() - 1].0);
                }
            }
        }
    }
}

/// Appending a binding for a fresh or known name is an insertion into the map.
pub proof fn lemma_map_of_push(entries: Seq<(Seq<char>, Seq<char>)>, name: Seq<char>, value: Seq<char>)
    ensures
        map_of(entries.push((name, value))) == map_of(entries).insert(name, value),
{
    assert(entries.push((name, value)).drop_last() == entries);
}

/// Two lists with unique names and the same bindings denote the same map.
pub proof fn lemma_map_of_equal(
    entries: Seq<(Seq<char>, Seq<char>)>,
    map: Map<Seq<char>, Seq<char>>,
)
    requires
        distinct_names(entries),
        forall|i: int| 0 <= i < entries.len() ==> map.contains_key((#[trigger] entries[i]).0)
            && map[entries[i].0] == entries[i].1,
        forall|k: Seq<char>| #[trigger]
            map.contains_key(k) ==> position_of(entries, k) < entries.len(),
    ensures
        map_of(entries) == map,
{
    lemma_map_of(entries);
    assert forall|k: Seq<char>| #[trigger] map_of(entries).contains_key(k) implies map.contains_key(
        k,
    ) && map[k] == map_of(entries)[k] by {
        lemma_position_of(entries, k);
        let p = position_of(entries, k);
        assert(entries[p].0 == k);
    }
    assert forall|k: Seq<char>| #[trigger] map.contains_key(k) implies map_of(entries).contains_key(
        k,
    ) by {
        lemma_position_of(entries, k);
    }
    assert(map_of(entries) =~= map);
}

/// Replacing the value at the position of a name is an insertion into the map.
pub proof fn lemma_map_of_update(
    entries: Seq<(Seq<char>, Seq<char>)>,
    at: int,
    value: Seq<char>,
)
    requires
        distinct_names(entries),
        0 <= at < entries.len(),
    ensures
        distinct_names(entries.update(at, (entries[at].0, value))),
        map_of(entries.update(at, (entries[at].0, value))) == map_of(entries).insert(
            entries[at].0,
            value,
        ),
{
    let name = entries[at].0;
    let updated = entries.update(at, (name, value));
    let target = map_of(entries).insert(name, value);
    lemma_map_of(entries);
    assert(distinct_names(updated)) by {
        assert forall|i: int, j: int| 0 <= i < j < updated.len() implies (#[trigger] updated[i]).0
            != (#[trigger] updated[j]).0 by {
            assert(updated[i].0 == entries[i].0);
            assert(updated[j].0 == entries[j].0);
        }
    }
    assert forall|i: int| 0 <= i < updated.len() implies target.contains_key(
        (#[trigger] updated[i]).0,
    ) && target[updated[i].0] == updated[i].1 by {
        if i != at {
            assert(updated[i] == entries[i]);
            if i < at {
                assert(entries[i].0 != entries[at].0);
            } else {
                assert(entries[at].0 != entries[i].0);
            }
        }
    }
    assert forall|k: Seq<char>| #[trigger] target.contains_key(k) implies position_of(updated, k)
        < updated.len() by {
        lemma_position_of(entries, k);
        lemma_position_of(updated, k);
        let p = if k == name { at } else { position_of(entries, k) };
        assert(updated[p].0 == k);
    }
    lemma_map_of_equal(updated, target);
}

/// Taking out the entry at the position of a name removes that name from the map.
pub proof fn lemma_map_of_remove(entries: Seq<(Seq<char>, Seq<char>)>, at: int)
    requires
        distinct_names(entries),
        0 <= at < entries.len(),
    ensures
        distinct_names(entries.remove(at)),
        map_of(entries.remove(at)) == map_of(entries).remove(entries[at].0),
{
    let name = entries[at].0;
    let shorter = entries.remove(at);
    let target = map_of(entries).remove(name);
    lemma_map_of(entries);
    assert forall|i: int| 0 <= i < shorter.len() implies (#[trigger] shorter[i]) == entries[if i
        < at {
        i
    } else {
        i + 1
    }] by {}
    assert(distinct_names(shorter)) by {
        assert forall|i: int, j: int| 0 <= i < j < shorter.len() implies (#[trigger] shorter[i]).0
            != (#[trigger] shorter[j]).0 by {
            let a = if i < at { i } else { i + 1 };
            let b = if j < at { j } else { j + 1 };
            assert(entries[a].0 != entries[b].0);
        }
    }
    assert forall|i: int| 0 <= i < shorter.len() implies target.contains_key(
        (#[trigger] shorter[i]).0,
    ) && target[shorter[i].0] == shorter[i].1 by {
        let a = if i < at { i } else { i + 1 };
        assert(shorter[i] == entries[a]);
        if a < at {
            assert(entries[a].0 != entries[at].0);
        } else {
            assert(entries[at].0 != entries[a].0);
        }
    }
    assert forall|k: Seq<char>| #[trigger] target.contains_key(k) implies position_of(shorter, k)
        < shorter.len() by {
        lemma_position_of(entries, k);
        lemma_position_of(shorter, k);
        let p = position_of(entries, k);
        let q = if p < at { p } else { p - 1 };
        assert(shorter[q] == entries[p]);
    }
    lemma_map_of_equal(shorter, target);
}

/// An ordered set of `name = value` bindings with unique names.
#[derive(Debug)]
pub struct VarMap {
    entries: Vec<(String, String)>,
}

impl View for VarMap {
    type V = Map<Seq<char>, Seq<char>>;

    open spec fn view(&self) -> Map<Seq<char>, Seq<char>> {
        map_of(self.entries())
    }
}

impl VarMap {
    /// The bindings in the order in which their names were first inserted.
    pub closed spec fn entries(&self) -> Seq<(Seq<char>, Seq<char>)> {
        Seq::new(self.entries.len() as nat, |i: int| (self.entries[i].0@, self.entries[i].1@))
    }

    #[verifier::type_invariant]
    spec fn names_are_unique(&self) -> bool {
        distinct_names(self.entries())
    }

    /// An empty store.
    pub fn new() -> (vars: VarMap)
        ensures
            vars.entries() == Seq::<(Seq<char>, Seq<char>)>::empty(),
            vars@ == Map::<Seq<char>, Seq<char>>::empty(),
    {
        let vars = VarMap { entries: Vec::new() };
        assert(vars.entries() == Seq::<(Seq<char>, Seq<char>)>::empty());
        vars
    }

    /// The number of bindings.
    pub fn len(&self) -> (n: usize)
        ensures
            n == self.entries().len(),
            n == self@.dom().len(),
    {
        proof {
            use_type_invariant(self);
            lemma_map_of(self.entries());
        }
        self.entries.len()
    }

    /// The name of the binding at position `at`.
    pub fn name_at(&self, at: usize) -> (name: &String)
        requires
            at < self.entries().len(),
        ensures
            name@ == self.entries()[at as int].0,
    {
        &self.entries[at].0
    }

    /// The value of the binding at position `at`.
    pub fn value_at(&self, at: usize) -> (value: &String)
        requires
            at < self.entries().len(),
        ensures
            value@ == self.entries()[at as int].1,
    {
        &self.entries[at].1
    }

    /// The position of `name`, or the number of bindings when it is absent.
    fn find(&self, name: &String) -> (at: usize)
        ensures
            at == position_of(self.entries(), name@),
            at <= self.entries().len(),
            at < self.entries().len() <==> self@.contains_key(name@),
            at < self.entries().len() ==> self.entries()[at as int] == (name@, self@[name@]),
    {
        let mut at: usize = 0;
        assert(self.entries().skip(0) == self.entries());
        while at < self.entries.len() && self.entries[at].0 != *name
            invariant
                at <= self.entries.len(),
                position_of(self.entries(), name@) == at + position_of(
                    self.entries().skip(at as int),
                    name@,
                ),
            decreases self.entries.len() - at,
        {
            proof {
                let rest = self.entries().skip(at as int);
                assert(rest[0] == self.entries()[at as int]);
                assert(rest.drop_first() == self.entries().skip(at + 1));
            }
            at += 1;
        }
        proof {
            use_type_invariant(self);
            lemma_map_of(self.entries());
            lemma_position_of(self.entries(), name@);
            if at < self.entries.len() {
                assert(self.entries().skip(at as int)[0] == self.entries()[at as int]);
            }
        }
        at
    }

    /// Whether `name` is bound.
    pub fn contains_key(&self, name: &str) -> (found: bool)
        ensures
            found == self@.contains_key(name@),
    {
        let key = name.to_owned();
        self.find(&key) < self.entries.len()
    }

    /// The value bound to `name`, if any.
    pub fn get(&self, name: &str) -> (value: Option<&String>)
        ensures
            match value {
                Some(v) => self@.contains_key(name@) && v@ == self@[name@],
                None => !self@.contains_key(name@),
            },
    {
        let key = name.to_owned();
        let at = self.find(&key);
        if at < self.entries.len() {
            Some(&self.entries[at].1)
        } else {
            None
        }
    }

    /// Binds `name` to `value`. A name that is already bound keeps its
    /// position and takes the new value; a new name goes to the end. Returns
    /// the value that was bound before.
    pub fn insert(&mut self, name: String, value: String) -> (previous: Option<String>)
        ensures
            final(self)@ == old(self)@.insert(name@, value@),
            final(self).entries() == (if old(self)@.contains_key(name@) {
                old(self).entries().update(
                    position_of(old(self).entries(), name@),
                    (name@, value@),
                )
            } else {
                old(self).entries().push((name@, value@))
            }),
            match previous {
                Some(v) => old(self)@.contains_key(name@) && v@ == old(self)@[name@],
                None => !old(self)@.contains_key(name@),
            },
    {
        proof {
            use_type_invariant(&*self);
        }
        let ghost before = self.entries();
        let at = self.find(&name);
        if at < self.entries.len() {
            let mut entries: Vec<(String, String)> = Vec::new();
            core::mem::swap(&mut entries, &mut self.entries);
            let taken = entries.remove(at);
            entries.insert(at, (name, value));
            proof {
                lemma_map_of_update(before, at as int, value@);
                assert(Seq::new(
                    entries.len() as nat,
                    |i: int| (entries[i].0@, entries[i].1@),
                ) == before.update(at as int, (name@, value@)));
            }
            self.entries = entries;
            Some(taken.1)
        } else {
            let mut entries: Vec<(String, String)> = Vec::new();
            core::mem::swap(&mut entries, &mut self.entries);
            entries.push((name, value));
            proof {
                lemma_map_of_push(before, name@, value@);
                lemma_map_of(before);
                assert(Seq::new(
                    entries.len() as nat,
                    |i: int| (entries[i].0@, entries[i].1@),
                ) == before.push((name@, value@)));
                assert(distinct_names(before.push((name@, value@)))) by {
                    let longer = before.push((name@, value@));
                    assert forall|i: int, j: int| 0 <= i < j < longer.len() implies (
                    #[trigger] longer[i]).0 != (#[trigger] longer[j]).0 by {
                        if j == before.len() {
                            assert(longer[i] == before[i]);
                            assert(map_of(before).contains_key(before[i].0));
                        } else {
                            assert(longer[i] == before[i]);
                            assert(longer[j] == before[j]);
                        }
                    }
                }
            }
            self.entries = entries;
            None
        }
    }

    /// Unbinds `name`, keeping the order of the other bindings. Returns the
    /// value that was bound.
    pub fn remove(&mut self, name: &str) -> (previous: Option<String>)
        ensures
            final(self)@ == old(self)@.remove(name@),
            final(self).entries() == (if old(self)@.contains_key(name@) {
                old(self).entries().remove(position_of(old(self).entries(), name@))
            } else {
                old(self).entries()
            }),
            match previous {
                Some(v) => old(self)@.contains_key(name@) && v@ == old(self)@[name@],
                None => !old(self)@.contains_key(name@),
            },
    {
        proof {
            use_type_invariant(&*self);
        }
        let ghost before = self.entries();
        let key = name.to_owned();
        let at = self.find(&key);
        if at < self.entries.len() {
            let mut entries: Vec<(String, String)> = Vec::new();
            core::mem::swap(&mut entries, &mut self.entries);
            let taken = entries.remove(at);
            proof {
                lemma_map_of_remove(before, at as int);
                assert(Seq::new(
                    entries.len() as nat,
                    |i: int| (entries[i].0@, entries[i].1@),
                ) == before.remove(at as int));
            }
            self.entries = entries;
            Some(taken.1)
        } else {
            assert(old(self)@.remove(name@) == old(self)@);
            None
        }
    }
}

} // verus!
