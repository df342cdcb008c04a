//! The session-wide index from object names to their placed nodes.
use vstd::prelude::*;

verus! {

/// True when no two entries share a name.
pub open spec fn names_unique(s: Seq<(String, u64)>) -> bool {
    forall|i: int, j: int|
        0 <= i < s.len() && 0 <= j < s.len() && i != j ==> #[trigger] s[i].0@ != #[trigger] s[j].0@
}

/// True when some entry carries the name `k`.
pub open spec fn has_name(s: Seq<(String, u64)>, k: Seq<char>) -> bool {
    exists|i: int| 0 <= i < s.len() && #[trigger] s[i].0@ == k
}

/// The map that a list of entries describes.
pub open spec fn entries_map(s: Seq<(String, u64)>) -> Map<Seq<char>, u64> {
    Map::new(
        |k: Seq<char>| has_name(s, k),
        |k: Seq<char>| s[choose|i: int| 0 <= i < s.len() && #[trigger] s[i].0@ == k].1,
    )
}

/// Maps each placed object's name to the node it was placed as.
///
/// Names are unique in the index: setting a name that is already present
/// replaces its node.
pub struct MiloEntityMap {
    entries: Vec<(String, u64)>,
}

impl View for MiloEntityMap {
    type V = Map<Seq<char>, u64>;

    closed spec fn view(&self) -> Map<Seq<char>, u64> {
        entries_map(self.entries@)
    }
}

proof fn lemma_entry_value(s: Seq<(String, u64)>, i: int)
    requires
        names_unique(s),
        0 <= i < s.len(),
    ensures
        entries_map(s).contains_key(s[i].0@),
        entries_map(s)[s[i].0@] == s[i].1,
{
    let k = s[i].0@;
    assert(has_name(s, k));
    let j = choose|j: int| 0 <= j < s.len() && #[trigger] s[j].0@ == k;
    assert(j == i);
}

impl MiloEntityMap {
    /// True when the names in the index are unique.
    pub closed spec fn wf(&self) -> bool {
        names_unique(self.entries@) && entries_map(self.entries@).dom().finite()
    }

    /// An empty index.
    pub fn new() -> (r: Self)
        ensures
            r.wf(),
            r@ == Map::<Seq<char>, u64>::empty(),
            r@.dom().finite(),
    {
        let r = MiloEntityMap { entries: Vec::new() };
        assert(r@ =~= Map::<Seq<char>, u64>::empty());
        r
    }

    /// Position of the entry named `name`, if any.
    fn find(&self, name: &String) -> (r: Option<usize>)
        requires
            self.wf(),
        ensures
            match r {
                Some(i) => i < self.entries@.len() && self.entries@[i as int].0@ == name@,
                None => !has_name(self.entries@, name@),
            },
    {
        let mut i: usize = 0;
        while i < self.entries.len()
            invariant
                i <= self.entries@.len(),
                forall|j: int| 0 <= j < i ==> #[trigger] self.entries@[j].0@ != name@,
            decreases self.entries@.len() - i,
        {
            if self.entries[i].0 == *name {
                return Some(i);
            }
            i = i + 1;
        }
        None
    }

    /// The node placed under `object_name`, if one is.
    pub fn get_entity(&self, object_name: &str) -> (r: Option<u64>)
        requires
            self.wf(),
        ensures
            r == (if self@.contains_key(object_name@) {
                Some(self@[object_name@])
            } else {
                None
            }),
    {
        let name = object_name.to_owned();
        match self.find(&name) {
            Some(i) => {
                proof {
                    lemma_entry_value(self.entries@, i as int);
                }
                Some(self.entries[i].1)
            },
            None => None,
        }
    }

    /// Records that `object_name` is placed as `entity`, replacing any
    /// earlier node of that name.
    pub fn set_entity(&mut self, object_name: &str, entity: u64)
        requires
            old(self).wf(),
        ensures
            final(self).wf(),
            final(self)@ == old(self)@.insert(object_name@, entity),
            final(self)@.dom().finite(),
            final(self)@.len() == old(self)@.len() + (if old(self)@.contains_key(object_name@) {
                0int
            } else {
                1int
            }),
    {
        let name = object_name.to_owned();
        let ghost before = self.entries@;
        match self.find(&name) {
            Some(i) => {
                self.entries.set(i, (name, entity));
                proof {
                    let after = self.entries@;
                    assert(names_unique(after));
                    assert forall|k: Seq<char>| #[trigger]
                        entries_map(after).contains_key(k) == entries_map(before).insert(
                            object_name@,
                            entity,
                        ).contains_key(k) by {
                        if has_name(before, k) {
                            let j = choose|j: int| 0 <= j < before.len() && #[trigger] before[j].0@ == k;
                            assert(after[j].0@ == k);
                        }
                        if has_name(after, k) {
                            let j = choose|j: int| 0 <= j < after.len() && #[trigger] after[j].0@ == k;
                            assert(before[j].0@ == k);
                        }
                    }
                    assert forall|k: Seq<char>| #[trigger] entries_map(after).contains_key(k)
                        implies entries_map(after)[k] == entries_map(before).insert(
                            object_name@,
                            entity,
                        )[k] by {
                        let j = choose|j: int| 0 <= j < after.len() && #[trigger] after[j].0@ == k;
                        lemma_entry_value(after, j);
                        if j != i {
                            lemma_entry_value(before, j);
                        }
                    }
                    assert(entries_map(after) =~= entries_map(before).insert(object_name@, entity));
                }
            },
            None => {
                self.entries.push((name, entity));
                proof {
                    let after = self.entries@;
                    assert(after == before.push((name, entity)));
                    assert(names_unique(after));
                    assert forall|k: Seq<char>| #[trigger]
                        entries_map(after).contains_key(k) == entries_map(before).insert(
                            object_name@,
                            entity,
                        ).contains_key(k) by {
                        if has_name(before, k) {
                            let j = choose|j: int| 0 <= j < before.len() && #[trigger] before[j].0@ == k;
                            assert(after[j].0@ == k);
                        }
                        if k == object_name@ {
                            assert(after[before.len() as int].0@ == k);
                        }
                        if has_name(after, k) {
                            let j = choose|j: int| 0 <= j < after.len() && #[trigger] after[j].0@ == k;
                            if j < before.len() {
                                assert(before[j].0@ == k);
                            }
                        }
                    }
                    assert forall|k: Seq<char>| #[trigger] entries_map(after).contains_key(k)
                        implies entries_map(after)[k] == entries_map(before).insert(
                            object_name@,
                            entity,
                        )[k] by {
                        let j = choose|j: int| 0 <= j < after.len() && #[trigger] after[j].0@ == k;
                        lemma_entry_value(after, j);
                        if j < before.len() {
                            lemma_entry_value(before, j);
                        }
                    }
                    assert(entries_map(after) =~= entries_map(before).insert(object_name@, entity));
                }
            },
        }
    }
    /// Forgets the node placed under `object_name`, if any.
    pub fn remove(&mut self, object_name: &str)
        requires
            old(self).wf(),
        ensures
            final(self).wf(),
            final(self)@ == old(self)@.remove(object_name@),
            final(self)@.dom().finite(),
            final(self)@.len() == old(self)@.len() - (if old(self)@.contains_key(object_name@) {
                1int
            } else {
                0int
            }),
    {
        let name = object_name.to_owned();
        let ghost before = self.entries@;
        match self.find(&name) {
            Some(i) => {
                let _gone = self.entries.remove(i);
                proof {
                    let after = self.entries@;
                    assert(after =~= before.remove(i as int));
                    assert forall|a: int, b: int|
                        0 <= a < after.len() && 0 <= b < after.len() && a != b implies
                        #[trigger] after[a].0@ != #[trigger] after[b].0@ by {
                        let a0 = if a < i { a } else { a + 1 };
                        let b0 = if b < i { b } else { b + 1 };
                        assert(after[a] == before[a0]);
                        assert(after[b] == before[b0]);
                    }
                    assert forall|k: Seq<char>| #[trigger]
                        entries_map(after).contains_key(k) == entries_map(before).remove(
                            object_name@,
                        ).contains_key(k) by {
                        if has_name(before, k) && k != object_name@ {
                            let j = choose|j: int| 0 <= j < before.len() && #[trigger] before[j].0@ == k;
                            if j < i {
                                assert(after[j].0@ == k);
                            } else {
                                assert(after[j - 1].0@ == k);
                            }
                        }
                        if has_name(after, k) {
                            let j = choose|j: int| 0 <= j < after.len() && #[trigger] after[j].0@ == k;
                            let j0 = if j < i { j } else { j + 1 };
                            assert(before[j0].0@ == k);
                        }
                    }
                    assert forall|k: Seq<char>| #[trigger] entries_map(after).contains_key(k)
                        implies entries_map(after)[k] == entries_map(before).remove(object_name@)[k] by {
                        let j = choose|j: int| 0 <= j < after.len() && #[trigger] after[j].0@ == k;
                        lemma_entry_value(after, j);
                        let j0 = if j < i { j } else { j + 1 };
                        lemma_entry_value(before, j0);
                    }
                    assert(entries_map(after) =~= entries_map(before).remove(object_name@));
                }
            },
            None => {
                assert(self@ =~= old(self)@.remove(object_name@));
            },
        }
    }
}

impl Default for MiloEntityMap {
    fn default() -> (r: Self)
        ensures
            r.wf(),
            r@ == Map::<Seq<char>, u64>::empty(),
            r@.dom().finite(),
    {
        MiloEntityMap::new()
    }
}

} // verus!
