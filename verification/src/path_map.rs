//! A map from access paths to values that keeps its entries in the order of
//! the paths.

use crate::access_path::{
    lemma_path_irreflexive, lemma_path_transitive, path_lt, AccessPath, PathKey,
};
use crate::bytes::ByteOrder;
use vstd::prelude::*;

verus! {

/// One entry of a map: a path and what is kept under it.
pub struct Slot<V> {
    pub key: AccessPath,
    pub value: V,
}

/// The entries stand in the strict order of their paths, so no path occurs
/// twice.
pub open spec fn slots_sorted<V>(s: Seq<Slot<V>>) -> bool {
    forall|i: int, j: int|
        0 <= i < j < s.len() ==> path_lt((#[trigger] s[i]).key@, (#[trigger] s[j]).key@)
}

/// Some entry is kept under the path `k`.
pub open spec fn slots_contain<V>(s: Seq<Slot<V>>, k: PathKey) -> bool {
    exists|i: int| 0 <= i < s.len() && (#[trigger] s[i]).key@ == k
}

/// The index of an entry that is kept under the path `k`.
pub open spec fn slot_index<V>(s: Seq<Slot<V>>, k: PathKey) -> int {
    choose|i: int| 0 <= i < s.len() && (#[trigger] s[i]).key@ == k
}

/// The entries as a map from paths to values.
pub open spec fn slots_map<V>(s: Seq<Slot<V>>) -> Map<PathKey, V> {
    Map::new(|k: PathKey| slots_contain(s, k), |k: PathKey| s[slot_index(s, k)].value)
}

/// In sorted entries the entry at index `i` is the one that the map holds
/// under that entry's path.
pub proof fn lemma_slot_lookup<V>(s: Seq<Slot<V>>, i: int)
    requires
        slots_sorted(s),
        0 <= i < s.len(),
    ensures
        slots_contain(s, s[i].key@),
        slot_index(s, s[i].key@) == i,
        slots_map(s).contains_key(s[i].key@),
        slots_map(s)[s[i].key@] == s[i].value,
{
    let k = s[i].key@;
    let c = slot_index(s, k);
    lemma_path_irreflexive(k);
    if c < i {
        assert(path_lt(s[c].key@, s[i].key@));
    } else if i < c {
        assert(path_lt(s[i].key@, s[c].key@));
    }
}

/// Putting an entry where its path belongs keeps the entries sorted and
/// adds the entry to the map.
pub proof fn lemma_slots_insert<V>(s: Seq<Slot<V>>, p: int, slot: Slot<V>)
    requires
        slots_sorted(s),
        0 <= p <= s.len(),
        forall|i: int| 0 <= i < p ==> path_lt((#[trigger] s[i]).key@, slot.key@),
        forall|i: int| p <= i < s.len() ==> path_lt(slot.key@, (#[trigger] s[i]).key@),
    ensures
        slots_sorted(s.insert(p, slot)),
        slots_map(s.insert(p, slot)) == slots_map(s).insert(slot.key@, slot.value),
{
    let t = s.insert(p, slot);
    assert forall|i: int, j: int| 0 <= i < j < t.len() implies path_lt(
        (#[trigger] t[i]).key@,
        (#[trigger] t[j]).key@,
    ) by {
        let si = if i < p { i } else { i - 1 };
        let sj = if j < p { j } else { j - 1 };
        if i != p && j != p {
            assert(path_lt(s[si].key@, s[sj].key@));
        } else if i == p {
            assert(path_lt(slot.key@, s[sj].key@));
        } else {
            assert(path_lt(s[si].key@, slot.key@));
        }
    }
    let m = slots_map(s).insert(slot.key@, slot.value);
    assert forall|k: PathKey| slots_map(t).contains_key(k) == m.contains_key(k) by {
        if slots_contain(t, k) {
            let j = slot_index(t, k);
            if j < p {
                assert(s[j].key@ == k);
            } else if j > p {
                assert(s[j - 1].key@ == k);
            }
        }
        if slots_contain(s, k) {
            let i = slot_index(s, k);
            let j = if i < p { i } else { i + 1 };
            assert(t[j].key@ == k);
        }
        if k == slot.key@ {
            assert(t[p].key@ == k);
        }
    }
    assert forall|k: PathKey| slots_map(t).contains_key(k) implies slots_map(t)[k] == m[k] by {
        let j = slot_index(t, k);
        lemma_slot_lookup(t, j);
        if j < p {
            lemma_slot_lookup(s, j);
            lemma_path_irreflexive(k);
        } else if j > p {
            lemma_slot_lookup(s, j - 1);
            lemma_path_irreflexive(k);
        }
    }
    assert(slots_map(t) =~= m);
}

/// Putting a new value under a path that is there keeps the entries
/// sorted and changes the map at that path only.
pub proof fn lemma_slots_replace<V>(s: Seq<Slot<V>>, p: int, slot: Slot<V>)
    requires
        slots_sorted(s),
        0 <= p < s.len(),
        s[p].key@ == slot.key@,
    ensures
        slots_sorted(s.update(p, slot)),
        slots_map(s.update(p, slot)) == slots_map(s).insert(slot.key@, slot.value),
{
    let t = s.update(p, slot);
    assert(t.len() == s.len());
    assert forall|i: int, j: int| 0 <= i < j < t.len() implies path_lt(
        (#[trigger] t[i]).key@,
        (#[trigger] t[j]).key@,
    ) by {
        assert(path_lt(s[i].key@, s[j].key@));
    }
    let m = slots_map(s).insert(slot.key@, slot.value);
    assert forall|k: PathKey| slots_map(t).contains_key(k) == m.contains_key(k) by {
        if slots_contain(t, k) {
            let j = slot_index(t, k);
            assert(s[j].key@ == k);
        }
        if slots_contain(s, k) {
            let i = slot_index(s, k);
            assert(t[i].key@ == k);
        }
        if k == slot.key@ {
            assert(t[p].key@ == k);
        }
    }
    assert forall|k: PathKey| slots_map(t).contains_key(k) implies slots_map(t)[k] == m[k] by {
        let j = slot_index(t, k);
        lemma_slot_lookup(t, j);
        lemma_slot_lookup(s, j);
        lemma_path_irreflexive(k);
        if j < p {
            assert(path_lt(s[j].key@, s[p].key@));
        } else if p < j {
            assert(path_lt(s[p].key@, s[j].key@));
        }
    }
    assert(slots_map(t) =~= m);
}

/// Taking an entry out keeps the entries sorted and removes its path from
/// the map.
pub proof fn lemma_slots_remove<V>(s: Seq<Slot<V>>, p: int)
    requires
        slots_sorted(s),
        0 <= p < s.len(),
    ensures
        slots_sorted(s.remove(p)),
        slots_map(s.remove(p)) == slots_map(s).remove(s[p].key@),
{
    let t = s.remove(p);
    assert(t.len() == s.len() - 1);
    assert forall|i: int, j: int| 0 <= i < j < t.len() implies path_lt(
        (#[trigger] t[i]).key@,
        (#[trigger] t[j]).key@,
    ) by {
        let si = if i < p { i } else { i + 1 };
        let sj = if j < p { j } else { j + 1 };
        assert(path_lt(s[si].key@, s[sj].key@));
    }
    let gone = s[p].key@;
    let m = slots_map(s).remove(gone);
    assert forall|k: PathKey| slots_map(t).contains_key(k) == m.contains_key(k) by {
        if slots_contain(t, k) {
            let j = slot_index(t, k);
            let sj = if j < p { j } else { j + 1 };
            assert(s[sj].key@ == k);
            lemma_slot_lookup(s, sj);
            lemma_slot_lookup(s, p);
        }
        if slots_contain(s, k) && k != gone {
            let i = slot_index(s, k);
            let j = if i < p { i } else { i - 1 };
            assert(t[j].key@ == k);
        }
    }
    assert forall|k: PathKey| slots_map(t).contains_key(k) implies slots_map(t)[k] == m[k] by {
        let j = slot_index(t, k);
        lemma_slot_lookup(t, j);
        let sj = if j < p { j } else { j + 1 };
        lemma_slot_lookup(s, sj);
        lemma_path_irreflexive(k);
        if sj < p {
            assert(path_lt(s[sj].key@, s[p].key@));
        } else {
            assert(path_lt(s[p].key@, s[sj].key@));
        }
    }
    assert(slots_map(t) =~= m);
}

/// A map from access paths to values, kept as a list of entries in the
/// strict order of their paths.
pub struct PathMap<V> {
    slots: Vec<Slot<V>>,
}

impl<V> View for PathMap<V> {
    type V = Map<PathKey, V>;

    open spec fn view(&self) -> Map<PathKey, V> {
        slots_map(self.entries())
    }
}

impl<V> PathMap<V> {
    /// The entries, in the order of their paths.
    pub closed spec fn entries(&self) -> Seq<Slot<V>> {
        self.slots@
    }

    /// The entries are sorted. `new` makes such a map and every method
    /// keeps it so.
    pub open spec fn wf(&self) -> bool {
        slots_sorted(self.entries())
    }

    /// The map without entries.
    pub fn new() -> (m: Self)
        ensures
            m.entries() == Seq::<Slot<V>>::empty(),
            m@ == Map::<PathKey, V>::empty(),
            m.wf(),
    {
        let m = PathMap { slots: Vec::new() };
        assert(m@ =~= Map::<PathKey, V>::empty());
        m
    }

    /// The number of entries.
    pub fn len(&self) -> (n: usize)
        ensures
            n == self.entries().len(),
    {
        self.slots.len()
    }

    /// Where the path `key` is or would be among the entries: the index,
    /// and whether an entry is kept under the path there.
    pub fn position(&self, key: &AccessPath) -> (r: (usize, bool))
        requires
            self.wf(),
        ensures
            r.0 <= self.entries().len(),
            r.1 == self@.contains_key(key@),
            r.1 ==> r.0 < self.entries().len() && self.entries()[r.0 as int].key@ == key@
                && self@[key@] == self.entries()[r.0 as int].value,
            forall|i: int| 0 <= i < r.0 ==> path_lt((#[trigger] self.entries()[i]).key@, key@),
            forall|i: int|
                r.0 + (if r.1 { 1int } else { 0int }) <= i < self.entries().len() ==> path_lt(
                    key@,
                    (#[trigger] self.entries()[i]).key@,
                ),
    {
        let mut i: usize = 0;
        while i < self.slots.len()
            invariant
                i <= self.slots.len(),
                slots_sorted(self.slots@),
                forall|j: int| 0 <= j < i ==> path_lt((#[trigger] self.slots@[j]).key@, key@),
            decreases self.slots.len() - i,
        {
            match self.slots[i].key.compare(key) {
                ByteOrder::Less => {},
                ByteOrder::Equal => {
                    proof {
                        lemma_slot_lookup(self.slots@, i as int);
                        assert forall|j: int| i + 1 <= j < self.slots@.len() implies path_lt(
                            key@,
                            (#[trigger] self.slots@[j]).key@,
                        ) by {
                            assert(path_lt(self.slots@[i as int].key@, self.slots@[j].key@));
                        }
                    }
                    return (i, true);
                },
                ByteOrder::Greater => {
                    proof {
                        assert forall|j: int| i <= j < self.slots@.len() implies path_lt(
                            key@,
                            (#[trigger] self.slots@[j]).key@,
                        ) by {
                            if i < j {
                                assert(path_lt(self.slots@[i as int].key@, self.slots@[j].key@));
                                lemma_path_transitive(
                                    key@,
                                    self.slots@[i as int].key@,
                                    self.slots@[j].key@,
                                );
                            }
                        }
                        if slots_contain(self.slots@, key@) {
                            let c = slot_index(self.slots@, key@);
                            lemma_path_irreflexive(key@);
                            assert(path_lt(self.slots@[c].key@, key@) || path_lt(
                                key@,
                                self.slots@[c].key@,
                            ));
                        }
                    }
                    return (i, false);
                },
            }
            i += 1;
        }
        proof {
            if slots_contain(self.slots@, key@) {
                let c = slot_index(self.slots@, key@);
                lemma_path_irreflexive(key@);
                assert(path_lt(self.slots@[c].key@, key@));
            }
        }
        (i, false)
    }

    /// Whether an entry is kept under the path.
    pub fn contains_key(&self, key: &AccessPath) -> (r: bool)
        requires
            self.wf(),
        ensures
            r == self@.contains_key(key@),
    {
        self.position(key).1
    }

    /// What is kept under the path, if anything.
    pub fn get(&self, key: &AccessPath) -> (r: Option<&V>)
        requires
            self.wf(),
        ensures
            r is Some <==> self@.contains_key(key@),
            r matches Some(v) ==> *v == self@[key@],
    {
        let (i, found) = self.position(key);
        if found {
            Some(&self.slots[i].value)
        } else {
            None
        }
    }

    /// Keeps `value` under the path `key`, in place of what was kept there.
    pub fn insert(&mut self, key: AccessPath, value: V)
        requires
            old(self).wf(),
        ensures
            final(self)@ == old(self)@.insert(key@, value),
            final(self).wf(),
    {
        let (i, found) = self.position(&key);
        let slot = Slot { key, value };
        if found {
            proof {
                lemma_slots_replace(self.slots@, i as int, slot);
            }
            self.slots.set(i, slot);
        } else {
            proof {
                lemma_slots_insert(self.slots@, i as int, slot);
            }
            self.slots.insert(i, slot);
        }
    }

    /// Takes out what is kept under the path `key`, if anything.
    pub fn remove(&mut self, key: &AccessPath) -> (r: Option<V>)
        requires
            old(self).wf(),
        ensures
            final(self)@ == old(self)@.remove(key@),
            r is Some <==> old(self)@.contains_key(key@),
            r matches Some(v) ==> v == old(self)@[key@],
            final(self).wf(),
    {
        let (i, found) = self.position(key);
        if found {
            proof {
                lemma_slots_remove(self.slots@, i as int);
            }
            let slot = self.slots.remove(i);
            Some(slot.value)
        } else {
            assert(self@ =~= self@.remove(key@));
            None
        }
    }

    /// Takes out what is kept under the path `key`, which is there.
    pub fn take(&mut self, key: &AccessPath) -> (v: V)
        requires
            old(self).wf(),
            old(self)@.contains_key(key@),
        ensures
            final(self)@ == old(self)@.remove(key@),
            v == old(self)@[key@],
            final(self).wf(),
    {
        let (i, found) = self.position(key);
        proof {
            lemma_slots_remove(self.slots@, i as int);
        }
        let slot = self.slots.remove(i);
        slot.value
    }

    /// Takes out every entry.
    pub fn clear(&mut self)
        ensures
            final(self)@ == Map::<PathKey, V>::empty(),
            final(self).entries() == Seq::<Slot<V>>::empty(),
            final(self).wf(),
    {
        self.slots.clear();
        assert(self@ =~= Map::<PathKey, V>::empty());
    }

    /// Hands out the entries, in the order of their paths.
    pub fn into_slots(self) -> (slots: Vec<Slot<V>>)
        ensures
            slots@ == self.entries(),
    {
        self.slots
    }
}

} // verus!
