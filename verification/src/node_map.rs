//! A finite map keyed by node names.
//!
//! Names are compared by their characters, so the map is modelled as a
//! `Map<Seq<char>, V>`.  Entries live in a vector in which no name occurs
//! twice.

use vstd::prelude::*;

use crate::data_models::NodeId;

verus! {

#[derive(Debug)]
struct Slot<V> {
    key: NodeId,
    value: V,
}

/// A finite map from node names to values of type `V`.
#[derive(Debug)]
pub struct NodeMap<V> {
    slots: Vec<Slot<V>>,
}

spec fn keys_differ<V>(slots: Seq<Slot<V>>) -> bool {
    forall|i: int, j: int| 0 <= i < j < slots.len() ==> slots[i].key@ != slots[j].key@
}

spec fn holds_key<V>(slots: Seq<Slot<V>>, key: Seq<char>) -> bool {
    exists|i: int| 0 <= i < slots.len() && slots[i].key@ == key
}

spec fn slot_of<V>(slots: Seq<Slot<V>>, key: Seq<char>) -> int {
    choose|i: int| 0 <= i < slots.len() && slots[i].key@ == key
}

spec fn as_map<V>(slots: Seq<Slot<V>>) -> Map<Seq<char>, V> {
    Map::new(|key: Seq<char>| holds_key(slots, key), |key: Seq<char>| slots[slot_of(slots, key)].value)
}

impl<V> View for NodeMap<V> {
    type V = Map<Seq<char>, V>;

    closed spec fn view(&self) -> Map<Seq<char>, V> {
        as_map(self.slots@)
    }
}

impl<V> NodeMap<V> {
    #[verifier::type_invariant]
    spec fn names_unique(self) -> bool {
        keys_differ(self.slots@)
    }

    /// The empty map.
    pub fn new() -> (map: Self)
        ensures
            map@ == Map::<Seq<char>, V>::empty(),
    {
        NodeMap { slots: Vec::new() }
    }

    /// The position of `key` among the entries, if it is present.
    fn position(&self, key: &NodeId) -> (found: Option<usize>)
        ensures
            match found {
                Some(i) => i < self.slots@.len() && self.slots@[i as int].key@ == key@,
                None => !holds_key(self.slots@, key@),
            },
    {
        let mut i: usize = 0;
        while i < self.slots.len()
            invariant
                i <= self.slots@.len(),
                forall|j: int| 0 <= j < i ==> self.slots@[j].key@ != key@,
            decreases self.slots@.len() - i,
        {
            if self.slots[i].key == *key {
                return Some(i);
            }
            i = i + 1;
        }
        None
    }

    /// Whether the map holds a value for `key`.
    pub fn contains_key(&self, key: &NodeId) -> (present: bool)
        ensures
            present == self@.contains_key(key@),
    {
        self.position(key).is_some()
    }

    /// The value held for `key`, if any.
    pub fn get(&self, key: &NodeId) -> (value: Option<&V>)
        ensures
            match value {
                Some(v) => self@.contains_key(key@) && *v == self@[key@],
                None => !self@.contains_key(key@),
            },
    {
        proof {
            use_type_invariant(self);
        }
        match self.position(key) {
            Some(i) => Some(&self.slots[i].value),
            None => None,
        }
    }

    /// Binds `key` to `value`, replacing any earlier binding of the same name.
    pub fn insert(&mut self, key: NodeId, value: V)
        ensures
            final(self)@ == old(self)@.insert(key@, value),
    {
        proof {
            use_type_invariant(&*self);
        }
        let ghost before = self.slots@;
        let found = self.position(&key);
        let mut slots: Vec<Slot<V>> = Vec::new();
        core::mem::swap(&mut self.slots, &mut slots);
        match found {
            Some(i) => {
                slots.set(i, Slot { key, value });
                proof {
                    let after = slots@;
                    assert forall|k: Seq<char>| holds_key(after, k) == (holds_key(before, k) || k == key@) by {
                        if holds_key(after, k) {
                            let j = slot_of(after, k);
                            assert(before[j].key@ == k);
                        }
                        if holds_key(before, k) {
                            let j = slot_of(before, k);
                            assert(after[j].key@ == k);
                        }
                        if k == key@ {
                            assert(after[i as int].key@ == k);
                        }
                    }
                }
            },
            None => {
                slots.push(Slot { key, value });
                proof {
                    let after = slots@;
                    let n = before.len() as int;
                    assert forall|k: Seq<char>| holds_key(after, k) == (holds_key(before, k) || k == key@) by {
                        if holds_key(after, k) {
                            let j = slot_of(after, k);
                            if j < n {
                                assert(before[j].key@ == k);
                            }
                        }
                        if holds_key(before, k) {
                            let j = slot_of(before, k);
                            assert(after[j].key@ == k);
                        }
                        if k == key@ {
                            assert(after[n].key@ == k);
                        }
                    }
                }
            },
        }
        self.slots = slots;
    }

    /// Takes the binding of `key` out of the map and hands its value back.
    pub fn remove(&mut self, key: &NodeId) -> (value: Option<V>)
        ensures
            final(self)@ == old(self)@.remove(key@),
            match value {
                Some(v) => old(self)@.contains_key(key@) && v == old(self)@[key@],
                None => !old(self)@.contains_key(key@),
            },
    {
        proof {
            use_type_invariant(&*self);
        }
        let ghost before = self.slots@;
        match self.position(key) {
            Some(i) => {
                let mut slots: Vec<Slot<V>> = Vec::new();
                core::mem::swap(&mut self.slots, &mut slots);
                let slot = slots.remove(i);
                proof {
                    let after = slots@;
                    assert forall|k: Seq<char>| holds_key(after, k) == (holds_key(before, k) && k
                        != key@) by {
                        if holds_key(after, k) {
                            let j = slot_of(after, k);
                            let j0 = if j < i { j } else { j + 1 };
                            assert(before[j0].key@ == k);
                            assert(before[j0].key@ != before[i as int].key@);
                        }
                        if holds_key(before, k) && k != key@ {
                            let j0 = slot_of(before, k);
                            let j = if j0 < i { j0 } else { j0 - 1 };
                            assert(after[j].key@ == k);
                        }
                    }
                }
                self.slots = slots;
                Some(slot.value)
            },
            None => None,
        }
    }

    /// The names the map has a binding for, each once.
    pub fn keys(&self) -> (names: Vec<NodeId>)
        ensures
            names.deep_view().no_duplicates(),
            forall|key: Seq<char>| names.deep_view().contains(key) <==> self@.contains_key(key),
    {
        proof {
            use_type_invariant(self);
        }
        let mut names: Vec<NodeId> = Vec::new();
        let mut i: usize = 0;
        while i < self.slots.len()
            invariant
                i <= self.slots@.len(),
                names@.len() == i,
                forall|j: int| 0 <= j < i ==> names@[j]@ == self.slots@[j].key@,
            decreases self.slots@.len() - i,
        {
            names.push(self.slots[i].key.clone());
            i = i + 1;
        }
        proof {
            let listed = names.deep_view();
            assert forall|key: Seq<char>| listed.contains(key) <==> self@.contains_key(key) by {
                if listed.contains(key) {
                    let j = choose|j: int| 0 <= j < listed.len() && listed[j] == key;
                    assert(self.slots@[j].key@ == key);
                }
                if self@.contains_key(key) {
                    let j = slot_of(self.slots@, key);
                    assert(listed[j] == key);
                }
            }
        }
        names
    }
}

} // verus!
