//! A table keyed by 32-byte identifiers. Lookups go through a concurrent hash
//! map from key to slot; the values live in a dense vector of slots.

use dashmap::DashMap;
use vstd::prelude::*;

verus! {

#[verifier::external_type_specification]
#[verifier::external_body]
#[verifier::reject_recursive_types(K)]
#[verifier::reject_recursive_types(V)]
#[verifier::reject_recursive_types(S)]
pub struct ExDashMap<K, V, S>(DashMap<K, V, S>);

/// The concurrent map from key to slot.
pub type SlotIndex = DashMap<[u8; 32], usize, std::collections::hash_map::RandomState>;

/// The entries that a slot index holds.
pub uninterp spec fn index_entries(index: SlotIndex) -> Map<Seq<u8>, usize>;

/// `DashMap::new`: the new map holds no entry.
#[verifier::external_body]
fn index_new() -> (created: SlotIndex)
    ensures
        forall|k: Seq<u8>| !index_entries(created).contains_key(k),
{
    DashMap::new()
}

/// `DashMap::get`, with the value copied out of the guard: the slot stored
/// under the key, if the key is present.
#[verifier::external_body]
fn index_get(index: &SlotIndex, key: &[u8; 32]) -> (slot: Option<usize>)
    ensures
        slot == if index_entries(*index).contains_key(key@) {
            Some(index_entries(*index)[key@])
        } else {
            None
        },
{
    index.get(key).map(|entry| *entry.value())
}

/// `DashMap::insert`: afterwards the key maps to the slot and every other
/// entry is as before.
#[verifier::external_body]
fn index_insert(index: &mut SlotIndex, key: [u8; 32], slot: usize)
    ensures
        index_entries(*final(index)) == index_entries(*old(index)).insert(key@, slot),
{
    index.insert(key, slot);
}

/// `DashMap::remove`: afterwards the key is absent and every other entry is
/// as before.
#[verifier::external_body]
fn index_remove(index: &mut SlotIndex, key: &[u8; 32])
    ensures
        index_entries(*final(index)) == index_entries(*old(index)).remove(key@),
{
    index.remove(key);
}

/// A map from 32-byte keys to values of type `V`.
pub struct Table<V> {
    index: SlotIndex,
    keys: Vec<[u8; 32]>,
    values: Vec<V>,
}

impl<V> View for Table<V> {
    type V = Map<Seq<u8>, V>;

    closed spec fn view(&self) -> Map<Seq<u8>, V> {
        Map::new(
            |k: Seq<u8>| index_entries(self.index).contains_key(k),
            |k: Seq<u8>| self.values@[index_entries(self.index)[k] as int],
        )
    }
}

impl<V> Table<V> {
    /// The index and the slots agree: every key's slot holds that key, and
    /// every slot is some key's.
    pub closed spec fn wf(&self) -> bool {
        &&& self.keys@.len() == self.values@.len()
        &&& forall|i: int|
            0 <= i < self.keys@.len() ==> index_entries(self.index).contains_key(
                #[trigger] self.keys@[i]@,
            ) && index_entries(self.index)[self.keys@[i]@] == i
        &&& forall|k: Seq<u8>| #[trigger]
            index_entries(self.index).contains_key(k) ==> index_entries(self.index)[k]
                < self.keys@.len() && self.keys@[index_entries(self.index)[k] as int]@ == k
        &&& self@.dom().finite()
        &&& self@.dom().len() == self.keys@.len()
    }

    /// The number of slots in use.
    pub closed spec fn slots(&self) -> nat {
        self.keys@.len()
    }

    /// The key stored in a slot.
    pub closed spec fn slot_key(&self, i: int) -> Seq<u8> {
        self.keys@[i]@
    }

    /// The value stored in a slot.
    pub closed spec fn slot_value(&self, i: int) -> V {
        self.values@[i]
    }

    /// Slots and entries correspond one to one.
    pub proof fn lemma_slots(&self)
        requires
            self.wf(),
        ensures
            self@.dom().finite(),
            self@.dom().len() == self.slots(),
            forall|i: int|
                0 <= i < self.slots() ==> self@.contains_key(#[trigger] self.slot_key(i))
                    && self@[self.slot_key(i)] == self.slot_value(i),
            forall|i: int, j: int|
                0 <= i < self.slots() && 0 <= j < self.slots() && self.slot_key(i)
                    == self.slot_key(j) ==> i == j,
            forall|k: Seq<u8>| #[trigger]
                self@.contains_key(k) ==> exists|i: int|
                    0 <= i < self.slots() && self.slot_key(i) == k,
    {
        assert forall|k: Seq<u8>| #[trigger] self@.contains_key(k) implies exists|i: int|
            0 <= i < self.slots() && self.slot_key(i) == k by {
            let i = index_entries(self.index)[k] as int;
            assert(self.slot_key(i) == k);
        }
    }

    pub fn new() -> (table: Self)
        ensures
            table.wf(),
            table.slots() == 0,
            forall|k: Seq<u8>| !table@.contains_key(k),
    {
        let table = Table { index: index_new(), keys: Vec::new(), values: Vec::new() };
        assert(table@.dom() =~= Set::empty());
        table
    }

    pub fn len(&self) -> (n: usize)
        requires
            self.wf(),
        ensures
            n == self@.dom().len(),
            n == self.slots(),
    {
        self.keys.len()
    }

    pub fn is_empty(&self) -> (empty: bool)
        requires
            self.wf(),
        ensures
            empty <==> forall|k: Seq<u8>| !self@.contains_key(k),
    {
        let empty = self.keys.len() == 0;
        proof {
            if empty {
                assert forall|k: Seq<u8>| !self@.contains_key(k) by {
                    if self@.contains_key(k) {
                        assert(index_entries(self.index)[k] < 0);
                    }
                }
            } else {
                assert(self@.contains_key(self.keys@[0]@));
            }
        }
        empty
    }

    /// The slot of a key, if the key is present.
    pub fn position(&self, key: &[u8; 32]) -> (slot: Option<usize>)
        requires
            self.wf(),
        ensures
            slot.is_some() == self@.contains_key(key@),
            slot matches Some(i) ==> i < self.slots() && self.slot_key(i as int) == key@
                && self.slot_value(i as int) == self@[key@],
    {
        index_get(&self.index, key)
    }

    pub fn contains_key(&self, key: &[u8; 32]) -> (present: bool)
        requires
            self.wf(),
        ensures
            present == self@.contains_key(key@),
    {
        index_get(&self.index, key).is_some()
    }

    pub fn get(&self, key: &[u8; 32]) -> (value: Option<&V>)
        requires
            self.wf(),
        ensures
            value == if self@.contains_key(key@) {
                Some(&self@[key@])
            } else {
                None
            },
    {
        match index_get(&self.index, key) {
            Some(i) => Some(&self.values[i]),
            None => None,
        }
    }

    /// Stores a value under a key and returns the value it replaces. A new key
    /// takes the next free slot; a known key keeps its slot.
    pub fn insert(&mut self, key: [u8; 32], value: V) -> (previous: Option<V>)
        requires
            old(self).wf(),
        ensures
            final(self).wf(),
            final(self)@ == old(self)@.insert(key@, value),
            previous == if old(self)@.contains_key(key@) {
                Some(old(self)@[key@])
            } else {
                None
            },
            !old(self)@.contains_key(key@) ==> final(self).slots() == old(self).slots() + 1
                && final(self).slot_key(old(self).slots() as int) == key@,
            old(self)@.contains_key(key@) ==> final(self).slots() == old(self).slots(),
            forall|i: int|
                0 <= i < old(self).slots() ==> #[trigger] final(self).slot_key(i) == old(
                    self,
                ).slot_key(i),
    {
        match index_get(&self.index, &key) {
            Some(i) => {
                self.values.push(value);
                let previous = self.values.swap_remove(i);
                assert(self@ =~= old(self)@.insert(key@, value));
                assert(self@.dom() =~= old(self)@.dom());
                Some(previous)
            },
            None => {
                let slot = self.keys.len();
                self.keys.push(key);
                self.values.push(value);
                index_insert(&mut self.index, key, slot);
                assert(self@ =~= old(self)@.insert(key@, value));
                None
            },
        }
    }

    /// Removes a key and returns its value. The last slot's entry moves into
    /// the slot that is freed.
    pub fn remove(&mut self, key: &[u8; 32]) -> (removed: Option<V>)
        requires
            old(self).wf(),
        ensures
            final(self).wf(),
            final(self)@ == old(self)@.remove(key@),
            removed == if old(self)@.contains_key(key@) {
                Some(old(self)@[key@])
            } else {
                None
            },
            final(self).slots() == if old(self)@.contains_key(key@) {
                old(self).slots() - 1
            } else {
                old(self).slots() as int
            },
    {
        match index_get(&self.index, key) {
            Some(i) => {
                let last = self.keys.len() - 1;
                let removed = self.values.swap_remove(i);
                let _ = self.keys.swap_remove(i);
                index_remove(&mut self.index, key);
                if i != last {
                    let moved = self.keys[i];
                    index_insert(&mut self.index, moved, i);
                }
                assert(self@ =~= old(self)@.remove(key@));
                Some(removed)
            },
            None => {
                assert(self@ =~= old(self)@.remove(key@));
                None
            },
        }
    }

    /// Mutable access to the value in a slot.
    pub fn value_mut(&mut self, i: usize) -> (value: &mut V)
        requires
            old(self).wf(),
            i < old(self).slots(),
        ensures
            *value == old(self).slot_value(i as int),
            final(self).wf(),
            final(self)@ == old(self)@.insert(old(self).slot_key(i as int), *final(value)),
            final(self).slots() == old(self).slots(),
            forall|j: int|
                0 <= j < old(self).slots() ==> #[trigger] final(self).slot_key(j) == old(
                    self,
                ).slot_key(j),
    {
        &mut self.values[i]
    }

    /// The key in a slot.
    pub fn key_at(&self, i: usize) -> (key: &[u8; 32])
        requires
            self.wf(),
            i < self.slots(),
        ensures
            key@ == self.slot_key(i as int),
    {
        &self.keys[i]
    }

    /// The value in a slot.
    pub fn value_at(&self, i: usize) -> (value: &V)
        requires
            self.wf(),
            i < self.slots(),
        ensures
            *value == self.slot_value(i as int),
    {
        &self.values[i]
    }
}

} // verus!
