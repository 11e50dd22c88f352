//! The value store of the hash table.

use crate::crypto::{ed25519_key_valid, ed25519_verifies, sha256, sha256_digest};
use crate::dht_node::proto::{
    bytes_eq, deserialize_overlay_nodes, node_to_sign, nodes_encoding, nodes_of,
    overlay_views, serialize_node_to_sign, serialize_overlay_nodes, DhtKeyView, DhtValue,
    DhtValueView, OverlayNode, OverlayNodeView, PublicKey, PublicKeyView, PUB_OVERLAY_ID,
};
use crate::node_id::{bytes32_eq, short_id_of, AdnlNodeIdFull};
use crate::dht_node::node_list::NodeList;
use crate::table::Table;
use crate::tl::{bytes_encoding, u32_le, write_bytes, write_u32, MAX_BYTES_LEN};
use vstd::prelude::*;
use vstd::set::fold::{is_fun_commutative, lemma_fold_empty, lemma_fold_insert};

verus! {

/// The key under which a value is stored.
pub type StorageKey = [u8; 32];

/// Why a value was not stored.
#[derive(Debug, Copy, Clone, PartialEq, Eq, Structural)]
pub enum StorageError {
    /// A list of overlay nodes is signed, which it may not be.
    InvalidSignatureValue,
    /// The value's key does not belong to an overlay.
    InvalidKeyDescription,
    /// The value's key is not the key of the overlay's nodes.
    InvalidDhtKey,
    /// None of the overlay nodes is valid.
    EmptyOverlayNodes,
    /// The owner's key is no valid Ed25519 key.
    UnsupportedPublicKey,
    /// A signature is not the owner's.
    InvalidSignature,
    /// The value cannot be encoded or decoded.
    InvalidValue,
}

/// The sum of the lengths of the values in the slots below `until`.
pub open spec fn size_until(storage: Table<DhtValue>, until: int) -> nat
    decreases until,
{
    if until <= 0 {
        0
    } else {
        size_until(storage, until - 1) + storage.slot_value(until - 1).value@.len()
    }
}

/// Adds the length of the value under a key to a sum.
pub open spec fn adding_len(values: Map<Seq<u8>, DhtValueView>) -> spec_fn(nat, Seq<u8>) -> nat {
    |sum: nat, k: Seq<u8>| sum + values[k].value.len()
}

/// The sum of the lengths of the values under the given keys.
pub open spec fn len_over(values: Map<Seq<u8>, DhtValueView>, keys: Set<Seq<u8>>) -> nat {
    keys.fold(0nat, adding_len(values))
}

/// The sum of the lengths of all values of a store.
pub open spec fn total_len(values: Map<Seq<u8>, DhtValueView>) -> nat {
    len_over(values, values.dom())
}

/// A store without values holds no bytes.
pub proof fn lemma_total_len_empty(values: Map<Seq<u8>, DhtValueView>)
    requires
        forall|k: Seq<u8>| !values.contains_key(k),
    ensures
        total_len(values) == 0,
{
    assert(values.dom() =~= Set::empty());
    lemma_fold_empty(0nat, adding_len(values));
}

/// One more key adds the length of its value to the sum.
pub proof fn lemma_len_over_insert(
    values: Map<Seq<u8>, DhtValueView>,
    keys: Set<Seq<u8>>,
    key: Seq<u8>,
)
    requires
        keys.finite(),
        !keys.contains(key),
    ensures
        len_over(values, keys.insert(key)) == len_over(values, keys) + values[key].value.len(),
{
    let f = adding_len(values);
    assert(is_fun_commutative(f)) by {
        assert forall|a1: Seq<u8>, a2: Seq<u8>, b: nat| #[trigger] f(f(b, a2), a1) == f(f(b, a1), a2) by {}
    }
    lemma_fold_insert(keys, 0nat, f, key);
}

/// The keys in the slots below `until`.
spec fn keys_until(storage: Table<DhtValue>, until: int) -> Set<Seq<u8>> {
    Set::new(|k: Seq<u8>| exists|i: int| 0 <= i < until && storage.slot_key(i) == k)
}

/// The sum over the slots below `until` is the sum over their keys.
proof fn lemma_size_until(
    storage: Table<DhtValue>,
    values: Map<Seq<u8>, DhtValueView>,
    until: int,
)
    requires
        storage.wf(),
        0 <= until <= storage.slots(),
        forall|k: Seq<u8>| storage@.contains_key(k) ==> #[trigger] values[k] == storage@[k]@,
    ensures
        keys_until(storage, until).finite(),
        size_until(storage, until) == len_over(values, keys_until(storage, until)),
    decreases until,
{
    storage.lemma_slots();
    if until == 0 {
        assert(keys_until(storage, 0) =~= Set::empty());
        lemma_fold_empty(0nat, adding_len(values));
    } else {
        lemma_size_until(storage, values, until - 1);
        let before = keys_until(storage, until - 1);
        let key = storage.slot_key(until - 1);
        assert(!before.contains(key));
        assert(keys_until(storage, until) =~= before.insert(key));
        lemma_len_over_insert(values, before, key);
        assert(storage@.contains_key(key));
        assert(values[key] == storage.slot_value(until - 1)@);
    }
}

/// Whether a signature of 64 bytes is accepted for a message under a key.
pub open spec fn signature_holds(key: Seq<u8>, message: Seq<u8>, signature: Seq<u8>) -> bool {
    signature.len() == 64 && ed25519_verifies(key, message, signature)
}

/// Whether a signed value may be stored: it can be encoded, its owner's key
/// is a valid Ed25519 key, and the owner has signed the key description and
/// the value, each without its signature.
pub open spec fn signed_value_verdict(value: DhtValueView) -> Result<(), StorageError> {
    if !value.wf() {
        Err(StorageError::InvalidValue)
    } else {
        match value.key.id {
            PublicKeyView::Ed25519 { key } => if !ed25519_key_valid(key) {
                Err(StorageError::UnsupportedPublicKey)
            } else if !signature_holds(
                key,
                value.key.unsigned().encoding(),
                value.key.signature,
            ) {
                Err(StorageError::InvalidSignature)
            } else if !signature_holds(key, value.unsigned().encoding(), value.signature) {
                Err(StorageError::InvalidSignature)
            } else {
                Ok(())
            },
            _ => Err(StorageError::UnsupportedPublicKey),
        }
    }
}

/// The name of the key under which the nodes of an overlay are kept.
pub open spec fn nodes_key_name() -> Seq<u8> {
    seq![110u8, 111u8, 100u8, 101u8, 115u8]
}

/// The short id of an overlay: the hash of its name, tagged as an overlay's
/// key.
pub open spec fn overlay_id_of(name: Seq<u8>) -> Seq<u8> {
    sha256(u32_le(PUB_OVERLAY_ID) + bytes_encoding(name))@
}

/// Whether an overlay node is valid for an overlay: it belongs to the
/// overlay, its key is a valid Ed25519 key, and its owner has signed its
/// short id, the overlay and its version.
pub open spec fn node_verified(overlay_id: Seq<u8>, node: OverlayNodeView) -> bool {
    &&& node.overlay == overlay_id
    &&& node.id matches PublicKeyView::Ed25519 { key }
    &&& ed25519_key_valid(key)
    &&& signature_holds(
        key,
        node_to_sign(short_id_of(key), node.overlay, node.version),
        node.signature,
    )
}

/// The nodes of a list that are valid for an overlay, in their order.
pub open spec fn verified_nodes(overlay_id: Seq<u8>, nodes: Seq<OverlayNodeView>) -> Seq<
    OverlayNodeView,
>
    decreases nodes.len(),
{
    if nodes.len() == 0 {
        Seq::empty()
    } else if node_verified(overlay_id, nodes.last()) {
        verified_nodes(overlay_id, nodes.drop_last()).push(nodes.last())
    } else {
        verified_nodes(overlay_id, nodes.drop_last())
    }
}

/// The place of the first node with a key in a list, or the length of the
/// list.
pub open spec fn place_of(list: Seq<OverlayNodeView>, id: PublicKeyView) -> int
    decreases list.len(),
{
    if list.len() == 0 {
        0
    } else if list[0].id == id {
        0
    } else {
        1 + place_of(list.skip(1), id)
    }
}

/// A list after a node was entered. A node with a new key goes to the end.
/// A node with a known key takes the place of the first node with that key:
/// always where `always` is set, else only where it has a higher version.
pub open spec fn upsert(list: Seq<OverlayNodeView>, node: OverlayNodeView, always: bool) -> Seq<
    OverlayNodeView,
> {
    let at = place_of(list, node.id);
    if at >= list.len() {
        list.push(node)
    } else if always || list[at].version < node.version {
        list.update(at, node)
    } else {
        list
    }
}

/// A list after nodes were entered one after the other.
pub open spec fn upsert_all(
    list: Seq<OverlayNodeView>,
    nodes: Seq<OverlayNodeView>,
    always: bool,
) -> Seq<OverlayNodeView>
    decreases nodes.len(),
{
    if nodes.len() == 0 {
        list
    } else {
        upsert(upsert_all(list, nodes.drop_last(), always), nodes.last(), always)
    }
}

/// The nodes kept for an overlay once new nodes have arrived: the old nodes,
/// of which the last with a key counts, and the new nodes, which replace
/// nodes of a lower version.
pub open spec fn merged_nodes(old: Seq<OverlayNodeView>, new: Seq<OverlayNodeView>) -> Seq<
    OverlayNodeView,
> {
    upsert_all(upsert_all(Seq::empty(), old, true), new, false)
}

/// What an offered list of overlay nodes leads to, where `stored` is the
/// value kept under the key so far: the value to store, or nothing where
/// the value kept lives longer than the one offered.
pub open spec fn overlay_nodes_outcome(stored: Option<DhtValueView>, value: DhtValueView, now: u32) -> Result<
    Option<DhtValueView>,
    StorageError,
> {
    if value.signature.len() != 0 || value.key.signature.len() != 0 {
        Err(StorageError::InvalidSignatureValue)
    } else {
        match value.key.id {
            PublicKeyView::Overlay { name } => if name.len() > MAX_BYTES_LEN {
                Err(StorageError::InvalidKeyDescription)
            } else if value.key.key != (DhtKeyView {
                id: overlay_id_of(name),
                name: nodes_key_name(),
                idx: 0,
            }) {
                Err(StorageError::InvalidDhtKey)
            } else {
                match nodes_of(value.value) {
                    None => Err(StorageError::InvalidValue),
                    Some(offered) => {
                        let new = verified_nodes(overlay_id_of(name), offered);
                        if new.len() == 0 {
                            Err(StorageError::EmptyOverlayNodes)
                        } else {
                            match stored {
                                Some(old) if old.ttl >= now => if old.ttl > value.ttl {
                                    Ok(None)
                                } else {
                                    match nodes_of(old.value) {
                                        None => Err(StorageError::InvalidValue),
                                        Some(known) => stored_nodes(value, merged_nodes(known, new)),
                                    }
                                },
                                _ => stored_nodes(value, merged_nodes(Seq::empty(), new)),
                            }
                        }
                    },
                }
            },
            _ => Err(StorageError::InvalidKeyDescription),
        }
    }
}

/// The value that holds a list of overlay nodes in place of the list that
/// was offered.
pub open spec fn stored_nodes(value: DhtValueView, nodes: Seq<OverlayNodeView>) -> Result<
    Option<DhtValueView>,
    StorageError,
> {
    if nodes.len() > u32::MAX {
        Err(StorageError::InvalidValue)
    } else {
        Ok(Some(DhtValueView { value: nodes_encoding(nodes), ..value }))
    }
}

/// Finds the first node with a key.
fn find_node(list: &Vec<OverlayNode>, id: &PublicKey) -> (at: usize)
    ensures
        at == place_of(overlay_views(list@), id@),
        at <= list@.len(),
{
    let mut i: usize = 0;
    assert(overlay_views(list@).skip(0) =~= overlay_views(list@));
    while i < list.len()
        invariant
            i <= list@.len(),
            place_of(overlay_views(list@), id@) == i + place_of(
                overlay_views(list@).skip(i as int),
                id@,
            ),
        decreases list@.len() - i,
    {
        let ghost rest = overlay_views(list@).skip(i as int);
        assert(rest[0] == list@[i as int]@);
        assert(rest.skip(1) =~= overlay_views(list@).skip(i + 1));
        if list[i].id.same(id) {
            return i;
        }
        i += 1;
    }
    i
}

/// Enters a node into a list.
fn upsert_node(list: &mut Vec<OverlayNode>, node: OverlayNode, always: bool)
    requires
        forall|i: int| 0 <= i < old(list)@.len() ==> (#[trigger] old(list)@[i]).encodable(),
        node.encodable(),
    ensures
        overlay_views(final(list)@) == upsert(overlay_views(old(list)@), node@, always),
        forall|i: int| 0 <= i < final(list)@.len() ==> (#[trigger] final(list)@[i]).encodable(),
{
    let at = find_node(list, &node.id);
    if at >= list.len() {
        list.push(node);
        assert(overlay_views(list@) =~= overlay_views(old(list)@).push(node@));
    } else if always || list[at].version < node.version {
        list.set(at, node);
        assert(overlay_views(list@) =~= overlay_views(old(list)@).update(at as int, node@));
    }
}

/// Enters nodes into a list one after the other.
fn upsert_nodes(list: &mut Vec<OverlayNode>, nodes: &NodeList, always: bool)
    requires
        forall|i: int| 0 <= i < old(list)@.len() ==> (#[trigger] old(list)@[i]).encodable(),
        forall|i: int| 0 <= i < nodes@.len() ==> (#[trigger] nodes@[i]).wf(),
    ensures
        overlay_views(final(list)@) == upsert_all(overlay_views(old(list)@), nodes@, always),
        forall|i: int| 0 <= i < final(list)@.len() ==> (#[trigger] final(list)@[i]).encodable(),
{
    let count = nodes.len();
    let mut i: usize = 0;
    assert(nodes@.take(0) =~= Seq::empty());
    while i < count
        invariant
            i <= count == nodes@.len(),
            forall|j: int| 0 <= j < list@.len() ==> (#[trigger] list@[j]).encodable(),
            forall|j: int| 0 <= j < nodes@.len() ==> (#[trigger] nodes@[j]).wf(),
            overlay_views(list@) == upsert_all(
                overlay_views(old(list)@),
                nodes@.take(i as int),
                always,
            ),
        decreases count - i,
    {
        upsert_node(list, nodes.get(i).duplicate(), always);
        proof {
            assert(nodes@.take(i + 1).drop_last() =~= nodes@.take(i as int));
            assert(nodes@.take(i + 1).last() == nodes@[i as int]);
        }
        i += 1;
    }
    assert(nodes@.take(count as int) =~= nodes@);
}

/// Merges the nodes kept for an overlay with new nodes.
pub fn merge_overlay_nodes(old_nodes: &NodeList, new_nodes: &NodeList) -> (merged: Vec<OverlayNode>)
    requires
        forall|i: int| 0 <= i < old_nodes@.len() ==> (#[trigger] old_nodes@[i]).wf(),
        forall|i: int| 0 <= i < new_nodes@.len() ==> (#[trigger] new_nodes@[i]).wf(),
    ensures
        overlay_views(merged@) == merged_nodes(old_nodes@, new_nodes@),
        forall|i: int| 0 <= i < merged@.len() ==> (#[trigger] merged@[i]).encodable(),
{
    let mut merged: Vec<OverlayNode> = Vec::new();
    assert(overlay_views(merged@) =~= Seq::empty());
    upsert_nodes(&mut merged, old_nodes, true);
    upsert_nodes(&mut merged, new_nodes, false);
    merged
}

/// Tells whether a signature is the owner's.
fn check_signature(full_id: &AdnlNodeIdFull, message: &[u8], signature: &[u8]) -> (holds: bool)
    ensures
        holds == signature_holds(full_id@, message@, signature@),
{
    full_id.verify(message, signature).is_ok()
}

/// Tells whether an overlay node is valid for an overlay.
pub fn verify_node(overlay_id: &[u8; 32], node: &OverlayNode) -> (valid: bool)
    ensures
        valid == node_verified(overlay_id@, node@),
{
    if !bytes32_eq(&node.overlay, overlay_id) {
        return false;
    }
    let full_id = match &node.id {
        PublicKey::Ed25519 { key } => match AdnlNodeIdFull::new(*key) {
            Some(full_id) => full_id,
            None => return false,
        },
        _ => return false,
    };
    let peer_id = full_id.compute_short_id();
    let to_sign = serialize_node_to_sign(peer_id.as_slice(), &node.overlay, node.version);
    check_signature(&full_id, to_sign.as_slice(), node.signature.as_slice())
}

/// Keeps the nodes of a list that are valid for an overlay.
fn retain_verified(overlay_id: &[u8; 32], nodes: &NodeList) -> (kept: NodeList)
    requires
        forall|i: int| 0 <= i < nodes@.len() ==> (#[trigger] nodes@[i]).wf(),
    ensures
        kept@ == verified_nodes(overlay_id@, nodes@),
        forall|i: int| 0 <= i < kept@.len() ==> (#[trigger] kept@[i]).wf(),
{
    let mut kept = NodeList::new();
    let count = nodes.len();
    let mut i: usize = 0;
    assert(nodes@.take(0) =~= Seq::empty());
    while i < count
        invariant
            i <= count == nodes@.len(),
            forall|j: int| 0 <= j < nodes@.len() ==> (#[trigger] nodes@[j]).wf(),
            forall|j: int| 0 <= j < kept@.len() ==> (#[trigger] kept@[j]).wf(),
            kept@ == verified_nodes(overlay_id@, nodes@.take(i as int)),
        decreases count - i,
    {
        proof {
            assert(nodes@.take(i + 1).drop_last() =~= nodes@.take(i as int));
            assert(nodes@.take(i + 1).last() == nodes@[i as int]);
        }
        if verify_node(overlay_id, nodes.get(i)) {
            kept.push(nodes.get(i).duplicate());
        }
        i += 1;
    }
    assert(nodes@.take(count as int) =~= nodes@);
    kept
}

/// Puts merged nodes in the place of the nodes of a value that was offered.
pub fn make_overlay_nodes_value(
    value: DhtValue,
    new_nodes: &NodeList,
    old_nodes: Option<&NodeList>,
) -> (r: Result<DhtValue, StorageError>)
    requires
        forall|i: int| 0 <= i < new_nodes@.len() ==> (#[trigger] new_nodes@[i]).wf(),
        old_nodes matches Some(old) ==> forall|i: int|
            0 <= i < old@.len() ==> (#[trigger] old@[i]).wf(),
    ensures
        match stored_nodes(
            value@,
            merged_nodes(
                match old_nodes {
                    Some(old) => old@,
                    None => Seq::empty(),
                },
                new_nodes@,
            ),
        ) {
            Ok(Some(view)) => r matches Ok(made) && made@ == view,
            Ok(None) => false,
            Err(e) => r matches Err(got) && got == e,
        },
{
    let none = NodeList::new();
    let merged = match old_nodes {
        Some(old) => merge_overlay_nodes(old, new_nodes),
        None => merge_overlay_nodes(&none, new_nodes),
    };
    if merged.len() > u32::MAX as usize {
        return Err(StorageError::InvalidValue);
    }
    let stored_value = serialize_overlay_nodes(&merged);
    Ok(DhtValue { key: value.key, value: stored_value, ttl: value.ttl, signature: value.signature })
}

/// The value store of a node.
pub struct Storage {
    storage: Table<DhtValue>,
}

impl View for Storage {
    type V = Map<Seq<u8>, DhtValueView>;

    closed spec fn view(&self) -> Map<Seq<u8>, DhtValueView> {
        Map::new(|k: Seq<u8>| self.storage@.contains_key(k), |k: Seq<u8>| self.storage@[k]@)
    }
}

impl Storage {
    pub closed spec fn wf(&self) -> bool {
        self.storage.wf()
    }

    /// An empty store.
    pub fn new() -> (store: Self)
        ensures
            store.wf(),
            forall|k: Seq<u8>| !store@.contains_key(k),
            total_len(store@) == 0,
    {
        let store = Self { storage: Table::new() };
        proof {
            lemma_total_len_empty(store@);
        }
        store
    }

    pub fn is_empty(&self) -> (empty: bool)
        requires
            self.wf(),
        ensures
            empty <==> forall|k: Seq<u8>| !self@.contains_key(k),
    {
        let empty = self.storage.is_empty();
        proof {
            if !empty {
                let k = choose|k: Seq<u8>| self.storage@.contains_key(k);
                assert(self@.contains_key(k));
            } else {
                assert forall|k: Seq<u8>| !self@.contains_key(k) by {
                    assert(!self.storage@.contains_key(k));
                }
            }
        }
        empty
    }

    /// The number of stored values.
    pub fn len(&self) -> (n: usize)
        requires
            self.wf(),
        ensures
            n == self@.dom().len(),
    {
        assert(self@.dom() =~= self.storage@.dom());
        self.storage.len()
    }

    /// The sum of the lengths of all stored values, expired ones included,
    /// or the largest number where the sum is larger.
    pub fn total_size(&self) -> (size: usize)
        requires
            self.wf(),
        ensures
            size == if total_len(self@) > usize::MAX {
                usize::MAX as nat
            } else {
                total_len(self@)
            },
    {
        let count = self.storage.len();
        proof {
            self.storage.lemma_slots();
            lemma_size_until(self.storage, self@, count as int);
            assert(keys_until(self.storage, count as int) =~= self@.dom());
        }
        let mut size: usize = 0;
        let mut i: usize = 0;
        while i < count
            invariant
                i <= count,
                self.wf(),
                count == self.storage.slots(),
                size == if size_until(self.storage, i as int) > usize::MAX {
                    usize::MAX as nat
                } else {
                    size_until(self.storage, i as int)
                },
            decreases count - i,
        {
            let len = self.storage.value_at(i).value.len();
            size = if len > usize::MAX - size {
                usize::MAX
            } else {
                size + len
            };
            i += 1;
        }
        size
    }

    /// The value stored under a key, while it has not expired.
    pub fn get_ref(&self, key: &StorageKey, now: u32) -> (value: Option<&DhtValue>)
        requires
            self.wf(),
        ensures
            match value {
                Some(found) => self@.contains_key(key@) && found@ == self@[key@] && found.ttl > now,
                None => !(self@.contains_key(key@) && self@[key@].ttl > now),
            },
    {
        match self.storage.get(key) {
            Some(item) => if item.ttl > now {
                Some(item)
            } else {
                None
            },
            None => None,
        }
    }

    /// Stores a value unless one that lives at least as long is stored under
    /// the key, and tells whether it did.
    pub fn insert_value(&mut self, key: StorageKey, value: DhtValue) -> (stored: bool)
        requires
            old(self).wf(),
        ensures
            final(self).wf(),
            stored == !(old(self)@.contains_key(key@) && old(self)@[key@].ttl >= value.ttl),
            final(self)@ == if stored {
                old(self)@.insert(key@, value@)
            } else {
                old(self)@
            },
    {
        let newer = match self.storage.get(&key) {
            Some(known) => known.ttl < value.ttl,
            None => true,
        };
        if newer {
            let _ = self.storage.insert(key, value);
            assert(self@ =~= old(self)@.insert(key@, value@));
        }
        newer
    }

    /// Stores a value that its owner has signed, unless one that lives at
    /// least as long is stored under the key. Tells whether it did.
    pub fn insert_signed_value(&mut self, key: StorageKey, value: DhtValue) -> (r: Result<
        bool,
        StorageError,
    >)
        requires
            old(self).wf(),
        ensures
            final(self).wf(),
            match signed_value_verdict(value@) {
                Ok(()) => {
                    let stored = !(old(self)@.contains_key(key@) && old(self)@[key@].ttl
                        >= value.ttl);
                    &&& r matches Ok(done) && done == stored
                    &&& final(self)@ == if stored {
                        old(self)@.insert(key@, value@)
                    } else {
                        old(self)@
                    }
                },
                Err(e) => r matches Err(got) && got == e && final(self)@ == old(self)@,
            },
    {
        if !value.check_encodable() {
            return Err(StorageError::InvalidValue);
        }
        let full_id = match &value.key.id {
            PublicKey::Ed25519 { key } => match AdnlNodeIdFull::new(*key) {
                Some(full_id) => full_id,
                None => return Err(StorageError::UnsupportedPublicKey),
            },
            _ => return Err(StorageError::UnsupportedPublicKey),
        };
        let key_message = value.key.serialize_unsigned();
        if !check_signature(&full_id, key_message.as_slice(), value.key.signature.as_slice()) {
            return Err(StorageError::InvalidSignature);
        }
        let value_message = value.serialize_unsigned();
        if !check_signature(&full_id, value_message.as_slice(), value.signature.as_slice()) {
            return Err(StorageError::InvalidSignature);
        }
        Ok(self.insert_value(key, value))
    }

    /// Stores a list of overlay nodes. The list is not signed as a whole;
    /// each node is checked on its own, and the nodes that are valid are
    /// merged with the nodes kept so far, unless the value kept lives longer.
    /// Tells whether anything was stored.
    pub fn insert_overlay_nodes(&mut self, key: StorageKey, value: DhtValue, now: u32) -> (r:
        Result<bool, StorageError>)
        requires
            old(self).wf(),
        ensures
            final(self).wf(),
            match overlay_nodes_outcome(
                if old(self)@.contains_key(key@) {
                    Some(old(self)@[key@])
                } else {
                    None
                },
                value@,
                now,
            ) {
                Ok(Some(stored)) => r matches Ok(done) && done && final(self)@ == old(
                    self,
                )@.insert(key@, stored),
                Ok(None) => r matches Ok(done) && !done && final(self)@ == old(self)@,
                Err(e) => r matches Err(got) && got == e && final(self)@ == old(self)@,
            },
    {
        if !value.signature.is_empty() || !value.key.signature.is_empty() {
            return Err(StorageError::InvalidSignatureValue);
        }
        let overlay_id = match &value.key.id {
            PublicKey::Overlay { name } => {
                if name.len() > MAX_BYTES_LEN {
                    return Err(StorageError::InvalidKeyDescription);
                }
                let mut tagged: Vec<u8> = Vec::new();
                write_u32(&mut tagged, PUB_OVERLAY_ID);
                write_bytes(&mut tagged, name.as_slice());
                sha256_digest(tagged.as_slice())
            },
            _ => return Err(StorageError::InvalidKeyDescription),
        };
        let name: [u8; 5] = [110, 111, 100, 101, 115];
        assert(name@ =~= nodes_key_name());
        if !bytes32_eq(&value.key.key.id, &overlay_id) || !bytes_eq(
            value.key.key.name.as_slice(),
            name.as_slice(),
        ) || value.key.key.idx != 0 {
            return Err(StorageError::InvalidDhtKey);
        }
        let offered = match deserialize_overlay_nodes(value.value.as_slice()) {
            Some(nodes) => nodes,
            None => return Err(StorageError::InvalidValue),
        };
        let new_nodes = retain_verified(&overlay_id, &offered);
        if new_nodes.is_empty() {
            return Err(StorageError::EmptyOverlayNodes);
        }
        let made = match self.storage.get(&key) {
            Some(stored) => {
                if stored.ttl < now {
                    make_overlay_nodes_value(value, &new_nodes, None)
                } else if stored.ttl > value.ttl {
                    return Ok(false);
                } else {
                    match deserialize_overlay_nodes(stored.value.as_slice()) {
                        Some(old_nodes) => make_overlay_nodes_value(
                            value,
                            &new_nodes,
                            Some(&old_nodes),
                        ),
                        None => return Err(StorageError::InvalidValue),
                    }
                }
            },
            None => make_overlay_nodes_value(value, &new_nodes, None),
        };
        match made {
            Ok(stored) => {
                let ghost view = stored@;
                let _ = self.storage.insert(key, stored);
                assert(self@ =~= old(self)@.insert(key@, view));
                Ok(true)
            },
            Err(e) => Err(e),
        }
    }
}

impl Default for Storage {
    fn default() -> (store: Self)
        ensures
            store.wf(),
            forall|k: Seq<u8>| !store@.contains_key(k),
            total_len(store@) == 0,
    {
        Storage::new()
    }
}

} // verus!
