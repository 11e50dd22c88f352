//! The values of the hash table and the overlay nodes in them, with their
//! encodings.

use crate::dht_node::node_list::NodeList;
use crate::channel::PUB_AES_ID;
use crate::message::bytes_field;
use crate::packet::PUB_ED25519_ID;
use crate::tl::{
    bytes_encoding, copy_range, read_bytes, read_int256, read_u32, u32_at, u32_le, write_bytes,
    write_raw, write_u32, MAX_BYTES_LEN,
};
use vstd::prelude::*;

verus! {

pub const PUB_OVERLAY_ID: u32 = 0x34ba45cb;

pub const PUB_UNENC_ID: u32 = 0xb61f450a;

pub const DHT_KEY_DESCRIPTION_ID: u32 = 0x281d4e05;

pub const DHT_VALUE_ID: u32 = 0x90ad27cb;

pub const DHT_UPDATE_RULE_SIGNATURE_ID: u32 = 0xcc9f31f7;

pub const DHT_UPDATE_RULE_ANYBODY_ID: u32 = 0x61578e14;

pub const DHT_UPDATE_RULE_OVERLAY_NODES_ID: u32 = 0x26779383;

pub const OVERLAY_NODES_ID: u32 = 0xe487290e;

pub const OVERLAY_NODE_TO_SIGN_ID: u32 = 0x03d8a8e1;

/// A public key as the protocol names it.
#[derive(Debug, Clone, PartialEq, Eq)]
pub enum PublicKey {
    Ed25519 { key: [u8; 32] },
    Overlay { name: Vec<u8> },
    Aes { key: [u8; 32] },
    Unencoded { data: Vec<u8> },
}

/// A public key as plain values.
pub enum PublicKeyView {
    Ed25519 { key: Seq<u8> },
    Overlay { name: Seq<u8> },
    Aes { key: Seq<u8> },
    Unencoded { data: Seq<u8> },
}

impl View for PublicKey {
    type V = PublicKeyView;

    open spec fn view(&self) -> PublicKeyView {
        match self {
            PublicKey::Ed25519 { key } => PublicKeyView::Ed25519 { key: key@ },
            PublicKey::Overlay { name } => PublicKeyView::Overlay { name: name@ },
            PublicKey::Aes { key } => PublicKeyView::Aes { key: key@ },
            PublicKey::Unencoded { data } => PublicKeyView::Unencoded { data: data@ },
        }
    }
}

impl PublicKeyView {
    /// The byte string of the key fits its length prefix.
    pub open spec fn wf(self) -> bool {
        match self {
            PublicKeyView::Ed25519 { key } => key.len() == 32,
            PublicKeyView::Overlay { name } => name.len() <= MAX_BYTES_LEN,
            PublicKeyView::Aes { key } => key.len() == 32,
            PublicKeyView::Unencoded { data } => data.len() <= MAX_BYTES_LEN,
        }
    }

    /// The key on the wire: its tag, then its bytes.
    pub open spec fn encoding(self) -> Seq<u8> {
        match self {
            PublicKeyView::Ed25519 { key } => u32_le(PUB_ED25519_ID) + key,
            PublicKeyView::Overlay { name } => u32_le(PUB_OVERLAY_ID) + bytes_encoding(name),
            PublicKeyView::Aes { key } => u32_le(PUB_AES_ID) + key,
            PublicKeyView::Unencoded { data } => u32_le(PUB_UNENC_ID) + bytes_encoding(data),
        }
    }
}

/// The public key encoded at `at`, with the offset behind it.
pub open spec fn public_key_at(s: Seq<u8>, at: int) -> Option<(PublicKeyView, int)> {
    if at + 4 > s.len() {
        None
    } else {
        let id = u32_at(s, at);
        let body = at + 4;
        if id == PUB_ED25519_ID {
            if body + 32 > s.len() {
                None
            } else {
                Some((PublicKeyView::Ed25519 { key: s.subrange(body, body + 32) }, body + 32))
            }
        } else if id == PUB_AES_ID {
            if body + 32 > s.len() {
                None
            } else {
                Some((PublicKeyView::Aes { key: s.subrange(body, body + 32) }, body + 32))
            }
        } else if id == PUB_OVERLAY_ID {
            match bytes_field(s, body) {
                Some((name, end)) => Some((PublicKeyView::Overlay { name }, end)),
                None => None,
            }
        } else if id == PUB_UNENC_ID {
            match bytes_field(s, body) {
                Some((data, end)) => Some((PublicKeyView::Unencoded { data }, end)),
                None => None,
            }
        } else {
            None
        }
    }
}

impl PublicKey {
    /// The byte string of the key fits its length prefix.
    pub open spec fn encodable(&self) -> bool {
        self@.wf()
    }

    /// Tells whether the byte string of the key fits its length prefix.
    pub fn check_encodable(&self) -> (ok: bool)
        ensures
            ok == self.encodable(),
    {
        match self {
            PublicKey::Overlay { name } => name.len() <= MAX_BYTES_LEN,
            PublicKey::Unencoded { data } => data.len() <= MAX_BYTES_LEN,
            _ => true,
        }
    }

    /// Appends the encoding of the key.
    pub fn write_to(&self, buf: &mut Vec<u8>)
        requires
            self.encodable(),
        ensures
            final(buf)@ == old(buf)@ + self@.encoding(),
    {
        match self {
            PublicKey::Ed25519 { key } => {
                write_u32(buf, PUB_ED25519_ID);
                write_raw(buf, key.as_slice());
            },
            PublicKey::Overlay { name } => {
                write_u32(buf, PUB_OVERLAY_ID);
                write_bytes(buf, name.as_slice());
            },
            PublicKey::Aes { key } => {
                write_u32(buf, PUB_AES_ID);
                write_raw(buf, key.as_slice());
            },
            PublicKey::Unencoded { data } => {
                write_u32(buf, PUB_UNENC_ID);
                write_bytes(buf, data.as_slice());
            },
        }
        assert(buf@ =~= old(buf)@ + self@.encoding());
    }

    /// Reads the key encoded at an offset.
    pub fn read_from(data: &[u8], at: usize) -> (r: Option<(PublicKey, usize)>)
        ensures
            match (r, public_key_at(data@, at as int)) {
                (Some((key, end)), Some((view, e))) => key@ == view && end == e,
                (None, None) => true,
                _ => false,
            },
            r matches Some((key, end)) ==> at < end <= data@.len(),
    {
        let total = data.len();
        let id = match read_u32(data, at) {
            Some(id) => id,
            None => return None,
        };
        let body = at + 4;
        if id == PUB_ED25519_ID {
            match read_int256(data, body) {
                Some(key) => Some((PublicKey::Ed25519 { key }, body + 32)),
                None => None,
            }
        } else if id == PUB_AES_ID {
            match read_int256(data, body) {
                Some(key) => Some((PublicKey::Aes { key }, body + 32)),
                None => None,
            }
        } else if id == PUB_OVERLAY_ID {
            match read_bytes(data, body) {
                Some((start, len, end)) => Some(
                    (PublicKey::Overlay { name: copy_range(data, start, len) }, end),
                ),
                None => None,
            }
        } else if id == PUB_UNENC_ID {
            match read_bytes(data, body) {
                Some((start, len, end)) => Some(
                    (PublicKey::Unencoded { data: copy_range(data, start, len) }, end),
                ),
                None => None,
            }
        } else {
            None
        }
    }

    /// Tells whether two keys are the same.
    pub fn same(&self, other: &PublicKey) -> (same: bool)
        ensures
            same == (self@ == other@),
    {
        match (self, other) {
            (PublicKey::Ed25519 { key: a }, PublicKey::Ed25519 { key: b }) => {
                crate::node_id::bytes32_eq(a, b)
            },
            (PublicKey::Aes { key: a }, PublicKey::Aes { key: b }) => {
                crate::node_id::bytes32_eq(a, b)
            },
            (PublicKey::Overlay { name: a }, PublicKey::Overlay { name: b }) => {
                bytes_eq(a.as_slice(), b.as_slice())
            },
            (PublicKey::Unencoded { data: a }, PublicKey::Unencoded { data: b }) => {
                bytes_eq(a.as_slice(), b.as_slice())
            },
            _ => false,
        }
    }

    /// A copy of the key.
    pub fn duplicate(&self) -> (copy: Self)
        ensures
            copy@ == self@,
    {
        match self {
            PublicKey::Ed25519 { key } => PublicKey::Ed25519 { key: *key },
            PublicKey::Aes { key } => PublicKey::Aes { key: *key },
            PublicKey::Overlay { name } => PublicKey::Overlay { name: duplicate_bytes(name) },
            PublicKey::Unencoded { data } => PublicKey::Unencoded { data: duplicate_bytes(data) },
        }
    }
}

/// Compares two byte strings.
pub fn bytes_eq(a: &[u8], b: &[u8]) -> (equal: bool)
    ensures
        equal == (a@ == b@),
{
    if a.len() != b.len() {
        return false;
    }
    let mut i: usize = 0;
    while i < a.len()
        invariant
            i <= a@.len(),
            a@.len() == b@.len(),
            forall|j: int| 0 <= j < i ==> a@[j] == b@[j],
        decreases a@.len() - i,
    {
        if a[i] != b[i] {
            return false;
        }
        i += 1;
    }
    assert(a@ =~= b@);
    true
}

/// A copy of a byte string.
pub fn duplicate_bytes(bytes: &Vec<u8>) -> (copy: Vec<u8>)
    ensures
        copy@ == bytes@,
{
    let copy = copy_range(bytes.as_slice(), 0, bytes.len());
    assert(copy@ =~= bytes@);
    copy
}

/// The key under which a value is kept: the owner, a name, and an index.
#[derive(Debug, Clone, PartialEq, Eq)]
pub struct DhtKey {
    pub id: [u8; 32],
    pub name: Vec<u8>,
    pub idx: u32,
}

/// Who may update a value.
#[derive(Debug, Copy, Clone, PartialEq, Eq, Structural)]
pub enum UpdateRule {
    Signature,
    Anybody,
    OverlayNodes,
}

/// The description of a key: the key, its owner's public key, the update
/// rule, and the owner's signature.
#[derive(Debug, Clone, PartialEq, Eq)]
pub struct KeyDescription {
    pub key: DhtKey,
    pub id: PublicKey,
    pub update_rule: UpdateRule,
    pub signature: Vec<u8>,
}

/// A value of the hash table.
#[derive(Debug, Clone, PartialEq, Eq)]
pub struct DhtValue {
    pub key: KeyDescription,
    pub value: Vec<u8>,
    /// The second at which the value expires.
    pub ttl: u32,
    pub signature: Vec<u8>,
}

/// A key as plain values.
pub struct DhtKeyView {
    pub id: Seq<u8>,
    pub name: Seq<u8>,
    pub idx: u32,
}

/// A key description as plain values.
pub struct KeyDescriptionView {
    pub key: DhtKeyView,
    pub id: PublicKeyView,
    pub update_rule: UpdateRule,
    pub signature: Seq<u8>,
}

/// A value as plain values.
pub struct DhtValueView {
    pub key: KeyDescriptionView,
    pub value: Seq<u8>,
    pub ttl: u32,
    pub signature: Seq<u8>,
}

impl View for DhtKey {
    type V = DhtKeyView;

    open spec fn view(&self) -> DhtKeyView {
        DhtKeyView { id: self.id@, name: self.name@, idx: self.idx }
    }
}

impl View for KeyDescription {
    type V = KeyDescriptionView;

    open spec fn view(&self) -> KeyDescriptionView {
        KeyDescriptionView {
            key: self.key@,
            id: self.id@,
            update_rule: self.update_rule,
            signature: self.signature@,
        }
    }
}

impl View for DhtValue {
    type V = DhtValueView;

    open spec fn view(&self) -> DhtValueView {
        DhtValueView {
            key: self.key@,
            value: self.value@,
            ttl: self.ttl,
            signature: self.signature@,
        }
    }
}

/// The tag of an update rule.
pub open spec fn update_rule_id(rule: UpdateRule) -> u32 {
    match rule {
        UpdateRule::Signature => DHT_UPDATE_RULE_SIGNATURE_ID,
        UpdateRule::Anybody => DHT_UPDATE_RULE_ANYBODY_ID,
        UpdateRule::OverlayNodes => DHT_UPDATE_RULE_OVERLAY_NODES_ID,
    }
}

impl KeyDescriptionView {
    /// Every byte string fits its length prefix.
    pub open spec fn wf(self) -> bool {
        &&& self.key.id.len() == 32
        &&& self.key.name.len() <= MAX_BYTES_LEN
        &&& self.id.wf()
        &&& self.signature.len() <= MAX_BYTES_LEN
    }

    /// The fields of the description on the wire.
    pub open spec fn fields(self) -> Seq<u8> {
        self.key.id + bytes_encoding(self.key.name) + u32_le(self.key.idx) + self.id.encoding()
            + u32_le(update_rule_id(self.update_rule)) + bytes_encoding(self.signature)
    }

    /// The description on the wire: its tag, then its fields.
    pub open spec fn encoding(self) -> Seq<u8> {
        u32_le(DHT_KEY_DESCRIPTION_ID) + self.fields()
    }

    /// The description without its signature.
    pub open spec fn unsigned(self) -> KeyDescriptionView {
        KeyDescriptionView { signature: Seq::empty(), ..self }
    }
}

impl DhtValueView {
    /// Every byte string fits its length prefix.
    pub open spec fn wf(self) -> bool {
        &&& self.key.wf()
        &&& self.value.len() <= MAX_BYTES_LEN
        &&& self.signature.len() <= MAX_BYTES_LEN
    }

    /// The value on the wire: its tag, the fields of the key description,
    /// then its own fields.
    pub open spec fn encoding(self) -> Seq<u8> {
        u32_le(DHT_VALUE_ID) + self.key.fields() + bytes_encoding(self.value) + u32_le(self.ttl)
            + bytes_encoding(self.signature)
    }

    /// The value without its signature.
    pub open spec fn unsigned(self) -> DhtValueView {
        DhtValueView { signature: Seq::empty(), ..self }
    }
}

impl KeyDescription {
    /// Every byte string fits its length prefix.
    pub open spec fn encodable(&self) -> bool {
        self@.wf()
    }

    /// Tells whether every byte string fits its length prefix.
    pub fn check_encodable(&self) -> (ok: bool)
        ensures
            ok == self.encodable(),
    {
        self.key.name.len() <= MAX_BYTES_LEN && self.id.check_encodable() && self.signature.len()
            <= MAX_BYTES_LEN
    }

    /// Appends the fields of the description, with the signature given in
    /// place of its own.
    fn write_fields(&self, buf: &mut Vec<u8>, signature: &[u8])
        requires
            self.encodable(),
            signature@.len() <= MAX_BYTES_LEN,
        ensures
            final(buf)@ == old(buf)@ + (KeyDescriptionView {
                signature: signature@,
                ..self@
            }).fields(),
    {
        write_raw(buf, self.key.id.as_slice());
        write_bytes(buf, self.key.name.as_slice());
        write_u32(buf, self.key.idx);
        self.id.write_to(buf);
        write_u32(
            buf,
            match self.update_rule {
                UpdateRule::Signature => DHT_UPDATE_RULE_SIGNATURE_ID,
                UpdateRule::Anybody => DHT_UPDATE_RULE_ANYBODY_ID,
                UpdateRule::OverlayNodes => DHT_UPDATE_RULE_OVERLAY_NODES_ID,
            },
        );
        write_bytes(buf, signature);
        assert(buf@ =~= old(buf)@ + (KeyDescriptionView { signature: signature@, ..self@ }).fields());
    }

    /// The encoding of the description without its signature: what the
    /// owner signs.
    pub fn serialize_unsigned(&self) -> (out: Vec<u8>)
        requires
            self.encodable(),
        ensures
            out@ == self@.unsigned().encoding(),
    {
        let mut out: Vec<u8> = Vec::new();
        write_u32(&mut out, DHT_KEY_DESCRIPTION_ID);
        let empty: Vec<u8> = Vec::new();
        self.write_fields(&mut out, empty.as_slice());
        assert(empty@ =~= Seq::empty());
        out
    }

    /// A copy of the description.
    pub fn duplicate(&self) -> (copy: Self)
        ensures
            copy@ == self@,
    {
        KeyDescription {
            key: DhtKey {
                id: self.key.id,
                name: duplicate_bytes(&self.key.name),
                idx: self.key.idx,
            },
            id: self.id.duplicate(),
            update_rule: self.update_rule,
            signature: duplicate_bytes(&self.signature),
        }
    }
}

impl DhtValue {
    /// Every byte string fits its length prefix.
    pub open spec fn encodable(&self) -> bool {
        self@.wf()
    }

    /// Tells whether every byte string fits its length prefix.
    pub fn check_encodable(&self) -> (ok: bool)
        ensures
            ok == self.encodable(),
    {
        self.key.check_encodable() && self.value.len() <= MAX_BYTES_LEN && self.signature.len()
            <= MAX_BYTES_LEN
    }

    /// The encoding of the value without its signature: what the owner
    /// signs.
    pub fn serialize_unsigned(&self) -> (out: Vec<u8>)
        requires
            self.encodable(),
        ensures
            out@ == self@.unsigned().encoding(),
    {
        let mut out: Vec<u8> = Vec::new();
        write_u32(&mut out, DHT_VALUE_ID);
        self.key.write_fields(&mut out, self.key.signature.as_slice());
        write_bytes(&mut out, self.value.as_slice());
        write_u32(&mut out, self.ttl);
        let empty: Vec<u8> = Vec::new();
        write_bytes(&mut out, empty.as_slice());
        assert(empty@ =~= Seq::empty());
        assert(out@ =~= self@.unsigned().encoding());
        out
    }
}

/// A node of an overlay, as its owner announced it.
#[derive(Debug, Clone, PartialEq, Eq)]
pub struct OverlayNode {
    pub id: PublicKey,
    pub overlay: [u8; 32],
    pub version: u32,
    pub signature: Vec<u8>,
}

/// An overlay node as plain values.
pub struct OverlayNodeView {
    pub id: PublicKeyView,
    pub overlay: Seq<u8>,
    pub version: u32,
    pub signature: Seq<u8>,
}

impl View for OverlayNode {
    type V = OverlayNodeView;

    open spec fn view(&self) -> OverlayNodeView {
        OverlayNodeView {
            id: self.id@,
            overlay: self.overlay@,
            version: self.version,
            signature: self.signature@,
        }
    }
}

impl OverlayNodeView {
    /// Every byte string fits its length prefix.
    pub open spec fn wf(self) -> bool {
        self.id.wf() && self.overlay.len() == 32 && self.signature.len() <= MAX_BYTES_LEN
    }

    /// The node on the wire.
    pub open spec fn encoding(self) -> Seq<u8> {
        self.id.encoding() + self.overlay + u32_le(self.version) + bytes_encoding(self.signature)
    }
}

/// What the owner of an overlay node signs: the node's short id, the
/// overlay, and the version.
pub open spec fn node_to_sign(short_id: Seq<u8>, overlay: Seq<u8>, version: u32) -> Seq<u8> {
    u32_le(OVERLAY_NODE_TO_SIGN_ID) + short_id + overlay + u32_le(version)
}

/// The overlay node encoded at `at`, with the offset behind it.
pub open spec fn node_at(s: Seq<u8>, at: int) -> Option<(OverlayNodeView, int)> {
    match public_key_at(s, at) {
        Some((id, body)) => if body + 36 > s.len() {
            None
        } else {
            match bytes_field(s, body + 36) {
                Some((signature, end)) => Some(
                    (
                        OverlayNodeView {
                            id,
                            overlay: s.subrange(body, body + 32),
                            version: u32_at(s, body + 32),
                            signature,
                        },
                        end,
                    ),
                ),
                None => None,
            }
        },
        None => None,
    }
}

/// `count` overlay nodes encoded in a row from `at` on.
pub open spec fn nodes_at(s: Seq<u8>, at: int, count: nat) -> Option<Seq<OverlayNodeView>>
    decreases count,
{
    if count == 0 {
        Some(Seq::empty())
    } else {
        match node_at(s, at) {
            Some((first, next)) => match nodes_at(s, next, (count - 1) as nat) {
                Some(rest) => Some(seq![first] + rest),
                None => None,
            },
            None => None,
        }
    }
}

/// The list of overlay nodes that a byte string encodes: the tag, the count,
/// the nodes.
pub open spec fn nodes_of(s: Seq<u8>) -> Option<Seq<OverlayNodeView>> {
    if s.len() < 8 || u32_at(s, 0) != OVERLAY_NODES_ID {
        None
    } else {
        nodes_at(s, 8, u32_at(s, 4) as nat)
    }
}

/// The encodings of overlay nodes, one after the other.
pub open spec fn node_encodings(nodes: Seq<OverlayNodeView>) -> Seq<u8>
    decreases nodes.len(),
{
    if nodes.len() == 0 {
        Seq::empty()
    } else {
        node_encodings(nodes.drop_last()) + nodes.last().encoding()
    }
}

/// A list of overlay nodes on the wire: the tag, the count, the nodes.
pub open spec fn nodes_encoding(nodes: Seq<OverlayNodeView>) -> Seq<u8> {
    u32_le(OVERLAY_NODES_ID) + u32_le(nodes.len() as u32) + node_encodings(nodes)
}

/// The views of a sequence of overlay nodes.
pub open spec fn overlay_views(nodes: Seq<OverlayNode>) -> Seq<OverlayNodeView> {
    Seq::new(nodes.len(), |i: int| nodes[i]@)
}

impl OverlayNode {
    /// Every byte string fits its length prefix.
    pub open spec fn encodable(&self) -> bool {
        self@.wf()
    }

    /// Appends the encoding of the node.
    pub fn write_to(&self, buf: &mut Vec<u8>)
        requires
            self.encodable(),
        ensures
            final(buf)@ == old(buf)@ + self@.encoding(),
    {
        self.id.write_to(buf);
        write_raw(buf, self.overlay.as_slice());
        write_u32(buf, self.version);
        write_bytes(buf, self.signature.as_slice());
        assert(buf@ =~= old(buf)@ + self@.encoding());
    }

    /// Reads the node encoded at an offset.
    pub fn read_from(data: &[u8], at: usize) -> (r: Option<(OverlayNode, usize)>)
        ensures
            match (r, node_at(data@, at as int)) {
                (Some((node, end)), Some((view, e))) => node@ == view && end == e && node.encodable(),
                (None, None) => true,
                _ => false,
            },
            r matches Some((node, end)) ==> at < end <= data@.len(),
    {
        let total = data.len();
        let (id, body) = match PublicKey::read_from(data, at) {
            Some(found) => found,
            None => return None,
        };
        if total - body < 36 {
            return None;
        }
        let overlay = read_int256(data, body).unwrap();
        let version = read_u32(data, body + 32).unwrap();
        match read_bytes(data, body + 36) {
            Some((start, len, end)) => {
                let signature = copy_range(data, start, len);
                proof {
                    assert(len <= MAX_BYTES_LEN) by {
                        crate::tl::lemma_bytes_at_bound(data@, body + 36);
                    }
                    assert(id@.wf()) by {
                        lemma_public_key_at_wf(data@, at as int);
                    }
                }
                Some((OverlayNode { id, overlay, version, signature }, end))
            },
            None => None,
        }
    }

    /// A copy of the node.
    pub fn duplicate(&self) -> (copy: Self)
        ensures
            copy@ == self@,
    {
        OverlayNode {
            id: self.id.duplicate(),
            overlay: self.overlay,
            version: self.version,
            signature: duplicate_bytes(&self.signature),
        }
    }
}

/// A key that was read can be written.
pub proof fn lemma_public_key_at_wf(s: Seq<u8>, at: int)
    requires
        0 <= at,
        public_key_at(s, at) is Some,
    ensures
        (public_key_at(s, at)->0).0.wf(),
{
    crate::tl::lemma_bytes_at_bound(s, at + 4);
}

/// Reads a list of overlay nodes.
pub fn deserialize_overlay_nodes(data: &[u8]) -> (r: Option<NodeList>)
    ensures
        match (r, nodes_of(data@)) {
            (Some(nodes), Some(views)) => nodes@ == views && forall|i: int|
                0 <= i < nodes@.len() ==> (#[trigger] nodes@[i]).wf(),
            (None, None) => true,
            _ => false,
        },
{
    match read_u32(data, 0) {
        Some(id) => {
            if id != OVERLAY_NODES_ID {
                return None;
            }
        },
        None => {
            return None;
        },
    }
    let count = match read_u32(data, 4) {
        Some(count) => count,
        None => return None,
    };
    let mut nodes = NodeList::new();
    let mut cursor: usize = 8;
    let mut i: u32 = 0;
    assert(nodes@ + Seq::<OverlayNodeView>::empty() =~= Seq::<OverlayNodeView>::empty());
    while i < count
        invariant
            i <= count,
            8 <= cursor <= data@.len(),
            u32_at(data@, 0) == OVERLAY_NODES_ID,
            count == u32_at(data@, 4),
            forall|j: int| 0 <= j < nodes@.len() ==> (#[trigger] nodes@[j]).wf(),
            nodes_at(data@, 8, count as nat) == match nodes_at(
                data@,
                cursor as int,
                (count - i) as nat,
            ) {
                Some(rest) => Some(nodes@ + rest),
                None => None,
            },
        decreases count - i,
    {
        let ghost before = nodes@;
        match OverlayNode::read_from(data, cursor) {
            Some((node, next)) => {
                proof {
                    let first = node@;
                    assert(before.push(first) =~= before + seq![first]);
                    match nodes_at(data@, next as int, (count - i - 1) as nat) {
                        Some(rest) => {
                            assert(before + (seq![first] + rest) =~= (before + seq![first]) + rest);
                        },
                        None => {},
                    }
                }
                nodes.push(node);
                cursor = next;
            },
            None => {
                return None;
            },
        }
        i += 1;
    }
    assert(nodes@ + Seq::<OverlayNodeView>::empty() =~= nodes@);
    Some(nodes)
}

/// Writes a list of overlay nodes.
pub fn serialize_overlay_nodes(nodes: &Vec<OverlayNode>) -> (out: Vec<u8>)
    requires
        nodes@.len() <= u32::MAX,
        forall|i: int| 0 <= i < nodes@.len() ==> (#[trigger] nodes@[i]).encodable(),
    ensures
        out@ == nodes_encoding(overlay_views(nodes@)),
{
    let mut out: Vec<u8> = Vec::new();
    write_u32(&mut out, OVERLAY_NODES_ID);
    write_u32(&mut out, nodes.len() as u32);
    let ghost head = out@;
    let mut i: usize = 0;
    assert(overlay_views(nodes@).take(0) =~= Seq::empty());
    while i < nodes.len()
        invariant
            i <= nodes@.len(),
            forall|j: int| 0 <= j < nodes@.len() ==> (#[trigger] nodes@[j]).encodable(),
            out@ == head + node_encodings(overlay_views(nodes@).take(i as int)),
        decreases nodes@.len() - i,
    {
        nodes[i].write_to(&mut out);
        proof {
            let views = overlay_views(nodes@);
            assert(views.take(i + 1).drop_last() =~= views.take(i as int));
            assert(views.take(i + 1).last() == nodes@[i as int]@);
            assert(out@ =~= head + node_encodings(views.take(i + 1)));
        }
        i += 1;
    }
    assert(overlay_views(nodes@).take(nodes@.len() as int) =~= overlay_views(nodes@));
    out
}

/// Writes what the owner of an overlay node signs.
pub fn serialize_node_to_sign(short_id: &[u8; 32], overlay: &[u8; 32], version: u32) -> (out: Vec<
    u8,
>)
    ensures
        out@ == node_to_sign(short_id@, overlay@, version),
{
    let mut out: Vec<u8> = Vec::new();
    write_u32(&mut out, OVERLAY_NODE_TO_SIGN_ID);
    write_raw(&mut out, short_id.as_slice());
    write_raw(&mut out, overlay.as_slice());
    write_u32(&mut out, version);
    out
}

} // verus!
