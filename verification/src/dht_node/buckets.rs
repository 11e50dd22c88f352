//! The routing table: known nodes, grouped by how many leading bits their id
//! shares with the local id.

use crate::dht_node::proto::{duplicate_bytes, PublicKey, PublicKeyView};
use crate::node_id::AdnlNodeIdShort;
use crate::packet::AddressList;
use crate::table::Table;
use vstd::prelude::*;

verus! {

/// The number of buckets: one for each number of leading bits that two
/// different ids can share.
pub const BUCKET_COUNT: usize = 256;

/// A node of the hash table, as its owner announced it.
#[derive(Debug, Clone, PartialEq, Eq)]
pub struct DhtNode {
    pub id: PublicKey,
    pub addr_list: AddressList,
    pub version: u32,
    pub signature: Vec<u8>,
}

/// A node as plain values.
pub struct DhtNodeView {
    pub id: PublicKeyView,
    pub addr_list: AddressList,
    pub version: u32,
    pub signature: Seq<u8>,
}

impl View for DhtNode {
    type V = DhtNodeView;

    open spec fn view(&self) -> DhtNodeView {
        DhtNodeView {
            id: self.id@,
            addr_list: self.addr_list,
            version: self.version,
            signature: self.signature@,
        }
    }
}

impl DhtNode {
    /// A copy of the node.
    pub fn duplicate(&self) -> (copy: Self)
        ensures
            copy@ == self@,
    {
        Self {
            id: self.id.duplicate(),
            addr_list: self.addr_list,
            version: self.version,
            signature: duplicate_bytes(&self.signature),
        }
    }
}

/// The number of leading zero bits of a byte.
pub open spec fn leading_zeros(x: u8) -> nat {
    if x >= 128 {
        0
    } else if x >= 64 {
        1
    } else if x >= 32 {
        2
    } else if x >= 16 {
        3
    } else if x >= 8 {
        4
    } else if x >= 4 {
        5
    } else if x >= 2 {
        6
    } else if x >= 1 {
        7
    } else {
        8
    }
}

/// The number of leading bits that two keys share, counted from byte `from`
/// on.
pub open spec fn shared_bits_from(key1: Seq<u8>, key2: Seq<u8>, from: int) -> nat
    decreases 32 - from,
{
    if from >= 32 {
        0
    } else if key1[from] == key2[from] {
        8 + shared_bits_from(key1, key2, from + 1)
    } else {
        leading_zeros(key1[from] ^ key2[from])
    }
}

/// The number of leading bits that two keys share.
pub open spec fn shared_bits(key1: Seq<u8>, key2: Seq<u8>) -> nat {
    shared_bits_from(key1, key2, 0)
}

proof fn lemma_xor_zero(a: u8, b: u8)
    by (bit_vector)
    ensures
        (a ^ b == 0) <==> a == b,
{
}

/// Two different keys share fewer than 256 leading bits.
pub proof fn lemma_shared_bits_bound(key1: Seq<u8>, key2: Seq<u8>, from: int)
    requires
        key1.len() == 32,
        key2.len() == 32,
        0 <= from <= 32,
        exists|i: int| from <= i < 32 && key1[i] != key2[i],
    ensures
        shared_bits_from(key1, key2, from) < 8 * (32 - from),
    decreases 32 - from,
{
    if from < 32 {
        if key1[from] == key2[from] {
            let i = choose|i: int| from <= i < 32 && key1[i] != key2[i];
            assert(from + 1 <= i);
            lemma_shared_bits_bound(key1, key2, from + 1);
        } else {
            lemma_xor_zero(key1[from], key2[from]);
        }
    }
}

/// The number of leading zero bits of a byte that is not zero.
fn count_leading_zeros(x: u8) -> (n: u8)
    requires
        x != 0,
    ensures
        n == leading_zeros(x),
        n < 8,
{
    let high = x / 16;
    let nibble = if high == 0 {
        x % 16
    } else {
        high
    };
    let zeros: u8 = if nibble >= 8 {
        0
    } else if nibble >= 4 {
        1
    } else if nibble >= 2 {
        2
    } else {
        3
    };
    if high == 0 {
        zeros + 4
    } else {
        zeros
    }
}

/// Counts the leading bits that two different keys share.
pub fn get_affinity(key1: &[u8; 32], key2: &[u8; 32]) -> (affinity: u8)
    requires
        key1@ != key2@,
    ensures
        affinity == shared_bits(key1@, key2@),
{
    let mut result: u8 = 0;
    let mut i: usize = 0;
    proof {
        if forall|j: int| 0 <= j < 32 ==> key1@[j] == key2@[j] {
            assert(key1@ =~= key2@);
        }
    }
    while i < 32
        invariant
            i <= 32,
            result == 8 * i,
            i < 32,
            exists|j: int| i <= j < 32 && key1@[j] != key2@[j],
            shared_bits(key1@, key2@) == result + shared_bits_from(key1@, key2@, i as int),
        decreases 32 - i,
    {
        let x = key1[i] ^ key2[i];
        proof {
            lemma_xor_zero(key1@[i as int], key2@[i as int]);
        }
        if x != 0 {
            return result + count_leading_zeros(x);
        }
        proof {
            let j = choose|j: int| i <= j < 32 && key1@[j] != key2@[j];
            assert(i + 1 <= j);
        }
        result += 8;
        i += 1;
    }
    result
}

/// Whether two keys differ at a bit, bits counted from the highest bit of
/// the first byte.
pub open spec fn differ_at(key1: Seq<u8>, key2: Seq<u8>, bit: int) -> bool {
    (key1[bit / 8] ^ key2[bit / 8]) as int / bit_weight(bit % 8) % 2 == 1
}

/// The weight of a bit of a byte, bits counted from the highest.
pub open spec fn bit_weight(bit: int) -> int {
    if bit == 0 {
        128
    } else if bit == 1 {
        64
    } else if bit == 2 {
        32
    } else if bit == 3 {
        16
    } else if bit == 4 {
        8
    } else if bit == 5 {
        4
    } else if bit == 6 {
        2
    } else {
        1
    }
}

/// The weight of a bit of a byte, bits counted from the highest.
fn weight_of(bit: usize) -> (weight: u8)
    requires
        bit < 8,
    ensures
        weight == bit_weight(bit as int),
        weight > 0,
{
    if bit == 0 {
        128
    } else if bit == 1 {
        64
    } else if bit == 2 {
        32
    } else if bit == 3 {
        16
    } else if bit == 4 {
        8
    } else if bit == 5 {
        4
    } else if bit == 6 {
        2
    } else {
        1
    }
}

/// The nodes of a bucket in the order of its slots.
pub open spec fn bucket_nodes(bucket: Table<DhtNode>) -> Seq<DhtNodeView> {
    Seq::new(bucket.slots(), |i: int| bucket.slot_value(i)@)
}

/// The nodes of the buckets below `until` at whose bit the two keys differ,
/// bucket after bucket.
pub open spec fn candidates(buckets: Seq<Table<DhtNode>>, key1: Seq<u8>, key2: Seq<u8>, until: int) -> Seq<
    DhtNodeView,
>
    decreases until,
{
    if until <= 0 {
        Seq::empty()
    } else {
        candidates(buckets, key1, key2, until - 1) + if differ_at(key1, key2, until - 1) {
            bucket_nodes(buckets[until - 1])
        } else {
            Seq::empty()
        }
    }
}

/// The first `k` entries, or all where `k` is zero or there are no more than
/// `k`.
pub open spec fn limited(nodes: Seq<DhtNodeView>, k: nat) -> Seq<DhtNodeView> {
    if k == 0 || nodes.len() <= k {
        nodes
    } else {
        nodes.take(k as int)
    }
}

/// The candidates of fewer buckets are a prefix of those of more buckets.
proof fn lemma_candidates_prefix(
    buckets: Seq<Table<DhtNode>>,
    key1: Seq<u8>,
    key2: Seq<u8>,
    p: int,
    q: int,
)
    requires
        0 <= p <= q,
    ensures
        candidates(buckets, key1, key2, p).len() <= candidates(buckets, key1, key2, q).len(),
        candidates(buckets, key1, key2, q).take(candidates(buckets, key1, key2, p).len() as int)
            == candidates(buckets, key1, key2, p),
    decreases q - p,
{
    let cp = candidates(buckets, key1, key2, p);
    let cq = candidates(buckets, key1, key2, q);
    if p == q {
        assert(cq.take(cp.len() as int) =~= cp);
    } else {
        lemma_candidates_prefix(buckets, key1, key2, p, q - 1);
        let mid = candidates(buckets, key1, key2, q - 1);
        assert(cq.take(cp.len() as int) =~= mid.take(cp.len() as int));
    }
}

/// The views of a sequence of nodes.
pub open spec fn node_views(nodes: Seq<DhtNode>) -> Seq<DhtNodeView> {
    Seq::new(nodes.len(), |i: int| nodes[i]@)
}

/// The routing table of a node.
pub struct Buckets {
    buckets: Vec<Table<DhtNode>>,
}

impl View for Buckets {
    type V = Seq<Table<DhtNode>>;

    closed spec fn view(&self) -> Seq<Table<DhtNode>> {
        self.buckets@
    }
}

impl Buckets {
    /// There is one well-formed bucket for each number of shared bits.
    pub open spec fn wf(&self) -> bool {
        &&& self@.len() == BUCKET_COUNT
        &&& forall|i: int| 0 <= i < BUCKET_COUNT ==> (#[trigger] self@[i]).wf()
    }

    /// A routing table without nodes.
    pub fn new() -> (table: Self)
        ensures
            table.wf(),
            forall|i: int, k: Seq<u8>| 0 <= i < BUCKET_COUNT ==> !#[trigger] table@[i]@.contains_key(k),
            forall|i: int| 0 <= i < BUCKET_COUNT ==> (#[trigger] table@[i]).slots() == 0,
    {
        let mut buckets: Vec<Table<DhtNode>> = Vec::new();
        let mut i: usize = 0;
        while i < BUCKET_COUNT
            invariant
                i <= BUCKET_COUNT,
                buckets@.len() == i,
                forall|j: int| 0 <= j < i ==> (#[trigger] buckets@[j]).wf(),
                forall|j: int, k: Seq<u8>| 0 <= j < i ==> !#[trigger] buckets@[j]@.contains_key(k),
                forall|j: int| 0 <= j < i ==> (#[trigger] buckets@[j]).slots() == 0,
            decreases BUCKET_COUNT - i,
        {
            buckets.push(Table::new());
            i += 1;
        }
        Self { buckets }
    }

    /// The buckets, by the number of leading bits that their nodes share
    /// with the local id.
    pub fn iter(&self) -> (buckets: &[Table<DhtNode>])
        requires
            self.wf(),
        ensures
            buckets@ == self@,
            buckets@.len() == BUCKET_COUNT,
    {
        self.buckets.as_slice()
    }

    /// Stores a node in the bucket of its id. A node that is known already
    /// is replaced only by a newer version, in its slot; a new node takes
    /// the bucket's next slot.
    pub fn insert(&mut self, local_id: &AdnlNodeIdShort, peer_id: &AdnlNodeIdShort, peer: DhtNode)
        requires
            old(self).wf(),
            local_id@ != peer_id@,
        ensures
            final(self).wf(),
            ({
                let at = shared_bits(local_id@, peer_id@) as int;
                let bucket = old(self)@[at]@;
                &&& 0 <= at < BUCKET_COUNT
                &&& forall|i: int| 0 <= i < BUCKET_COUNT && i != at ==> final(self)@[i] == old(self)@[i]
                &&& final(self)@[at]@ == if bucket.contains_key(peer_id@) && bucket[peer_id@].version
                    >= peer.version {
                    bucket
                } else {
                    bucket.insert(peer_id@, peer)
                }
                &&& final(self)@[at].slots() == if bucket.contains_key(peer_id@) {
                    old(self)@[at].slots()
                } else {
                    old(self)@[at].slots() + 1
                }
                &&& !bucket.contains_key(peer_id@) ==> final(self)@[at].slot_key(
                    old(self)@[at].slots() as int,
                ) == peer_id@
                &&& forall|i: int|
                    0 <= i < old(self)@[at].slots() ==> #[trigger] final(self)@[at].slot_key(i)
                        == old(self)@[at].slot_key(i)
            }),
    {
        let affinity = get_affinity(local_id.as_slice(), peer_id.as_slice()) as usize;
        let bucket = &mut self.buckets[affinity];
        let newer = match bucket.get(peer_id.as_slice()) {
            Some(known) => known.version < peer.version,
            None => true,
        };
        if newer {
            let _ = bucket.insert(peer_id.0, peer);
        }
    }

    /// The known nodes that are nearer to a key than the local id is: those
    /// of the buckets at whose bit the key and the local id differ, bucket
    /// after bucket, no more than `k` of them where `k` is not zero.
    pub fn find(&self, local_id: &AdnlNodeIdShort, key: &[u8; 32], k: u32) -> (nodes: Vec<DhtNode>)
        requires
            self.wf(),
        ensures
            node_views(nodes@) == limited(
                candidates(self@, local_id@, key@, BUCKET_COUNT as int),
                k as nat,
            ),
    {
        let mut nodes: Vec<DhtNode> = Vec::new();
        let key1 = local_id.as_slice();
        let ghost all = candidates(self@, local_id@, key@, BUCKET_COUNT as int);
        let mut bit: usize = 0;
        assert(node_views(nodes@) =~= candidates(self@, local_id@, key@, 0));
        while bit < BUCKET_COUNT
            invariant
                bit <= BUCKET_COUNT,
                self.wf(),
                key1@ == local_id@,
                all == candidates(self@, local_id@, key@, BUCKET_COUNT as int),
                node_views(nodes@) == candidates(self@, local_id@, key@, bit as int),
                k == 0 || nodes@.len() < k,
            decreases BUCKET_COUNT - bit,
        {
            let x = key1[bit / 8] ^ key[bit / 8];
            let ghost before = node_views(nodes@);
            if x / weight_of(bit % 8) % 2 == 1 {
                let bucket = &self.buckets[bit];
                let count = bucket.len();
                let mut i: usize = 0;
                assert(node_views(nodes@) =~= before + bucket_nodes(*bucket).take(0));
                while i < count
                    invariant
                        i <= count,
                        bit < BUCKET_COUNT,
                        self.wf(),
                        bucket == &self.buckets@[bit as int],
                        bucket.wf(),
                        count == bucket.slots(),
                        differ_at(local_id@, key@, bit as int),
                        all == candidates(self@, local_id@, key@, BUCKET_COUNT as int),
                        before == candidates(self@, local_id@, key@, bit as int),
                        node_views(nodes@) == before + bucket_nodes(*bucket).take(i as int),
                        k == 0 || nodes@.len() < k,
                    decreases count - i,
                {
                    let copy = bucket.value_at(i).duplicate();
                    let ghost so_far = node_views(nodes@);
                    let ghost added = copy@;
                    nodes.push(copy);
                    assert(node_views(nodes@) =~= so_far.push(added));
                    assert(bucket_nodes(*bucket).take(i + 1) =~= bucket_nodes(*bucket).take(
                        i as int,
                    ).push(added));
                    assert(node_views(nodes@) =~= before + bucket_nodes(*bucket).take(i + 1));
                    if nodes.len() == k as usize {
                        proof {
                            let next = candidates(self@, local_id@, key@, bit + 1);
                            lemma_candidates_prefix(
                                self@,
                                local_id@,
                                key@,
                                bit + 1,
                                BUCKET_COUNT as int,
                            );
                            assert(next.take(k as int) =~= node_views(nodes@));
                            assert(all.take(k as int) =~= all.take(next.len() as int).take(k as int));
                        }
                        return nodes;
                    }
                    i += 1;
                }
                assert(bucket_nodes(*bucket).take(count as int) =~= bucket_nodes(*bucket));
            } else {
                assert(before + Seq::<DhtNodeView>::empty() =~= before);
            }
            bit += 1;
        }
        nodes
    }
}

impl Default for Buckets {
    fn default() -> (table: Self)
        ensures
            table.wf(),
            forall|i: int, k: Seq<u8>| 0 <= i < BUCKET_COUNT ==> !#[trigger] table@[i]@.contains_key(k),
            forall|i: int| 0 <= i < BUCKET_COUNT ==> (#[trigger] table@[i]).slots() == 0,
    {
        Buckets::new()
    }
}

} // verus!
