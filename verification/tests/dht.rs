use adnl::dht_node::buckets::{get_affinity, Buckets, DhtNode};
use adnl::dht_node::node_list::NodeList;
use adnl::dht_node::proto::{
    deserialize_overlay_nodes, serialize_node_to_sign, serialize_overlay_nodes, DhtKey, DhtValue,
    KeyDescription, OverlayNode, PublicKey, UpdateRule,
};
use adnl::dht_node::storage::{
    make_overlay_nodes_value, merge_overlay_nodes, verify_node, Storage, StorageError,
};
use adnl::node_id::{ComputeNodeIds, StoredAdnlNodeKey};
use sha2::Digest;
use adnl::keystore::{AdnlKeystore, AdnlKeystoreError};
use adnl::node_id::AdnlNodeIdShort;
use adnl::packet::{AddressList, AdnlAddressUdp};
use adnl::table::Table;

fn key(bytes: &[(usize, u8)]) -> [u8; 32] {
    let mut out = [0u8; 32];
    for &(at, value) in bytes {
        out[at] = value;
    }
    out
}

fn node(id: [u8; 32], version: u32) -> DhtNode {
    DhtNode {
        id: PublicKey::Ed25519 { key: id },
        addr_list: AddressList {
            address: Some(AdnlAddressUdp { ip: version, port: 1 }),
            version,
            reinit_date: 0,
            priority: 0,
            expire_at: 0,
        },
        version,
        signature: vec![version as u8; 3],
    }
}

#[test]
fn affinity_counts_leading_equal_bits() {
    let zero = [0u8; 32];
    assert_eq!(get_affinity(&zero, &key(&[(0, 0x80)])), 0);
    assert_eq!(get_affinity(&zero, &key(&[(0, 0x40)])), 1);
    assert_eq!(get_affinity(&zero, &key(&[(0, 0x7f)])), 1);
    assert_eq!(get_affinity(&zero, &key(&[(0, 0x20)])), 2);
    assert_eq!(get_affinity(&zero, &key(&[(0, 0x10)])), 3);
    assert_eq!(get_affinity(&zero, &key(&[(0, 0x08)])), 4);
    assert_eq!(get_affinity(&zero, &key(&[(0, 0x04)])), 5);
    assert_eq!(get_affinity(&zero, &key(&[(0, 0x02)])), 6);
    assert_eq!(get_affinity(&zero, &key(&[(0, 0x01)])), 7);
    assert_eq!(get_affinity(&zero, &key(&[(1, 0x80)])), 8);
    assert_eq!(get_affinity(&zero, &key(&[(1, 0x01), (2, 0xff)])), 15);
    assert_eq!(get_affinity(&zero, &key(&[(31, 0x80)])), 248);
    assert_eq!(get_affinity(&zero, &key(&[(31, 0x01)])), 255);
    // it is the difference that counts
    assert_eq!(get_affinity(&[0xff; 32], &key(&[(0, 0xff), (1, 0xfb)])), 13);
    assert_eq!(get_affinity(&key(&[(5, 0x33)]), &key(&[(5, 0x32)])), 47);
    assert_eq!(get_affinity(&key(&[(5, 0x32)]), &key(&[(5, 0x33)])), 47);
}

#[test]
fn buckets_keep_the_newest_version_of_a_node() {
    let local = AdnlNodeIdShort::new([0; 32]);
    let peer = AdnlNodeIdShort::new(key(&[(1, 0x10)]));
    let mut buckets = Buckets::new();
    assert_eq!(buckets.iter().len(), 256);
    assert!(buckets.iter().iter().all(|bucket| bucket.is_empty()));
    buckets.insert(&local, &peer, node(*peer.as_slice(), 5));
    assert_eq!(buckets.iter()[11].len(), 1);
    assert_eq!(buckets.iter()[11].get(peer.as_slice()), Some(&node(*peer.as_slice(), 5)));
    buckets.insert(&local, &peer, node(*peer.as_slice(), 4));
    buckets.insert(&local, &peer, node(*peer.as_slice(), 5));
    assert_eq!(buckets.iter()[11].get(peer.as_slice()).unwrap().version, 5);
    buckets.insert(&local, &peer, node(*peer.as_slice(), 6));
    assert_eq!(buckets.iter()[11].get(peer.as_slice()), Some(&node(*peer.as_slice(), 6)));
    assert_eq!(buckets.iter().iter().map(|bucket| bucket.len()).sum::<usize>(), 1);
}

fn filled() -> (AdnlNodeIdShort, Buckets) {
    let local = AdnlNodeIdShort::new([0; 32]);
    let mut buckets = Buckets::new();
    // two nodes in bucket 0, one each in buckets 1, 3, 9 and 255
    let ids = [
        key(&[(0, 0x80)]),
        key(&[(0, 0xc1)]),
        key(&[(0, 0x40)]),
        key(&[(0, 0x10)]),
        key(&[(1, 0x40)]),
        key(&[(31, 0x01)]),
    ];
    for (i, id) in ids.iter().enumerate() {
        buckets.insert(&local, &AdnlNodeIdShort::new(*id), node(*id, i as u32));
    }
    (local, buckets)
}

fn versions(nodes: &[DhtNode]) -> Vec<u32> {
    nodes.iter().map(|node| node.version).collect()
}

#[test]
fn find_walks_the_buckets_where_the_key_differs() {
    let (local, buckets) = filled();
    // the key differs from the local id in bits 0, 3 and 255
    let target = key(&[(0, 0x90), (31, 0x01)]);
    assert_eq!(versions(&buckets.find(&local, &target, 10)), vec![0, 1, 3, 5]);
    assert_eq!(versions(&buckets.find(&local, &target, 4)), vec![0, 1, 3, 5]);
    assert_eq!(versions(&buckets.find(&local, &target, 3)), vec![0, 1, 3]);
    assert_eq!(versions(&buckets.find(&local, &target, 1)), vec![0]);
    // zero asks for all
    assert_eq!(versions(&buckets.find(&local, &target, 0)), vec![0, 1, 3, 5]);
    assert_eq!(versions(&buckets.find(&local, &[0xff; 32], 0)), vec![0, 1, 2, 3, 4, 5]);
    assert_eq!(versions(&buckets.find(&local, &key(&[(1, 0x40)]), 7)), vec![4]);
    // the local id itself is nearest to itself
    assert!(buckets.find(&local, local.as_slice(), 5).is_empty());
    let nodes = buckets.find(&local, &key(&[(0, 0x40)]), 1);
    assert_eq!(nodes, vec![node(key(&[(0, 0x40)]), 2)]);
}

fn value(len: usize, ttl: u32) -> DhtValue {
    DhtValue {
        key: KeyDescription {
            key: DhtKey { id: [1; 32], name: b"address".to_vec(), idx: 0 },
            id: PublicKey::Ed25519 { key: [2; 32] },
            update_rule: UpdateRule::Signature,
            signature: vec![],
        },
        value: vec![7; len],
        ttl,
        signature: vec![],
    }
}

#[test]
fn storage_keeps_the_value_that_lives_longest() {
    let mut storage = Storage::new();
    assert!(storage.is_empty());
    assert_eq!(storage.len(), 0);
    assert_eq!(storage.total_size(), 0);
    assert!(storage.insert_value([1; 32], value(10, 100)));
    assert!(storage.insert_value([2; 32], value(5, 50)));
    assert!(!storage.is_empty());
    assert_eq!(storage.len(), 2);
    assert_eq!(storage.total_size(), 15);
    assert!(!storage.insert_value([1; 32], value(20, 100)));
    assert!(!storage.insert_value([1; 32], value(20, 99)));
    assert_eq!(storage.total_size(), 15);
    assert!(storage.insert_value([1; 32], value(20, 101)));
    assert_eq!(storage.len(), 2);
    assert_eq!(storage.total_size(), 25);
    assert_eq!(storage.get_ref(&[1; 32], 100), Some(&value(20, 101)));
    assert_eq!(storage.get_ref(&[1; 32], 101), None);
    assert_eq!(storage.get_ref(&[2; 32], 49), Some(&value(5, 50)));
    assert_eq!(storage.get_ref(&[2; 32], 50), None);
    assert_eq!(storage.get_ref(&[3; 32], 0), None);
}

#[test]
fn table_is_a_map() {
    let mut table: Table<u32> = Table::new();
    assert!(table.is_empty());
    for i in 0..100u8 {
        assert_eq!(table.insert([i; 32], i as u32), None);
    }
    assert_eq!(table.len(), 100);
    assert_eq!(table.insert([7; 32], 700), Some(7));
    assert_eq!(table.len(), 100);
    assert_eq!(table.get(&[7; 32]), Some(&700));
    assert_eq!(table.get(&[200; 32]), None);
    assert!(table.contains_key(&[99; 32]));
    assert!(!table.contains_key(&[100; 32]));
    // every key stands in the slot that the table names for it
    for i in 0..100u8 {
        let slot = table.position(&[i; 32]).unwrap();
        assert_eq!(table.key_at(slot), &[i; 32]);
        assert_eq!(*table.value_at(slot), if i == 7 { 700 } else { i as u32 });
    }
    *table.value_mut(table.position(&[8; 32]).unwrap()) += 1;
    assert_eq!(table.get(&[8; 32]), Some(&9));
    // removal from the front, the middle and the end
    for i in [0u8, 50, 99, 7] {
        assert!(table.remove(&[i; 32]).is_some());
        assert_eq!(table.remove(&[i; 32]), None);
        assert_eq!(table.get(&[i; 32]), None);
    }
    assert_eq!(table.len(), 96);
    for i in 0..100u8 {
        let expected = match i {
            0 | 50 | 99 | 7 => None,
            8 => Some(9),
            _ => Some(i as u32),
        };
        assert_eq!(table.get(&[i; 32]).copied(), expected);
        if let Some(slot) = table.position(&[i; 32]) {
            assert_eq!(table.key_at(slot), &[i; 32]);
        }
    }
    for i in 0..100u8 {
        table.remove(&[i; 32]);
    }
    assert!(table.is_empty());
}

#[test]
fn keystore_by_id_and_tag() {
    let mut keystore = AdnlKeystore::new();
    assert_eq!(keystore.key_by_tag(1).err(), Some(AdnlKeystoreError::KeyTagNotFound));
    let first = keystore.add_key([1; 32], 1).unwrap();
    let second = keystore.add_key([2; 32], 2).unwrap();
    assert_ne!(first, second);
    assert_eq!(keystore.keys().len(), 2);
    assert_eq!(keystore.key_by_id(&first).unwrap().private_key().secret_key(), &[1; 32]);
    assert_eq!(keystore.key_by_tag(2).unwrap().id(), &second);
    assert_eq!(keystore.key_by_id(&AdnlNodeIdShort::new([0; 32])).err(), Some(AdnlKeystoreError::KeyIdNotFound));
    // the same key under the same tag again
    assert_eq!(keystore.add_key([1; 32], 1), Ok(first));
    assert_eq!(keystore.add_key([3; 32], 1), Err(AdnlKeystoreError::DuplicatedKeyTag));
    assert_eq!(keystore.keys().len(), 2);
    // a known key under a new tag: the tag is noted, the key refused
    assert_eq!(keystore.add_key([1; 32], 3), Err(AdnlKeystoreError::DuplicatedKey));
    assert_eq!(keystore.key_by_tag(3).unwrap().id(), &first);
    // deletion by key and tag
    assert_eq!(keystore.delete_key(&second, 1), Err(AdnlKeystoreError::UnexpectedKey));
    assert_eq!(keystore.key_by_id(&second).err(), Some(AdnlKeystoreError::KeyIdNotFound));
    assert_eq!(keystore.key_by_tag(1).err(), Some(AdnlKeystoreError::KeyTagNotFound));
    assert_eq!(keystore.key_by_tag(2).err(), Some(AdnlKeystoreError::KeyIdNotFound));
    assert_eq!(keystore.delete_key(&first, 3), Ok(true));
    assert_eq!(keystore.delete_key(&first, 3), Ok(false));
    assert_eq!(keystore.delete_key(&second, 2), Ok(false));
    assert_eq!(keystore.keys().len(), 0);
}

fn owner() -> StoredAdnlNodeKey {
    StoredAdnlNodeKey::from_private_key([21; 32])
}

fn signed_value(ttl: u32) -> DhtValue {
    let owner = owner();
    let mut value = DhtValue {
        key: KeyDescription {
            key: DhtKey { id: *owner.id().as_slice(), name: b"address".to_vec(), idx: 0 },
            id: PublicKey::Ed25519 { key: *owner.full_id().public_key() },
            update_rule: UpdateRule::Signature,
            signature: vec![],
        },
        value: b"some address list".to_vec(),
        ttl,
        signature: vec![],
    };
    value.key.signature = owner.sign(&value.key.serialize_unsigned()).to_vec();
    value.signature = owner.sign(&value.serialize_unsigned()).to_vec();
    value
}

#[test]
fn signed_value_layout() {
    let value = signed_value(100);
    let owner = owner();
    let mut expected = vec![0x05, 0x4e, 0x1d, 0x28];
    expected.extend_from_slice(owner.id().as_slice());
    expected.extend_from_slice(&[7, b'a', b'd', b'd', b'r', b'e', b's', b's']);
    expected.extend_from_slice(&[0, 0, 0, 0]);
    expected.extend_from_slice(&[0xc6, 0xb4, 0x13, 0x48]);
    expected.extend_from_slice(owner.full_id().public_key());
    expected.extend_from_slice(&[0xf7, 0x31, 0x9f, 0xcc]);
    expected.extend_from_slice(&[0, 0, 0, 0]);
    assert_eq!(value.key.serialize_unsigned(), expected);
    let unsigned = value.serialize_unsigned();
    assert_eq!(&unsigned[..4], &[0xcb, 0x27, 0xad, 0x90]);
    // the key description stands in the value with its signature
    assert_eq!(&unsigned[4..expected.len() - 4], &expected[4..expected.len() - 4]);
    assert_eq!(unsigned[expected.len() - 4], 64);
    assert_eq!(unsigned.len(), expected.len() - 4 + 68 + 20 + 4 + 4);
    assert_eq!(&unsigned[unsigned.len() - 8..], &[100, 0, 0, 0, 0, 0, 0, 0]);
}

#[test]
fn public_keys_agree_with_another_encoder() {
    let samples = [
        (PublicKey::Ed25519 { key: [3; 32] }, everscale_crypto::tl::PublicKeyOwned::Ed25519 { key: [3; 32] }),
        (PublicKey::Aes { key: [4; 32] }, everscale_crypto::tl::PublicKeyOwned::Aes { key: [4; 32] }),
        (
            PublicKey::Overlay { name: b"overlay name".to_vec() },
            everscale_crypto::tl::PublicKeyOwned::Overlay { name: b"overlay name".to_vec() },
        ),
        (
            PublicKey::Unencoded { data: vec![9; 300] },
            everscale_crypto::tl::PublicKeyOwned::Unencoded { data: vec![9; 300] },
        ),
    ];
    for (ours, theirs) in samples {
        let mut encoded = Vec::new();
        ours.write_to(&mut encoded);
        assert_eq!(encoded, tl_proto::serialize(&theirs));
        assert_eq!(PublicKey::read_from(&encoded, 0), Some((ours.clone(), encoded.len())));
        assert!(ours.same(&ours.duplicate()));
        assert!(!ours.same(&PublicKey::Unencoded { data: vec![] }));
        for cut in 0..encoded.len() {
            assert_eq!(PublicKey::read_from(&encoded[..cut], 0), None);
        }
    }
    assert_eq!(PublicKey::read_from(&[1, 2, 3, 4, 5, 6, 7, 8], 0), None);
}

#[test]
fn signed_value_is_stored_by_ttl() {
    let mut storage = Storage::new();
    let key = [5; 32];
    assert_eq!(storage.insert_signed_value(key, signed_value(100)), Ok(true));
    assert_eq!(storage.get_ref(&key, 99), Some(&signed_value(100)));
    assert_eq!(storage.insert_signed_value(key, signed_value(100)), Ok(false));
    assert_eq!(storage.insert_signed_value(key, signed_value(99)), Ok(false));
    assert_eq!(storage.insert_signed_value(key, signed_value(101)), Ok(true));
    assert_eq!(storage.get_ref(&key, 100), Some(&signed_value(101)));
    assert_eq!(storage.len(), 1);
    assert_eq!(storage.total_size(), 17);
}

#[test]
fn value_with_a_wrong_signature_is_refused() {
    let mut storage = Storage::new();
    let key = [5; 32];
    let mut changed = signed_value(100);
    changed.value[0] ^= 1;
    assert_eq!(storage.insert_signed_value(key, changed), Err(StorageError::InvalidSignature));
    let mut changed = signed_value(100);
    changed.ttl += 1;
    assert_eq!(storage.insert_signed_value(key, changed), Err(StorageError::InvalidSignature));
    let mut changed = signed_value(100);
    changed.key.key.idx = 1;
    assert_eq!(storage.insert_signed_value(key, changed), Err(StorageError::InvalidSignature));
    let mut changed = signed_value(100);
    changed.signature.pop();
    assert_eq!(storage.insert_signed_value(key, changed), Err(StorageError::InvalidSignature));
    let mut changed = signed_value(100);
    changed.key.signature = changed.signature.clone();
    assert_eq!(storage.insert_signed_value(key, changed), Err(StorageError::InvalidSignature));
    // the value signature covers the signature of the key description
    let mut changed = signed_value(100);
    let other = StoredAdnlNodeKey::from_private_key([22; 32]);
    changed.key.id = PublicKey::Ed25519 { key: *other.full_id().public_key() };
    changed.key.signature = other.sign(&changed.key.serialize_unsigned()).to_vec();
    assert_eq!(storage.insert_signed_value(key, changed), Err(StorageError::InvalidSignature));
    let mut changed = signed_value(100);
    changed.key.id = PublicKey::Overlay { name: vec![1] };
    assert_eq!(storage.insert_signed_value(key, changed), Err(StorageError::UnsupportedPublicKey));
    let mut changed = signed_value(100);
    let mut off_curve = [0u8; 32];
    off_curve[0] = 2;
    changed.key.id = PublicKey::Ed25519 { key: off_curve };
    assert_eq!(storage.insert_signed_value(key, changed), Err(StorageError::UnsupportedPublicKey));
    let mut changed = signed_value(100);
    changed.value = vec![0; 0x100_0000];
    assert_eq!(storage.insert_signed_value(key, changed), Err(StorageError::InvalidValue));
    assert!(storage.is_empty());
}

const OVERLAY: &[u8] = b"some overlay";

fn overlay_id() -> [u8; 32] {
    let mut tagged = vec![0xcb, 0x45, 0xba, 0x34, 12];
    tagged.extend_from_slice(OVERLAY);
    tagged.extend_from_slice(&[0, 0, 0]);
    sha2::Sha256::digest(&tagged).into()
}

fn overlay_node(seed: u8, version: u32) -> OverlayNode {
    let owner = StoredAdnlNodeKey::from_private_key([seed; 32]);
    let (full, short) = owner.compute_node_ids();
    let to_sign = serialize_node_to_sign(short.as_slice(), &overlay_id(), version);
    OverlayNode {
        id: PublicKey::Ed25519 { key: *full.public_key() },
        overlay: overlay_id(),
        version,
        signature: owner.sign(&to_sign).to_vec(),
    }
}

/// The list of the given nodes.
fn listed(nodes: &[OverlayNode]) -> NodeList {
    let mut list = NodeList::new();
    for node in nodes {
        list.push(node.clone());
    }
    assert_eq!(list.len(), nodes.len());
    assert_eq!(list.is_empty(), nodes.is_empty());
    list
}

/// The nodes of an encoded list.
fn read_nodes(data: &[u8]) -> Option<Vec<OverlayNode>> {
    let list = deserialize_overlay_nodes(data)?;
    Some((0..list.len()).map(|i| list.get(i).clone()).collect())
}

fn nodes_value(nodes: &Vec<OverlayNode>, ttl: u32) -> DhtValue {
    DhtValue {
        key: KeyDescription {
            key: DhtKey { id: overlay_id(), name: b"nodes".to_vec(), idx: 0 },
            id: PublicKey::Overlay { name: OVERLAY.to_vec() },
            update_rule: UpdateRule::OverlayNodes,
            signature: vec![],
        },
        value: serialize_overlay_nodes(nodes),
        ttl,
        signature: vec![],
    }
}

#[test]
fn overlay_nodes_round_trip() {
    let nodes = vec![overlay_node(1, 5), overlay_node(2, 6)];
    let encoded = serialize_overlay_nodes(&nodes);
    assert_eq!(&encoded[..8], &[0x0e, 0x29, 0x87, 0xe4, 2, 0, 0, 0]);
    assert_eq!(encoded.len(), 8 + 2 * (36 + 32 + 4 + 68));
    assert_eq!(read_nodes(&encoded), Some(nodes));
    assert_eq!(read_nodes(&serialize_overlay_nodes(&vec![])), Some(vec![]));
    // more nodes than a list holds in place
    let many: Vec<OverlayNode> = (1..=7).map(|seed| overlay_node(seed, seed as u32)).collect();
    assert_eq!(read_nodes(&serialize_overlay_nodes(&many)), Some(many.clone()));
    assert_eq!(merge_overlay_nodes(&listed(&many[..3]), &listed(&many[3..])), many);
    for cut in 0..encoded.len() {
        assert_eq!(read_nodes(&encoded[..cut]), None);
    }
    let mut wrong_tag = encoded.clone();
    wrong_tag[0] ^= 1;
    assert_eq!(read_nodes(&wrong_tag), None);
    let short = [7u8; 32];
    let to_sign = serialize_node_to_sign(&short, &[8; 32], 9);
    assert_eq!(&to_sign[..4], &[0xe1, 0xa8, 0xd8, 0x03]);
    assert_eq!(&to_sign[4..36], &short);
    assert_eq!(&to_sign[36..68], &[8; 32]);
    assert_eq!(&to_sign[68..], &[9, 0, 0, 0]);
}

#[test]
fn overlay_node_is_checked_on_its_own() {
    let node = overlay_node(1, 5);
    assert!(verify_node(&overlay_id(), &node));
    assert!(!verify_node(&[0; 32], &node));
    assert!(!verify_node(&overlay_id(), &OverlayNode { version: 6, ..node.clone() }));
    assert!(!verify_node(&overlay_id(), &OverlayNode { overlay: [0; 32], ..node.clone() }));
    assert!(!verify_node(&overlay_id(), &OverlayNode { signature: vec![], ..node.clone() }));
    let stranger = overlay_node(2, 5);
    assert!(!verify_node(&overlay_id(), &OverlayNode { id: stranger.id, ..node.clone() }));
    let aes = PublicKey::Aes { key: [1; 32] };
    assert!(!verify_node(&overlay_id(), &OverlayNode { id: aes, ..node }));
}

#[test]
fn overlay_nodes_are_merged_by_key_and_version() {
    let old = vec![overlay_node(1, 5), overlay_node(2, 5), overlay_node(1, 3)];
    let new = vec![overlay_node(2, 4), overlay_node(3, 1), overlay_node(1, 4), overlay_node(3, 2)];
    // of the old nodes the last with a key counts; new nodes need a higher version
    assert_eq!(
        merge_overlay_nodes(&listed(&old), &listed(&new)),
        vec![overlay_node(1, 4), overlay_node(2, 5), overlay_node(3, 2)]
    );
    assert_eq!(merge_overlay_nodes(&listed(&[]), &listed(&new)), vec![overlay_node(2, 4), overlay_node(3, 2), overlay_node(1, 4)]);
    assert_eq!(merge_overlay_nodes(&listed(&old), &listed(&[])), vec![overlay_node(1, 3), overlay_node(2, 5)]);
    let value = nodes_value(&vec![], 50);
    let made = make_overlay_nodes_value(value.clone(), &listed(&new), Some(&listed(&old))).unwrap();
    assert_eq!(made.key, value.key);
    assert_eq!(made.ttl, 50);
    assert_eq!(
        read_nodes(&made.value),
        Some(vec![overlay_node(1, 4), overlay_node(2, 5), overlay_node(3, 2)])
    );
}

#[test]
fn overlay_nodes_are_stored_and_merged() {
    let mut storage = Storage::new();
    let key = [6; 32];
    let mut forged = overlay_node(9, 1);
    forged.signature[0] ^= 1;
    let offered = vec![overlay_node(1, 5), forged.clone(), overlay_node(2, 5)];
    assert_eq!(storage.insert_overlay_nodes(key, nodes_value(&offered, 100), 10), Ok(true));
    let stored = storage.get_ref(&key, 10).unwrap();
    assert_eq!(stored.ttl, 100);
    assert_eq!(
        read_nodes(&stored.value),
        Some(vec![overlay_node(1, 5), overlay_node(2, 5)])
    );
    // a list that lives shorter than the one kept is turned away
    let newer = vec![overlay_node(1, 6), overlay_node(3, 1)];
    assert_eq!(storage.insert_overlay_nodes(key, nodes_value(&newer, 99), 10), Ok(false));
    assert_eq!(storage.get_ref(&key, 10).unwrap().ttl, 100);
    // a list that lives as long or longer is merged in
    assert_eq!(storage.insert_overlay_nodes(key, nodes_value(&newer, 100), 10), Ok(true));
    assert_eq!(
        read_nodes(&storage.get_ref(&key, 10).unwrap().value),
        Some(vec![overlay_node(1, 6), overlay_node(2, 5), overlay_node(3, 1)])
    );
    // once the list kept has expired, the new list stands alone
    let fresh = vec![overlay_node(4, 1)];
    assert_eq!(storage.insert_overlay_nodes(key, nodes_value(&fresh, 50), 101), Ok(true));
    let stored = storage.get_ref(&key, 10).unwrap();
    assert_eq!(stored.ttl, 50);
    assert_eq!(read_nodes(&stored.value), Some(fresh));
    assert_eq!(storage.len(), 1);
}

#[test]
fn bad_overlay_node_lists_are_refused() {
    let mut storage = Storage::new();
    let key = [6; 32];
    let nodes = vec![overlay_node(1, 5)];
    let mut forged = overlay_node(9, 1);
    forged.signature[0] ^= 1;
    let good = nodes_value(&nodes, 100);
    let signed = DhtValue { signature: vec![1], ..good.clone() };
    assert_eq!(storage.insert_overlay_nodes(key, signed, 10), Err(StorageError::InvalidSignatureValue));
    let mut signed = good.clone();
    signed.key.signature = vec![1];
    assert_eq!(storage.insert_overlay_nodes(key, signed, 10), Err(StorageError::InvalidSignatureValue));
    let mut other_key = good.clone();
    other_key.key.id = PublicKey::Ed25519 { key: [1; 32] };
    assert_eq!(storage.insert_overlay_nodes(key, other_key, 10), Err(StorageError::InvalidKeyDescription));
    let mut other_name = good.clone();
    other_name.key.key.name = b"node".to_vec();
    assert_eq!(storage.insert_overlay_nodes(key, other_name, 10), Err(StorageError::InvalidDhtKey));
    let mut other_idx = good.clone();
    other_idx.key.key.idx = 1;
    assert_eq!(storage.insert_overlay_nodes(key, other_idx, 10), Err(StorageError::InvalidDhtKey));
    let mut other_overlay = good.clone();
    other_overlay.key.id = PublicKey::Overlay { name: b"another overlay".to_vec() };
    assert_eq!(storage.insert_overlay_nodes(key, other_overlay, 10), Err(StorageError::InvalidDhtKey));
    let mut garbage = good.clone();
    garbage.value = vec![1, 2, 3];
    assert_eq!(storage.insert_overlay_nodes(key, garbage, 10), Err(StorageError::InvalidValue));
    assert_eq!(
        storage.insert_overlay_nodes(key, nodes_value(&vec![forged], 100), 10),
        Err(StorageError::EmptyOverlayNodes)
    );
    assert_eq!(
        storage.insert_overlay_nodes(key, nodes_value(&vec![], 100), 10),
        Err(StorageError::EmptyOverlayNodes)
    );
    assert!(storage.is_empty());
    // a value kept that is no list of nodes stands in the way
    assert!(storage.insert_value(key, value(3, 100)));
    assert_eq!(storage.insert_overlay_nodes(key, good.clone(), 10), Err(StorageError::InvalidValue));
    assert_eq!(storage.insert_overlay_nodes(key, good, 101), Ok(true));
}

#[test]
fn find_gives_the_nodes_in_the_order_of_the_buckets() {
    let local = AdnlNodeIdShort::new([0; 32]);
    let mut buckets = Buckets::default();
    for first in [4u8, 2, 1, 0x80] {
        let id = key(&[(0, first)]);
        buckets.insert(&local, &AdnlNodeIdShort::new(id), node(id, first as u32));
    }
    // 5 differs from 0 in the bits 5 and 7
    let target = key(&[(0, 5)]);
    assert_eq!(
        buckets.find(&local, &target, 10),
        vec![node(key(&[(0, 4)]), 4), node(key(&[(0, 1)]), 1)]
    );
    assert_eq!(buckets.find(&local, &target, 1), vec![node(key(&[(0, 4)]), 4)]);
}

#[test]
fn total_size_counts_expired_values_too() {
    let mut storage = Storage::default();
    assert_eq!(storage.total_size(), 0);
    assert!(storage.insert_value([7; 32], value(12, 10)));
    assert_eq!(storage.get_ref(&[7; 32], 10), None);
    assert_eq!(storage.total_size(), 12);
}

#[test]
fn default_tables_are_empty() {
    assert!(Storage::default().is_empty());
    assert_eq!(Storage::default().total_size(), 0);
    assert!(Buckets::default().iter().iter().all(|bucket| bucket.is_empty()));
}
