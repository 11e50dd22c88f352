use adnl::keys::KeyPair;
use adnl::node_id::{
    bytes32_eq, AdnlNodeIdFull, AdnlNodeIdShort, ComputeNodeIds, SignatureError, StoredAdnlNodeKey,
};
use sha2::Digest;

fn secret(seed: u8) -> [u8; 32] {
    let mut bytes = [0u8; 32];
    for (i, byte) in bytes.iter_mut().enumerate() {
        *byte = seed.wrapping_mul(31).wrapping_add(i as u8);
    }
    bytes
}

#[test]
fn zero_id_is_zero() {
    assert!(AdnlNodeIdShort::new([0u8; 32]).is_zero());
    let mut bytes = [0u8; 32];
    bytes[31] = 1;
    assert!(!AdnlNodeIdShort::new(bytes).is_zero());
    bytes[31] = 0;
    bytes[0] = 0x80;
    assert!(!AdnlNodeIdShort::new(bytes).is_zero());
}

#[test]
fn short_ids_are_ordered_by_their_bytes() {
    let mut low = [0u8; 32];
    low[31] = 0xff;
    let mut high = [0u8; 32];
    high[0] = 1;
    assert!(AdnlNodeIdShort::new(low) < AdnlNodeIdShort::new(high));
    assert!(AdnlNodeIdShort::new([0; 32]) < AdnlNodeIdShort::new(low));
    assert_eq!(AdnlNodeIdShort::new(low).max(AdnlNodeIdShort::new(high)), AdnlNodeIdShort::new(high));
    let mut ids = vec![AdnlNodeIdShort::new(high), AdnlNodeIdShort::new([0; 32]), AdnlNodeIdShort::new(low)];
    ids.sort();
    assert_eq!(
        ids,
        vec![AdnlNodeIdShort::new([0; 32]), AdnlNodeIdShort::new(low), AdnlNodeIdShort::new(high)]
    );
}

#[test]
fn short_id_keeps_its_bytes() {
    let bytes = secret(3);
    let id = AdnlNodeIdShort::new(bytes);
    assert_eq!(id.as_slice(), &bytes);
    assert_eq!(id, AdnlNodeIdShort::new(bytes));
    assert_ne!(id, AdnlNodeIdShort::new(secret(4)));
}

#[test]
fn bytes32_eq_compares_every_byte() {
    let a = secret(1);
    let mut b = a;
    assert!(bytes32_eq(&a, &b));
    b[31] ^= 1;
    assert!(!bytes32_eq(&a, &b));
    b[31] ^= 1;
    b[0] ^= 0x80;
    assert!(!bytes32_eq(&a, &b));
}

#[test]
fn short_id_hex_has_two_digits_per_byte() {
    let mut bytes = [0u8; 32];
    bytes[0] = 0xab;
    bytes[1] = 0x0c;
    bytes[31] = 0xf0;
    let text = AdnlNodeIdShort::new(bytes).to_hex();
    assert_eq!(text.len(), 64);
    assert_eq!(&text[..4], "ab0c");
    assert_eq!(&text[62..], "f0");
    assert_eq!(&text[4..62], "0".repeat(58));
}

#[test]
fn random_short_ids_differ() {
    assert_ne!(AdnlNodeIdShort::random(), AdnlNodeIdShort::random());
}

#[test]
fn public_key_of_known_secret() {
    let pair = KeyPair::from_secret([
        99, 87, 207, 105, 199, 108, 51, 89, 172, 108, 232, 48, 240, 147, 49, 155, 145, 60, 66, 55,
        98, 149, 119, 0, 251, 19, 132, 69, 151, 132, 184, 53,
    ]);
    assert_eq!(
        pair.public_key(),
        &[
            75, 54, 96, 93, 16, 21, 8, 159, 230, 42, 68, 148, 54, 18, 251, 196, 205, 254, 252, 114,
            76, 87, 204, 218, 132, 26, 196, 181, 191, 188, 115, 123
        ]
    );
}

#[test]
fn short_id_is_hash_of_tagged_key() {
    let pair = KeyPair::from_secret(secret(7));
    let full = AdnlNodeIdFull::from_key_pair(&pair);
    let mut tagged = vec![0xc6, 0xb4, 0x13, 0x48];
    tagged.extend_from_slice(pair.public_key());
    assert_eq!(full.as_tl(), tagged);
    let expected: [u8; 32] = sha2::Sha256::digest(&tagged).into();
    assert_eq!(full.compute_short_id().as_slice(), &expected);
    // the same key gives the same id, another key another id
    assert_eq!(full.compute_short_id(), AdnlNodeIdFull::from_key_pair(&pair).compute_short_id());
    let other = AdnlNodeIdFull::from_key_pair(&KeyPair::from_secret(secret(8)));
    assert_ne!(full.compute_short_id(), other.compute_short_id());
}

#[test]
fn full_id_refuses_bytes_off_the_curve() {
    let pair = KeyPair::from_secret(secret(9));
    assert!(AdnlNodeIdFull::new(*pair.public_key()).is_some());
    // y = 2 has no matching x on the curve
    let mut off_curve = [0u8; 32];
    off_curve[0] = 2;
    assert!(AdnlNodeIdFull::new(off_curve).is_none());
}

#[test]
fn signature_verifies_under_own_key_only() {
    let key = StoredAdnlNodeKey::from_private_key(secret(10));
    let other = StoredAdnlNodeKey::from_private_key(secret(11));
    let signature = key.sign(b"hello world");
    assert_eq!(key.full_id().verify(b"hello world", &signature), Ok(()));
    assert_eq!(
        key.full_id().verify(b"hello world!", &signature),
        Err(SignatureError::Mismatch)
    );
    assert_eq!(
        other.full_id().verify(b"hello world", &signature),
        Err(SignatureError::Mismatch)
    );
    assert_eq!(
        key.full_id().verify(b"hello world", &signature[..63]),
        Err(SignatureError::BadLength)
    );
}

#[test]
fn signature_agrees_with_another_ed25519_implementation() {
    let seed = secret(12);
    let key = StoredAdnlNodeKey::from_private_key(seed);
    let signature = key.sign(b"some message");
    let reference = ed25519_consensus::SigningKey::from(seed);
    assert_eq!(reference.verification_key().to_bytes(), *key.full_id().public_key());
    assert_eq!(reference.sign(b"some message").to_bytes(), signature);
}

#[test]
fn stored_key_parts_belong_together() {
    let seed = secret(13);
    let key = StoredAdnlNodeKey::from_private_key(seed);
    assert_eq!(key.private_key().secret_key(), &seed);
    assert_eq!(key.private_key().public_key(), key.full_id().public_key());
    assert_eq!(key.id(), &key.full_id().compute_short_id());
    let rebuilt =
        StoredAdnlNodeKey::from_id_and_private_key(*key.id(), *key.full_id(), key.private_key());
    assert_eq!(rebuilt.id(), key.id());
    assert_eq!(rebuilt.sign(b"x"), key.sign(b"x"));
}

#[test]
fn shared_secret_of_known_keys() {
    let first = KeyPair::from_secret([
        215, 30, 117, 171, 183, 9, 171, 48, 212, 45, 10, 198, 14, 66, 109, 80, 163, 180, 194, 66,
        82, 184, 13, 48, 240, 102, 40, 110, 156, 5, 13, 143,
    ]);
    let second = KeyPair::from_secret([
        181, 115, 13, 55, 26, 150, 138, 43, 66, 28, 162, 50, 0, 133, 120, 24, 20, 142, 183, 60,
        159, 53, 200, 97, 14, 123, 63, 249, 222, 211, 186, 99,
    ]);
    let expected = [
        30, 243, 238, 65, 216, 53, 237, 172, 6, 120, 204, 220, 34, 163, 18, 28, 181, 245, 215,
        233, 98, 0, 87, 11, 85, 6, 41, 130, 140, 95, 66, 72,
    ];
    assert_eq!(first.compute_shared_secret(second.public_key()), Some(expected));
    assert_eq!(second.compute_shared_secret(first.public_key()), Some(expected));
    let mut off_curve = [0u8; 32];
    off_curve[0] = 2;
    assert_eq!(first.compute_shared_secret(&off_curve), None);
}

#[test]
fn generated_pairs_share_a_secret() {
    let a = KeyPair::generate();
    let b = KeyPair::generate();
    assert_ne!(a.secret_key(), b.secret_key());
    let ab = a.compute_shared_secret(b.public_key());
    assert!(ab.is_some());
    assert_eq!(ab, b.compute_shared_secret(a.public_key()));
}

#[test]
fn default_short_id_is_zero() {
    assert!(AdnlNodeIdShort::default().is_zero());
    assert_eq!(AdnlNodeIdShort::default(), AdnlNodeIdShort::new([0; 32]));
}

#[test]
fn short_id_in_tagged_encoding() {
    let id = AdnlNodeIdShort::new(secret(14));
    let mut expected = vec![0x4f, 0x65, 0x3f, 0x3e];
    expected.extend_from_slice(&secret(14));
    assert_eq!(id.as_tl(), expected);
}

#[test]
fn node_ids_follow_from_keys() {
    let key = StoredAdnlNodeKey::from_private_key(secret(15));
    let (full, short) = key.compute_node_ids();
    assert_eq!(full.public_key(), key.full_id().public_key());
    assert_eq!(&short, key.id());
    let (again, short_again) = full.compute_node_ids();
    assert_eq!(again.public_key(), full.public_key());
    assert_eq!(short_again, short);
    assert_eq!(full.to_hex().len(), 64);
    assert_eq!(short.to_hex(), short.as_slice().iter().map(|b| format!("{b:02x}")).collect::<String>());
}
