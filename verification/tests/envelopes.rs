use adnl::channel::{
    compute_channel_id, AdnlChannel, AdnlChannelError, ChannelCreationContext,
};
use adnl::cipher::{apply_packet_cipher, build_packet_cipher};
use adnl::handshake::{
    build_handshake_packet, build_handshake_packet_with, parse_handshake_packet, HandshakeError,
};
use adnl::keys::KeyPair;
use adnl::node_id::{AdnlNodeIdShort, StoredAdnlNodeKey};
use adnl::table::Table;
use sha2::Digest;

fn secret(seed: u8) -> [u8; 32] {
    let mut bytes = [0u8; 32];
    for (i, byte) in bytes.iter_mut().enumerate() {
        *byte = seed.wrapping_mul(17).wrapping_add((i as u8).wrapping_mul(3));
    }
    bytes
}

fn key_table(keys: &[StoredAdnlNodeKey]) -> Table<StoredAdnlNodeKey> {
    let mut table = Table::new();
    for key in keys {
        table.insert(*key.id().as_slice(), *key);
    }
    table
}

fn hex(text: &str) -> Vec<u8> {
    (0..text.len() / 2).map(|i| u8::from_str_radix(&text[2 * i..2 * i + 2], 16).unwrap()).collect()
}

#[test]
fn cipher_key_and_counter_are_xor_of_halves() {
    let shared: [u8; 32] = core::array::from_fn(|i| i as u8);
    let checksum: [u8; 32] = core::array::from_fn(|i| 0xf0 ^ (i as u8).wrapping_mul(5));
    let (key, iv) = build_packet_cipher(&shared, &checksum);
    for i in 0..16 {
        assert_eq!(key[i], shared[i] ^ checksum[i]);
        assert_eq!(iv[i], shared[16 + i] ^ checksum[16 + i]);
    }
    let (key, iv) = build_packet_cipher(&shared, &[0; 32]);
    assert_eq!(&key[..], &shared[..16]);
    assert_eq!(&iv[..], &shared[16..]);
}

#[test]
fn cipher_is_aes_128_in_counter_mode() {
    // NIST SP 800-38A, F.5.1, with a zero checksum so that the shared
    // secret is key and counter block as they stand
    let mut shared = [0u8; 32];
    shared[..16].copy_from_slice(&hex("2b7e151628aed2a6abf7158809cf4f3c"));
    shared[16..].copy_from_slice(&hex("f0f1f2f3f4f5f6f7f8f9fafbfcfdfeff"));
    let mut buffer = vec![0xaa, 0xbb];
    buffer.extend(hex(
        "6bc1bee22e409f96e93d7e117393172aae2d8a571e03ac9c9eb76fac45af8e5130c81c46a35ce411",
    ));
    apply_packet_cipher(&shared, &[0; 32], &mut buffer, 2);
    assert_eq!(&buffer[..2], &[0xaa, 0xbb]);
    assert_eq!(
        &buffer[2..],
        &hex("874d6191b620e3261bef6864990db6ce9806f66b7970fdff8617187bb9fffdff5ae4df3edbd5d35e")[..]
    );
}

#[test]
fn cipher_applied_twice_gives_the_data_back() {
    let shared = secret(1);
    let checksum = secret(2);
    let plain: Vec<u8> = (0..1000).map(|i| (i % 251) as u8).collect();
    let mut buffer = plain.clone();
    apply_packet_cipher(&shared, &checksum, &mut buffer, 10);
    assert_eq!(&buffer[..10], &plain[..10]);
    assert_ne!(&buffer[10..], &plain[10..]);
    apply_packet_cipher(&shared, &checksum, &mut buffer, 10);
    assert_eq!(buffer, plain);
    // nothing to do at the end of the buffer
    apply_packet_cipher(&shared, &checksum, &mut buffer, 1000);
    assert_eq!(buffer, plain);
}

#[test]
fn handshake_with_a_given_length() {
    let key = StoredAdnlNodeKey::from_private_key(secret(3));
    let keys = key_table(&[key]);
    let body: Vec<u8> = (0..300).map(|i| (i * 7) as u8).collect();
    let mut whole = body.clone();
    build_handshake_packet(key.id(), key.full_id(), &mut whole);
    // the length of all that is behind the header
    let mut buffer = whole.clone();
    assert_eq!(parse_handshake_packet(&keys, &mut buffer, Some(300)), Ok(Some(*key.id())));
    assert_eq!(buffer, body);
    // more than there is
    let mut buffer = whole.clone();
    assert_eq!(
        parse_handshake_packet(&keys, &mut buffer, Some(301)),
        Err(HandshakeError::BadHandshakePacketLength)
    );
    // only the first 100 bytes are enciphered, the rest follows in the clear
    let mut partly = whole.clone();
    partly[196..].copy_from_slice(&body[100..]);
    let mut buffer = partly.clone();
    assert_eq!(parse_handshake_packet(&keys, &mut buffer, Some(100)), Ok(Some(*key.id())));
    assert_eq!(buffer, body);
    let mut buffer = partly.clone();
    assert_eq!(
        parse_handshake_packet(&keys, &mut buffer, None),
        Err(HandshakeError::BadHandshakePacketChecksum)
    );
    let mut buffer = whole.clone();
    assert_eq!(
        parse_handshake_packet(&keys, &mut buffer, Some(100)),
        Err(HandshakeError::BadHandshakePacketChecksum)
    );
    // nothing is enciphered
    let mut clear = whole.clone();
    clear[96..].copy_from_slice(&body);
    assert_eq!(parse_handshake_packet(&keys, &mut clear, Some(0)), Ok(Some(*key.id())));
    assert_eq!(clear, body);
}

#[test]
fn handshake_round_trip() {
    let key = StoredAdnlNodeKey::from_private_key(secret(3));
    let other = StoredAdnlNodeKey::from_private_key(secret(4));
    let keys = key_table(&[other, key]);
    for body in [vec![], b"x".to_vec(), (0..5000).map(|i| i as u8).collect::<Vec<u8>>()] {
        let mut buffer = body.clone();
        build_handshake_packet(key.id(), key.full_id(), &mut buffer);
        assert_eq!(buffer.len(), body.len() + 96);
        assert_eq!(&buffer[..32], key.id().as_slice());
        let checksum: [u8; 32] = sha2::Sha256::digest(&body).into();
        assert_eq!(&buffer[64..96], &checksum);
        if !body.is_empty() {
            assert_ne!(&buffer[96..], &body[..]);
        }
        assert_eq!(parse_handshake_packet(&keys, &mut buffer, None), Ok(Some(*key.id())));
        assert_eq!(buffer, body);
    }
}

#[test]
fn handshake_layout_with_a_given_ephemeral_key() {
    let key = StoredAdnlNodeKey::from_private_key(secret(5));
    let temp = KeyPair::from_secret(secret(6));
    let body = b"hello handshake".to_vec();
    let mut buffer = body.clone();
    build_handshake_packet_with(key.id(), key.full_id(), &mut buffer, &temp);
    assert_eq!(&buffer[..32], key.id().as_slice());
    assert_eq!(&buffer[32..64], temp.public_key());
    let checksum: [u8; 32] = sha2::Sha256::digest(&body).into();
    assert_eq!(&buffer[64..96], &checksum);
    // the body is under the cipher of the shared secret and the checksum
    let shared = temp.compute_shared_secret(key.full_id().public_key()).unwrap();
    let mut expected = body.clone();
    apply_packet_cipher(&shared, &checksum, &mut expected, 0);
    assert_eq!(&buffer[96..], &expected[..]);
    // the same inputs give the same packet
    let mut again = body.clone();
    build_handshake_packet_with(key.id(), key.full_id(), &mut again, &temp);
    assert_eq!(again, buffer);
}

#[test]
fn handshake_for_another_key_is_passed_over() {
    let key = StoredAdnlNodeKey::from_private_key(secret(7));
    let stranger = StoredAdnlNodeKey::from_private_key(secret(8));
    let keys = key_table(&[key]);
    let mut buffer = b"not for you".to_vec();
    build_handshake_packet(stranger.id(), stranger.full_id(), &mut buffer);
    let before = buffer.clone();
    assert_eq!(parse_handshake_packet(&keys, &mut buffer, None), Ok(None));
    assert_eq!(buffer, before);
    assert_eq!(parse_handshake_packet(&key_table(&[]), &mut buffer, None), Ok(None));
}

#[test]
fn short_handshake_is_refused() {
    let key = StoredAdnlNodeKey::from_private_key(secret(9));
    let keys = key_table(&[key]);
    let mut buffer = vec![0u8; 95];
    buffer[..32].copy_from_slice(key.id().as_slice());
    assert_eq!(
        parse_handshake_packet(&keys, &mut buffer, None),
        Err(HandshakeError::BadHandshakePacketLength)
    );
    assert_eq!(
        parse_handshake_packet(&keys, &mut vec![], None),
        Err(HandshakeError::BadHandshakePacketLength)
    );
}

#[test]
fn tampered_handshake_is_refused() {
    let key = StoredAdnlNodeKey::from_private_key(secret(10));
    let keys = key_table(&[key]);
    let mut packet = b"some body".to_vec();
    build_handshake_packet(key.id(), key.full_id(), &mut packet);
    let mut body_changed = packet.clone();
    *body_changed.last_mut().unwrap() ^= 1;
    assert_eq!(
        parse_handshake_packet(&keys, &mut body_changed, None),
        Err(HandshakeError::BadHandshakePacketChecksum)
    );
    let mut checksum_changed = packet.clone();
    checksum_changed[70] ^= 1;
    assert_eq!(
        parse_handshake_packet(&keys, &mut checksum_changed, None),
        Err(HandshakeError::BadHandshakePacketChecksum)
    );
    let mut key_off_curve = packet.clone();
    key_off_curve[32..64].copy_from_slice(&[0; 32]);
    key_off_curve[32] = 2;
    assert_eq!(
        parse_handshake_packet(&keys, &mut key_off_curve, None),
        Err(HandshakeError::InvalidPublicKey)
    );
}

#[test]
fn empty_body_handshake_is_only_a_header() {
    let key = StoredAdnlNodeKey::from_private_key(secret(11));
    let keys = key_table(&[key]);
    let mut buffer = vec![];
    build_handshake_packet(key.id(), key.full_id(), &mut buffer);
    assert_eq!(buffer.len(), 96);
    assert_eq!(parse_handshake_packet(&keys, &mut buffer, None), Ok(Some(*key.id())));
    assert!(buffer.is_empty());
}

fn channel_pair() -> (AdnlChannel, AdnlChannel) {
    let a_key = KeyPair::from_secret(secret(20));
    let b_key = KeyPair::from_secret(secret(21));
    let a_id = AdnlNodeIdShort::new(secret(22));
    let b_id = AdnlNodeIdShort::new(secret(23));
    let a = AdnlChannel::new(
        a_id,
        b_id,
        &a_key,
        *b_key.public_key(),
        1000,
        ChannelCreationContext::CreateChannel,
    )
    .unwrap();
    let b = AdnlChannel::new(
        b_id,
        a_id,
        &b_key,
        *a_key.public_key(),
        2000,
        ChannelCreationContext::ConfirmChannel,
    )
    .unwrap();
    (a, b)
}

#[test]
fn channel_sides_fit() {
    let (a, b) = channel_pair();
    assert_eq!(a.ordinary_channel_out_id(), b.ordinary_channel_in_id());
    assert_eq!(a.priority_channel_out_id(), b.priority_channel_in_id());
    assert_eq!(b.ordinary_channel_out_id(), a.ordinary_channel_in_id());
    assert_eq!(b.priority_channel_out_id(), a.priority_channel_in_id());
    assert_ne!(a.ordinary_channel_out_id(), a.ordinary_channel_in_id());
    assert_ne!(a.ordinary_channel_out_id(), a.priority_channel_out_id());
    for priority in [false, true] {
        for body in [vec![], b"hello".to_vec(), vec![7u8; 3000]] {
            let mut buffer = body.clone();
            a.encrypt(&mut buffer, priority);
            assert_eq!(buffer.len(), body.len() + 64);
            let id = if priority { b.priority_channel_in_id() } else { b.ordinary_channel_in_id() };
            assert_eq!(&buffer[..32], id);
            assert_eq!(b.decrypt(&mut buffer, priority), Ok(()));
            assert_eq!(buffer, body);
            let mut buffer = body.clone();
            b.encrypt(&mut buffer, priority);
            assert_eq!(a.decrypt(&mut buffer, priority), Ok(()));
            assert_eq!(buffer, body);
        }
    }
}

#[test]
fn channel_packet_layout() {
    let (a, _) = channel_pair();
    let body = b"channel body".to_vec();
    let mut buffer = body.clone();
    a.encrypt(&mut buffer, false);
    assert_eq!(&buffer[..32], a.ordinary_channel_out_id());
    let checksum: [u8; 32] = sha2::Sha256::digest(&body).into();
    assert_eq!(&buffer[32..64], &checksum);
    assert_ne!(&buffer[64..], &body[..]);
}

#[test]
fn channel_id_is_hash_of_tagged_secret() {
    let secret_bytes = secret(30);
    let mut tagged = vec![0xd4, 0xad, 0xbc, 0x2d];
    tagged.extend_from_slice(&secret_bytes);
    let expected: [u8; 32] = sha2::Sha256::digest(&tagged).into();
    assert_eq!(compute_channel_id(&secret_bytes), expected);
}

#[test]
fn channel_refuses_wrong_class_short_and_tampered_packets() {
    let (a, b) = channel_pair();
    let mut buffer = b"payload of some length".to_vec();
    a.encrypt(&mut buffer, true);
    let mut wrong_class = buffer.clone();
    assert_eq!(
        b.decrypt(&mut wrong_class, false),
        Err(AdnlChannelError::InvalidChannelMessageChecksum)
    );
    let mut wrong_side = buffer.clone();
    assert_eq!(
        a.decrypt(&mut wrong_side, true),
        Err(AdnlChannelError::InvalidChannelMessageChecksum)
    );
    let mut tampered = buffer.clone();
    tampered[64] ^= 0x10;
    assert_eq!(
        b.decrypt(&mut tampered, true),
        Err(AdnlChannelError::InvalidChannelMessageChecksum)
    );
    let mut short = buffer[..63].to_vec();
    assert_eq!(b.decrypt(&mut short, true), Err(AdnlChannelError::ChannelMessageIsTooShort));
    assert_eq!(b.decrypt(&mut buffer, true), Ok(()));
}

#[test]
fn channel_with_key_off_the_curve_is_not_made() {
    let key = KeyPair::from_secret(secret(31));
    let mut off_curve = [0u8; 32];
    off_curve[0] = 2;
    let id = AdnlNodeIdShort::new(secret(32));
    assert!(AdnlChannel::new(id, id, &key, off_curve, 1, ChannelCreationContext::CreateChannel)
        .is_none());
}

#[test]
fn channel_readiness_validity_and_deadline() {
    let (mut a, b) = channel_pair();
    assert!(!a.ready());
    a.set_ready();
    assert!(a.ready());
    assert_eq!(a.peer_channel_date(), 1000);
    assert_eq!(b.peer_channel_date(), 2000);
    let peer_key = *a.peer_channel_public_key();
    assert!(a.is_still_valid(&peer_key, 1000));
    assert!(!a.is_still_valid(&peer_key, 1001));
    assert!(!a.is_still_valid(b.peer_channel_public_key(), 1000));
    assert_eq!(a.drop_timeout(), 0);
    assert_eq!(a.update_drop_timeout(100, 5), 0);
    assert_eq!(a.drop_timeout(), 105);
    assert_eq!(a.update_drop_timeout(200, 5), 105);
    assert_eq!(a.drop_timeout(), 105);
    a.reset_drop_timeout();
    assert_eq!(a.drop_timeout(), 0);
    assert_eq!(a.update_drop_timeout(u32::MAX - 1, 5), 0);
    assert_eq!(a.drop_timeout(), u32::MAX);
}
