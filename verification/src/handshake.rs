//! The handshake envelope, used while no channel with the peer is ready.
//!
//! Layout: the recipient's short id (32 bytes), the sender's ephemeral public
//! key (32), the SHA-256 of the plaintext (32), then the ciphertext.

use crate::cipher::{apply_packet_cipher, ciphered, lemma_cipher_involution};
use crate::crypto::{ed25519_key_valid, sha256, sha256_digest, x25519_shared_secret};
use crate::keys::KeyPair;
use crate::node_id::{bytes32_eq, AdnlNodeIdFull, AdnlNodeIdShort, StoredAdnlNodeKey};
use crate::table::Table;
use crate::tl::{copy_range, read_int256, write_raw};
use vstd::prelude::*;

verus! {

/// Length of the handshake header.
pub const HANDSHAKE_HEADER: usize = 96;

/// Why a handshake packet was refused.
#[derive(Debug, Copy, Clone, PartialEq, Eq, Structural)]
pub enum HandshakeError {
    /// The packet is shorter than its header.
    BadHandshakePacketLength,
    /// The plaintext does not have the checksum that the header gives.
    BadHandshakePacketChecksum,
    /// The sender's ephemeral key is no point of the curve.
    InvalidPublicKey,
}

/// The handshake packet for a body, sent to the holder of `peer_public` with
/// the ephemeral key pair of `temp_secret`.
pub open spec fn handshake_packet(
    peer_id: Seq<u8>,
    peer_public: Seq<u8>,
    body: Seq<u8>,
    temp_secret: Seq<u8>,
    temp_public: Seq<u8>,
) -> Seq<u8> {
    peer_id + temp_public + sha256(body)@ + ciphered(
        x25519_shared_secret(temp_secret, peer_public)@,
        sha256(body)@,
        body,
    )
}

/// The plaintext behind the header of a handshake packet. Where a length is
/// given, only so many bytes behind the header are deciphered, and what
/// follows them is taken as it stands.
pub open spec fn handshake_body(
    shared: Seq<u8>,
    packet: Seq<u8>,
    data_length: Option<usize>,
) -> Seq<u8> {
    match data_length {
        Some(n) => ciphered(
            shared,
            packet.subrange(64, 96),
            packet.subrange(96, 96 + n),
        ) + packet.skip(96 + n),
        None => ciphered(shared, packet.subrange(64, 96), packet.skip(96)),
    }
}

/// What a handshake packet holds for a set of local keys: nothing where its
/// first 32 bytes name none of them; else the short id named and the body,
/// where the body has the checksum of the header. The packet must hold the
/// header and, where a length is given, so many bytes behind it.
pub open spec fn parse_handshake(
    keys: Map<Seq<u8>, StoredAdnlNodeKey>,
    packet: Seq<u8>,
    data_length: Option<usize>,
) -> Result<Option<(Seq<u8>, Seq<u8>)>, HandshakeError> {
    if packet.len() < HANDSHAKE_HEADER || (data_length matches Some(n) && packet.len()
        < HANDSHAKE_HEADER + n) {
        Err(HandshakeError::BadHandshakePacketLength)
    } else if !keys.contains_key(packet.subrange(0, 32)) {
        Ok(None)
    } else if !ed25519_key_valid(packet.subrange(32, 64)) {
        Err(HandshakeError::InvalidPublicKey)
    } else {
        let key = keys[packet.subrange(0, 32)];
        let body = handshake_body(
            x25519_shared_secret(key.spec_private_key(), packet.subrange(32, 64))@,
            packet,
            data_length,
        );
        if sha256(body)@ == packet.subrange(64, 96) {
            Ok(Some((packet.subrange(0, 32), body)))
        } else {
            Err(HandshakeError::BadHandshakePacketChecksum)
        }
    }
}

/// Wraps the body in `buffer` into a handshake packet for a peer, with the
/// given ephemeral key pair.
pub fn build_handshake_packet_with(
    peer_id: &AdnlNodeIdShort,
    peer_id_full: &AdnlNodeIdFull,
    buffer: &mut Vec<u8>,
    temp_key: &KeyPair,
)
    ensures
        final(buffer)@ == handshake_packet(
            peer_id@,
            peer_id_full@,
            old(buffer)@,
            temp_key.secret_bytes(),
            temp_key.public_bytes(),
        ),
{
    let checksum = sha256_digest(buffer.as_slice());
    let shared = match temp_key.compute_shared_secret(peer_id_full.public_key()) {
        Some(shared) => shared,
        None => {
            assert(false);
            return ;
        },
    };
    let mut packet: Vec<u8> = Vec::new();
    write_raw(&mut packet, peer_id.as_slice().as_slice());
    write_raw(&mut packet, temp_key.public_key().as_slice());
    write_raw(&mut packet, checksum.as_slice());
    write_raw(&mut packet, buffer.as_slice());
    let ghost header = peer_id@ + temp_key.public_bytes() + checksum@;
    assert(packet@.take(96) =~= header);
    assert(packet@.skip(96) =~= old(buffer)@);
    apply_packet_cipher(&shared, &checksum, &mut packet, HANDSHAKE_HEADER);
    *buffer = packet;
}

/// Wraps the body in `buffer` into a handshake packet for a peer, with a
/// fresh ephemeral key pair.
pub fn build_handshake_packet(
    peer_id: &AdnlNodeIdShort,
    peer_id_full: &AdnlNodeIdFull,
    buffer: &mut Vec<u8>,
)
    ensures
        exists|temp_key: KeyPair|
            temp_key.wf() && final(buffer)@ == #[trigger] handshake_packet(
                peer_id@,
                peer_id_full@,
                old(buffer)@,
                temp_key.secret_bytes(),
                temp_key.public_bytes(),
            ),
{
    let temp_key = KeyPair::generate();
    build_handshake_packet_with(peer_id, peer_id_full, buffer, &temp_key);
}

/// Attempts to read `buffer` as a handshake packet for one of the local
/// keys. Where `data_length` is given, only so many bytes behind the header
/// are deciphered. On success the buffer holds the body. Where no local key
/// is named the buffer is left as it was; on an error it may have changed.
pub fn parse_handshake_packet(
    keys: &Table<StoredAdnlNodeKey>,
    buffer: &mut Vec<u8>,
    data_length: Option<usize>,
) -> (r: Result<Option<AdnlNodeIdShort>, HandshakeError>)
    requires
        keys.wf(),
    ensures
        match parse_handshake(keys@, old(buffer)@, data_length) {
            Ok(Some((id, body))) => r matches Ok(Some(found)) && found@ == id && final(buffer)@
                == body,
            Ok(None) => r matches Ok(None) && final(buffer)@ == old(buffer)@,
            Err(e) => r matches Err(got) && got == e,
        },
{
    if buffer.len() < HANDSHAKE_HEADER {
        return Err(HandshakeError::BadHandshakePacketLength);
    }
    let behind: usize = buffer.len() - HANDSHAKE_HEADER;
    let ciphered_len: usize = match data_length {
        Some(n) => {
            if n > behind {
                return Err(HandshakeError::BadHandshakePacketLength);
            }
            n
        },
        None => behind,
    };
    let local_id = read_int256(buffer.as_slice(), 0).unwrap();
    let key = match keys.get(&local_id) {
        Some(key) => key,
        None => return Ok(None),
    };
    let sender = read_int256(buffer.as_slice(), 32).unwrap();
    let checksum = read_int256(buffer.as_slice(), 64).unwrap();
    let shared = match key.private_key().compute_shared_secret(&sender) {
        Some(shared) => shared,
        None => return Err(HandshakeError::InvalidPublicKey),
    };
    let mut body = copy_range(buffer.as_slice(), HANDSHAKE_HEADER, ciphered_len);
    let rest = copy_range(
        buffer.as_slice(),
        HANDSHAKE_HEADER + ciphered_len,
        behind - ciphered_len,
    );
    apply_packet_cipher(&shared, &checksum, &mut body, 0);
    write_raw(&mut body, rest.as_slice());
    proof {
        let packet = old(buffer)@;
        let plain = ciphered(shared@, checksum@, packet.subrange(96, 96 + ciphered_len));
        assert(packet.subrange(96, 96 + ciphered_len).take(0) + ciphered(
            shared@,
            checksum@,
            packet.subrange(96, 96 + ciphered_len).skip(0),
        ) =~= plain);
        assert(rest@ =~= packet.skip(96 + ciphered_len));
        if data_length is None {
            assert(packet.subrange(96, 96 + ciphered_len) =~= packet.skip(96));
            assert(plain + rest@ =~= plain);
        }
        assert(body@ == handshake_body(shared@, packet, data_length));
    }
    let digest = sha256_digest(body.as_slice());
    if !bytes32_eq(&digest, &checksum) {
        return Err(HandshakeError::BadHandshakePacketChecksum);
    }
    *buffer = body;
    Ok(Some(AdnlNodeIdShort::new(local_id)))
}

/// A handshake packet built for a local key is read back by a key set that
/// holds that key: the key's short id and the body come out.
pub proof fn lemma_handshake_round_trip(
    keys: Map<Seq<u8>, StoredAdnlNodeKey>,
    key: StoredAdnlNodeKey,
    temp_key: KeyPair,
    body: Seq<u8>,
)
    requires
        key.wf(),
        temp_key.wf(),
        keys.contains_key(key.spec_id()),
        keys[key.spec_id()] == key,
    ensures
        parse_handshake(
            keys,
            handshake_packet(
                key.spec_id(),
                key.spec_full_id(),
                body,
                temp_key.secret_bytes(),
                temp_key.public_bytes(),
            ),
            None,
        ) matches Ok(Some((id, read))) && id == key.spec_id() && read == body,
{
    let checksum = sha256(body)@;
    let shared = x25519_shared_secret(temp_key.secret_bytes(), key.spec_full_id())@;
    let packet = handshake_packet(
        key.spec_id(),
        key.spec_full_id(),
        body,
        temp_key.secret_bytes(),
        temp_key.public_bytes(),
    );
    assert(packet.subrange(0, 32) =~= key.spec_id());
    assert(packet.subrange(32, 64) =~= temp_key.public_bytes());
    assert(packet.subrange(64, 96) =~= checksum);
    assert(packet.skip(96) =~= ciphered(shared, checksum, body));
    assert(x25519_shared_secret(key.spec_private_key(), temp_key.public_bytes())@ == shared);
    lemma_cipher_involution(shared, checksum, body);
}

/// A handshake packet addressed to a short id that the key set does not hold
/// is passed over without an error.
pub proof fn lemma_handshake_foreign(
    keys: Map<Seq<u8>, StoredAdnlNodeKey>,
    peer_id: Seq<u8>,
    peer_public: Seq<u8>,
    temp_key: KeyPair,
    body: Seq<u8>,
)
    requires
        peer_id.len() == 32,
        temp_key.wf(),
        !keys.contains_key(peer_id),
    ensures
        parse_handshake(
            keys,
            handshake_packet(
                peer_id,
                peer_public,
                body,
                temp_key.secret_bytes(),
                temp_key.public_bytes(),
            ),
            None,
        ) matches Ok(None),
{
    let packet = handshake_packet(
        peer_id,
        peer_public,
        body,
        temp_key.secret_bytes(),
        temp_key.public_bytes(),
    );
    assert(packet.subrange(0, 32) =~= peer_id);
}

} // verus!
