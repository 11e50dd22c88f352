//! Cryptographic primitives the node relies on. Each function here hands its
//! arguments to an outside crate; its contract is taken on trust.

use aes::cipher::{KeyIvInit, StreamCipher};
use everscale_crypto::ed25519;
use rand::Rng;
use sha2::Digest;
use vstd::prelude::*;

verus! {

/// SHA-256 of a byte string.
pub uninterp spec fn sha256(data: Seq<u8>) -> [u8; 32];

/// The AES-128-CTR keystream of the given length for a key and an initial
/// counter block.
pub uninterp spec fn aes_ctr_keystream(key: Seq<u8>, iv: Seq<u8>, len: nat) -> Seq<u8>;

/// The Ed25519 public key that belongs to a 32-byte secret key.
pub uninterp spec fn ed25519_public_key(secret: Seq<u8>) -> [u8; 32];

/// Whether 32 bytes are the encoding of a point on the curve.
pub uninterp spec fn ed25519_key_valid(public: Seq<u8>) -> bool;

/// The Ed25519 signature of a message under a secret key.
pub uninterp spec fn ed25519_signature(secret: Seq<u8>, message: Seq<u8>) -> [u8; 64];

/// Whether a signature is accepted for a message under a public key.
pub uninterp spec fn ed25519_verifies(public: Seq<u8>, message: Seq<u8>, signature: Seq<u8>) -> bool;

/// The X25519 secret shared between a secret key and another party's public key.
pub uninterp spec fn x25519_shared_secret(secret: Seq<u8>, public: Seq<u8>) -> [u8; 32];

/// Byte-wise exclusive or of two strings, as long as the first.
pub open spec fn xor_bytes(data: Seq<u8>, mask: Seq<u8>) -> Seq<u8> {
    Seq::new(data.len(), |i: int| data[i] ^ mask[i])
}

/// `sha2::Sha256::digest`: the digest is a function of the input alone and
/// is 32 bytes long.
#[verifier::external_body]
pub(crate) fn sha256_digest(data: &[u8]) -> (digest: [u8; 32])
    ensures
        digest == sha256(data@),
{
    sha2::Sha256::digest(data).into()
}

/// `StreamCipher::apply_keystream` of AES-128 in CTR mode with a 128-bit
/// big-endian counter: every byte from `start` on is XORed with the keystream
/// that the key and the initial counter block determine; the bytes before
/// `start` are left as they were.
#[verifier::external_body]
pub(crate) fn apply_aes_ctr(key: &[u8; 16], iv: &[u8; 16], buffer: &mut Vec<u8>, start: usize)
    requires
        start <= old(buffer)@.len(),
    ensures
        final(buffer)@ == old(buffer)@.take(start as int) + xor_bytes(
            old(buffer)@.skip(start as int),
            aes_ctr_keystream(key@, iv@, (old(buffer)@.len() - start) as nat),
        ),
{
    let mut cipher = ctr::Ctr128BE::<aes::Aes128>::new(key.into(), iv.into());
    cipher.apply_keystream(&mut buffer[start..]);
}

/// `PublicKey::from(&SecretKey)`: the public key is a function of the secret
/// alone and is a valid curve point. Two parties that each combine their own
/// secret with the other's public key obtain the same shared secret.
#[verifier::external_body]
pub(crate) fn public_key_of(secret: &[u8; 32]) -> (public: [u8; 32])
    ensures
        public == ed25519_public_key(secret@),
        ed25519_key_valid(public@),
        forall|other: Seq<u8>|
            other.len() == 32 ==> #[trigger] x25519_shared_secret(other, public@)
                == x25519_shared_secret(secret@, ed25519_public_key(other)@),
{
    ed25519::PublicKey::from(&ed25519::SecretKey::from_bytes(*secret)).to_bytes()
}

/// `PublicKey::from_bytes`: tells whether the bytes decode to a curve point.
#[verifier::external_body]
pub(crate) fn is_valid_public_key(public: &[u8; 32]) -> (valid: bool)
    ensures
        valid == ed25519_key_valid(public@),
{
    ed25519::PublicKey::from_bytes(*public).is_some()
}

/// `KeyPair::sign_raw`: signing is deterministic, and the signature is
/// accepted under the public key of the same secret.
#[verifier::external_body]
pub(crate) fn sign_raw(secret: &[u8; 32], message: &[u8]) -> (signature: [u8; 64])
    ensures
        signature == ed25519_signature(secret@, message@),
        ed25519_verifies(ed25519_public_key(secret@)@, message@, signature@),
{
    ed25519::KeyPair::from(&ed25519::SecretKey::from_bytes(*secret)).sign_raw(message)
}

/// `PublicKey::verify_raw` on a key decoded by `PublicKey::from_bytes`: bytes
/// that are no curve point verify nothing.
#[verifier::external_body]
pub(crate) fn verify_raw(public: &[u8; 32], message: &[u8], signature: &[u8; 64]) -> (accepted:
    bool)
    ensures
        accepted == ed25519_verifies(public@, message@, signature@),
        accepted ==> ed25519_key_valid(public@),
{
    match ed25519::PublicKey::from_bytes(*public) {
        Some(key) => key.verify_raw(message, signature),
        None => false,
    }
}

/// `ExpandedSecretKey::compute_shared_secret` against a key decoded by
/// `PublicKey::from_bytes`: `None` exactly when the bytes are no curve point.
#[verifier::external_body]
pub(crate) fn shared_secret(secret: &[u8; 32], public: &[u8; 32]) -> (shared: Option<[u8; 32]>)
    ensures
        shared.is_some() == ed25519_key_valid(public@),
        shared matches Some(bytes) ==> bytes == x25519_shared_secret(secret@, public@),
{
    match ed25519::PublicKey::from_bytes(*public) {
        Some(key) => Some(ed25519::SecretKey::from_bytes(*secret).expand().compute_shared_secret(&key)),
        None => None,
    }
}

/// `Rng::gen` on the thread-local generator: 32 bytes of which nothing is known.
#[verifier::external_body]
pub(crate) fn random_bytes() -> (bytes: [u8; 32]) {
    rand::thread_rng().gen()
}

/// The lower-case hexadecimal digit of a value below 16.
pub open spec fn hex_digit(nibble: u8) -> char {
    if nibble < 10 {
        (48 + nibble) as char
    } else {
        (87 + nibble) as char
    }
}

/// The lower-case hexadecimal text of a byte string, two digits per byte.
pub open spec fn hex_string(bytes: Seq<u8>) -> Seq<char> {
    Seq::new(
        2 * bytes.len(),
        |i: int|
            if i % 2 == 0 {
                hex_digit(bytes[i / 2] / 16)
            } else {
                hex_digit(bytes[i / 2] % 16)
            },
    )
}

/// `hex::encode`: two lower-case hexadecimal digits per byte, the high
/// half first.
#[verifier::external_body]
pub(crate) fn hex_encode(bytes: &[u8]) -> (text: String)
    ensures
        text@ == hex_string(bytes@),
{
    hex::encode(bytes)
}

} // verus!
