//! The packet cipher: AES-128 in counter mode, keyed by the secret shared
//! with the peer and the checksum of the plaintext.

use crate::crypto::{aes_ctr_keystream, apply_aes_ctr, xor_bytes};
use vstd::prelude::*;

verus! {

/// The cipher key: the first halves of the shared secret and of the
/// checksum, XORed.
pub open spec fn cipher_key(shared: Seq<u8>, checksum: Seq<u8>) -> Seq<u8> {
    Seq::new(16, |i: int| shared[i] ^ checksum[i])
}

/// The initial counter block: the second halves of the shared secret and of
/// the checksum, XORed.
pub open spec fn cipher_iv(shared: Seq<u8>, checksum: Seq<u8>) -> Seq<u8> {
    Seq::new(16, |i: int| shared[16 + i] ^ checksum[16 + i])
}

/// Data under the packet cipher of a shared secret and a checksum. Applying
/// the cipher encrypts plaintext and decrypts ciphertext.
pub open spec fn ciphered(shared: Seq<u8>, checksum: Seq<u8>, data: Seq<u8>) -> Seq<u8> {
    xor_bytes(
        data,
        aes_ctr_keystream(cipher_key(shared, checksum), cipher_iv(shared, checksum), data.len()),
    )
}

proof fn lemma_xor_twice(a: u8, k: u8)
    by (bit_vector)
    ensures
        (a ^ k) ^ k == a,
{
}

/// Applying the packet cipher twice with the same secret and checksum gives
/// the data back.
pub proof fn lemma_cipher_involution(shared: Seq<u8>, checksum: Seq<u8>, data: Seq<u8>)
    ensures
        ciphered(shared, checksum, data).len() == data.len(),
        ciphered(shared, checksum, ciphered(shared, checksum, data)) == data,
{
    let stream = aes_ctr_keystream(
        cipher_key(shared, checksum),
        cipher_iv(shared, checksum),
        data.len(),
    );
    let once = ciphered(shared, checksum, data);
    let twice = ciphered(shared, checksum, once);
    assert forall|i: int| 0 <= i < data.len() implies twice[i] == data[i] by {
        lemma_xor_twice(data[i], stream[i]);
    }
    assert(twice =~= data);
}

/// Derives the key and the initial counter block of the packet cipher.
pub fn build_packet_cipher(shared_secret: &[u8; 32], checksum: &[u8; 32]) -> (params: (
    [u8; 16],
    [u8; 16],
))
    ensures
        params.0@ == cipher_key(shared_secret@, checksum@),
        params.1@ == cipher_iv(shared_secret@, checksum@),
{
    let mut key = [0u8; 16];
    let mut iv = [0u8; 16];
    let mut i: usize = 0;
    while i < 16
        invariant
            i <= 16,
            forall|j: int| 0 <= j < i ==> key@[j] == shared_secret@[j] ^ checksum@[j],
            forall|j: int| 0 <= j < i ==> iv@[j] == shared_secret@[16 + j] ^ checksum@[16 + j],
        decreases 16 - i,
    {
        key[i] = shared_secret[i] ^ checksum[i];
        iv[i] = shared_secret[16 + i] ^ checksum[16 + i];
        i += 1;
    }
    assert(key@ =~= cipher_key(shared_secret@, checksum@));
    assert(iv@ =~= cipher_iv(shared_secret@, checksum@));
    (key, iv)
}

/// Applies the packet cipher to the bytes of a buffer from `start` on.
pub fn apply_packet_cipher(
    shared_secret: &[u8; 32],
    checksum: &[u8; 32],
    buffer: &mut Vec<u8>,
    start: usize,
)
    requires
        start <= old(buffer)@.len(),
    ensures
        final(buffer)@ == old(buffer)@.take(start as int) + ciphered(
            shared_secret@,
            checksum@,
            old(buffer)@.skip(start as int),
        ),
{
    let (key, iv) = build_packet_cipher(shared_secret, checksum);
    apply_aes_ctr(&key, &iv, buffer, start);
}

} // verus!
