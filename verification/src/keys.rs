//! Ed25519 key pairs, as used for identities and for ephemeral channel keys.

use crate::crypto::{
    ed25519_key_valid, ed25519_public_key, ed25519_signature, ed25519_verifies, public_key_of,
    random_bytes, shared_secret, sign_raw, x25519_shared_secret,
};
use vstd::prelude::*;

verus! {

/// Whether a public key belongs to a secret key: it is the secret's public
/// key, it is a point of the curve, and whoever combines it with a secret of
/// their own shares a secret with the holder of this pair.
pub open spec fn key_pair_matches(secret: Seq<u8>, public: Seq<u8>) -> bool {
    &&& secret.len() == 32
    &&& public == ed25519_public_key(secret)@
    &&& ed25519_key_valid(public)
    &&& forall|other: Seq<u8>|
        other.len() == 32 ==> #[trigger] x25519_shared_secret(other, public)
            == x25519_shared_secret(secret, ed25519_public_key(other)@)
}

/// A secret key with its public key.
#[derive(Debug, Copy, Clone)]
pub struct KeyPair {
    secret: [u8; 32],
    public: [u8; 32],
}

impl KeyPair {
    /// The secret half.
    pub closed spec fn secret_bytes(&self) -> Seq<u8> {
        self.secret@
    }

    /// The public half.
    pub closed spec fn public_bytes(&self) -> Seq<u8> {
        self.public@
    }

    /// The two halves belong together.
    pub open spec fn wf(&self) -> bool {
        key_pair_matches(self.secret_bytes(), self.public_bytes())
    }

    /// The pair of a secret key.
    pub fn from_secret(secret: [u8; 32]) -> (pair: Self)
        ensures
            pair.wf(),
            pair.secret_bytes() == secret@,
    {
        Self { secret, public: public_key_of(&secret) }
    }

    /// A fresh random pair.
    pub fn generate() -> (pair: Self)
        ensures
            pair.wf(),
    {
        Self::from_secret(random_bytes())
    }

    pub fn secret_key(&self) -> (secret: &[u8; 32])
        ensures
            secret@ == self.secret_bytes(),
    {
        &self.secret
    }

    pub fn public_key(&self) -> (public: &[u8; 32])
        ensures
            public@ == self.public_bytes(),
    {
        &self.public
    }

    /// The secret shared with the holder of another public key; `None` where
    /// those bytes are no point of the curve.
    pub fn compute_shared_secret(&self, other_public_key: &[u8; 32]) -> (shared: Option<[u8; 32]>)
        ensures
            shared.is_some() == ed25519_key_valid(other_public_key@),
            shared matches Some(bytes) ==> bytes == x25519_shared_secret(
                self.secret_bytes(),
                other_public_key@,
            ),
    {
        shared_secret(&self.secret, other_public_key)
    }

    /// Signs data with the secret key.
    pub fn sign(&self, data: &[u8]) -> (signature: [u8; 64])
        ensures
            signature == ed25519_signature(self.secret_bytes(), data@),
            self.wf() ==> ed25519_verifies(self.public_bytes(), data@, signature@),
    {
        sign_raw(&self.secret, data)
    }
}

/// Two pairs share one secret: each side's secret with the other's public
/// key gives the same bytes.
pub proof fn lemma_shared_secret_agrees(a: KeyPair, b: KeyPair)
    requires
        a.wf(),
        b.wf(),
    ensures
        x25519_shared_secret(a.secret_bytes(), b.public_bytes()) == x25519_shared_secret(
            b.secret_bytes(),
            a.public_bytes(),
        ),
{
}

} // verus!
