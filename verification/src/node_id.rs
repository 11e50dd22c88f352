//! Node identities: the 32-byte short id and the full Ed25519 public key.

use crate::crypto::{
    ed25519_key_valid, ed25519_signature, ed25519_verifies, hex_encode, hex_string,
    is_valid_public_key, random_bytes, sha256, sha256_digest, verify_raw,
};
use crate::keys::{key_pair_matches, KeyPair};
use crate::packet::PUB_ED25519_ID;
use crate::tl::{u32_le, write_raw, write_u32};
use vstd::prelude::*;

verus! {

/// Short node id: the SHA-256 of the tagged encoding of an Ed25519 public key.
#[derive(Debug, Copy, Clone, Eq, Hash, PartialOrd, Ord)]
pub struct AdnlNodeIdShort(pub [u8; 32]);

impl View for AdnlNodeIdShort {
    type V = Seq<u8>;

    open spec fn view(&self) -> Seq<u8> {
        self.0@
    }
}

impl AdnlNodeIdShort {
    pub fn new(hash: [u8; 32]) -> (id: Self)
        ensures
            id.0 == hash,
    {
        Self(hash)
    }

    pub fn as_slice(&self) -> (bytes: &[u8; 32])
        ensures
            *bytes == self.0,
    {
        &self.0
    }

    /// True exactly when every byte of the id is zero.
    pub fn is_zero(&self) -> (zero: bool)
        ensures
            zero <==> forall|i: int| 0 <= i < 32 ==> self@[i] == 0,
    {
        let mut i: usize = 0;
        while i < 32
            invariant
                i <= 32,
                forall|j: int| 0 <= j < i ==> self@[j] == 0,
            decreases 32 - i,
        {
            if self.0[i] != 0 {
                assert(self@[i as int] != 0);
                return false;
            }
            i += 1;
        }
        true
    }
}

impl AdnlNodeIdShort {
    /// A random id.
    pub fn random() -> Self {
        Self(random_bytes())
    }

    /// The id in lower-case hexadecimal.
    pub fn to_hex(&self) -> (text: String)
        ensures
            text@ == hex_string(self@),
    {
        hex_encode(self.0.as_slice())
    }

    /// The id in its tagged encoding.
    pub fn as_tl(&self) -> (encoded: Vec<u8>)
        ensures
            encoded@ == u32_le(ADNL_ID_SHORT_ID) + self@,
    {
        let mut encoded: Vec<u8> = Vec::with_capacity(36);
        write_u32(&mut encoded, ADNL_ID_SHORT_ID);
        write_raw(&mut encoded, self.0.as_slice());
        encoded
    }
}

impl Default for AdnlNodeIdShort {
    fn default() -> (id: Self)
        ensures
            forall|i: int| 0 <= i < 32 ==> id@[i] == 0,
    {
        Self([0u8; 32])
    }
}

impl PartialEq for AdnlNodeIdShort {
    fn eq(&self, other: &Self) -> (equal: bool) {
        bytes32_eq(&self.0, &other.0)
    }
}

impl vstd::std_specs::cmp::PartialEqSpecImpl for AdnlNodeIdShort {
    open spec fn obeys_eq_spec() -> bool {
        true
    }

    open spec fn eq_spec(&self, other: &Self) -> bool {
        self@ == other@
    }
}

/// Compares two 32-byte arrays byte by byte.
pub fn bytes32_eq(a: &[u8; 32], b: &[u8; 32]) -> (equal: bool)
    ensures
        equal <==> a@ == b@,
{
    let mut i: usize = 0;
    while i < 32
        invariant
            i <= 32,
            forall|j: int| 0 <= j < i ==> a@[j] == b@[j],
        decreases 32 - i,
    {
        if a[i] != b[i] {
            return false;
        }
        i += 1;
    }
    assert(a@ =~= b@);
    true
}

/// The tagged encoding of an Ed25519 public key: the key type's tag, then
/// the key.
pub open spec fn tagged_key(public: Seq<u8>) -> Seq<u8> {
    u32_le(PUB_ED25519_ID) + public
}

/// Tag of a short id in its encoded form.
pub const ADNL_ID_SHORT_ID: u32 = 0x3e3f654f;

/// The short id of a public key: the SHA-256 of its tagged encoding.
pub open spec fn short_id_of(public: Seq<u8>) -> Seq<u8> {
    sha256(tagged_key(public))@
}

/// Why a signature was not accepted.
#[derive(Debug, Copy, Clone, PartialEq, Eq, Structural)]
pub enum SignatureError {
    /// The signature is not 64 bytes long.
    BadLength,
    /// The signature does not belong to the message and the key.
    Mismatch,
}

/// Full node id: an Ed25519 public key that is a point of the curve.
#[derive(Debug, Copy, Clone)]
pub struct AdnlNodeIdFull([u8; 32]);

impl View for AdnlNodeIdFull {
    type V = Seq<u8>;

    closed spec fn view(&self) -> Seq<u8> {
        self.0@
    }
}

impl AdnlNodeIdFull {
    #[verifier::type_invariant]
    spec fn valid(self) -> bool {
        ed25519_key_valid(self.0@)
    }

    /// Accepts the bytes of a public key where they are a point of the curve.
    pub fn new(public_key: [u8; 32]) -> (id: Option<Self>)
        ensures
            id.is_some() == ed25519_key_valid(public_key@),
            id matches Some(full) ==> full@ == public_key@,
    {
        if is_valid_public_key(&public_key) {
            Some(Self(public_key))
        } else {
            None
        }
    }

    /// The id that belongs to a key pair.
    pub fn from_key_pair(pair: &KeyPair) -> (id: Self)
        requires
            pair.wf(),
        ensures
            id@ == pair.public_bytes(),
    {
        Self(*pair.public_key())
    }

    pub fn public_key(&self) -> (key: &[u8; 32])
        ensures
            key@ == self@,
            ed25519_key_valid(key@),
    {
        proof {
            use_type_invariant(self);
        }
        &self.0
    }

    /// The key in its tagged encoding.
    pub fn as_tl(&self) -> (encoded: Vec<u8>)
        ensures
            encoded@ == tagged_key(self@),
    {
        let mut encoded: Vec<u8> = Vec::with_capacity(36);
        write_u32(&mut encoded, PUB_ED25519_ID);
        write_raw(&mut encoded, self.0.as_slice());
        encoded
    }

    /// Checks a signature of a message under this key.
    pub fn verify(&self, message: &[u8], other_signature: &[u8]) -> (r: Result<(), SignatureError>)
        ensures
            r is Ok <==> other_signature@.len() == 64 && ed25519_verifies(
                self@,
                message@,
                other_signature@,
            ),
            r matches Err(e) ==> e == if other_signature@.len() != 64 {
                SignatureError::BadLength
            } else {
                SignatureError::Mismatch
            },
    {
        if other_signature.len() != 64 {
            return Err(SignatureError::BadLength);
        }
        let mut signature = [0u8; 64];
        let mut i: usize = 0;
        while i < 64
            invariant
                i <= 64,
                other_signature@.len() == 64,
                forall|j: int| 0 <= j < i ==> signature@[j] == other_signature@[j],
            decreases 64 - i,
        {
            signature[i] = other_signature[i];
            i += 1;
        }
        assert(signature@ =~= other_signature@);
        if verify_raw(&self.0, message, &signature) {
            Ok(())
        } else {
            Err(SignatureError::Mismatch)
        }
    }

    /// The short id: the SHA-256 of the key's tagged encoding.
    pub fn compute_short_id(&self) -> (id: AdnlNodeIdShort)
        ensures
            id@ == short_id_of(self@),
    {
        let encoded = self.as_tl();
        AdnlNodeIdShort::new(sha256_digest(encoded.as_slice()))
    }

    /// The key in lower-case hexadecimal.
    pub fn to_hex(&self) -> (text: String)
        ensures
            text@ == hex_string(self@),
    {
        hex_encode(self.0.as_slice())
    }
}

/// A local identity: a secret key with its full and short id.
#[derive(Debug, Copy, Clone)]
pub struct StoredAdnlNodeKey {
    short_id: AdnlNodeIdShort,
    full_id: AdnlNodeIdFull,
    private_key: KeyPair,
}

impl StoredAdnlNodeKey {
    /// The short id held.
    pub closed spec fn spec_id(&self) -> Seq<u8> {
        self.short_id@
    }

    /// The public key held.
    pub closed spec fn spec_full_id(&self) -> Seq<u8> {
        self.full_id@
    }

    /// The secret key held.
    pub closed spec fn spec_private_key(&self) -> Seq<u8> {
        self.private_key.secret_bytes()
    }

    /// The key pair's own public half agrees with the full id held.
    pub closed spec fn pair_consistent(&self) -> bool {
        self.private_key.wf() && self.private_key.public_bytes() == self.full_id@
    }

    /// The three parts belong together: the public key is the secret's, the
    /// short id is the public key's.
    pub open spec fn wf(&self) -> bool {
        &&& self.pair_consistent()
        &&& key_pair_matches(self.spec_private_key(), self.spec_full_id())
        &&& self.spec_id() == short_id_of(self.spec_full_id())
    }

    /// Puts the three parts together as they are given.
    pub fn from_id_and_private_key(
        short_id: AdnlNodeIdShort,
        full_id: AdnlNodeIdFull,
        private_key: &KeyPair,
    ) -> (key: Self)
        ensures
            key.spec_id() == short_id@,
            key.spec_full_id() == full_id@,
            key.spec_private_key() == private_key.secret_bytes(),
            private_key.wf() && private_key.public_bytes() == full_id@ && short_id@
                == short_id_of(full_id@) ==> key.wf(),
    {
        Self { short_id, full_id, private_key: *private_key }
    }

    /// The identity of a secret key.
    pub fn from_private_key(private_key: [u8; 32]) -> (key: Self)
        ensures
            key.wf(),
            key.spec_private_key() == private_key@,
    {
        let pair = KeyPair::from_secret(private_key);
        let full_id = AdnlNodeIdFull::from_key_pair(&pair);
        let short_id = full_id.compute_short_id();
        Self { short_id, full_id, private_key: pair }
    }

    pub fn id(&self) -> (id: &AdnlNodeIdShort)
        ensures
            id@ == self.spec_id(),
    {
        &self.short_id
    }

    pub fn full_id(&self) -> (id: &AdnlNodeIdFull)
        ensures
            id@ == self.spec_full_id(),
    {
        &self.full_id
    }

    pub fn private_key(&self) -> (key: &KeyPair)
        ensures
            key.secret_bytes() == self.spec_private_key(),
            self.wf() ==> key.wf() && key.public_bytes() == self.spec_full_id(),
    {
        &self.private_key
    }

    /// Signs data with the secret key.
    pub fn sign(&self, data: &[u8]) -> (signature: [u8; 64])
        ensures
            signature == ed25519_signature(self.spec_private_key(), data@),
            self.wf() ==> ed25519_verifies(self.spec_full_id(), data@, signature@),
    {
        self.private_key.sign(data)
    }
}

/// Keys from which the ids of a node follow.
pub trait ComputeNodeIds {
    /// The public key that the ids are made from.
    spec fn node_public_key(&self) -> Seq<u8>;

    /// The full id and the short id of the key.
    fn compute_node_ids(&self) -> (ids: (AdnlNodeIdFull, AdnlNodeIdShort))
        ensures
            ids.0@ == self.node_public_key(),
            ids.1@ == short_id_of(self.node_public_key()),
    ;
}

impl ComputeNodeIds for StoredAdnlNodeKey {
    open spec fn node_public_key(&self) -> Seq<u8> {
        self.spec_full_id()
    }

    fn compute_node_ids(&self) -> (ids: (AdnlNodeIdFull, AdnlNodeIdShort)) {
        (self.full_id, self.full_id.compute_short_id())
    }
}

impl ComputeNodeIds for AdnlNodeIdFull {
    open spec fn node_public_key(&self) -> Seq<u8> {
        self@
    }

    fn compute_node_ids(&self) -> (ids: (AdnlNodeIdFull, AdnlNodeIdShort)) {
        (*self, self.compute_short_id())
    }
}

} // verus!
