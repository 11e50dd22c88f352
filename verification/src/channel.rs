//! Channels: the symmetric envelope that two peers use once they have
//! exchanged ephemeral keys.
//!
//! Layout of a channel packet: the id of the receiver's sub-channel
//! (32 bytes), the SHA-256 of the plaintext (32), then the ciphertext.

use crate::cipher::{apply_packet_cipher, ciphered, lemma_cipher_involution};
use crate::crypto::{ed25519_key_valid, sha256, sha256_digest, x25519_shared_secret};
use crate::keys::{lemma_shared_secret_agrees, KeyPair};
use crate::node_id::{bytes32_eq, AdnlNodeIdShort};
use crate::tl::{copy_range, read_int256, u32_le, write_raw, write_u32};
use vstd::prelude::*;

verus! {

/// Length of the channel header.
pub const CHANNEL_HEADER: usize = 64;

/// Tag of a symmetric key in its encoded form.
pub const PUB_AES_ID: u32 = 0x2dbcadd4;

/// Which message made a node create its side of a channel.
#[derive(Debug, Copy, Clone, PartialEq, Eq, Structural)]
pub enum ChannelCreationContext {
    CreateChannel,
    ConfirmChannel,
}

/// Why a channel packet was refused.
#[derive(Debug, Copy, Clone, PartialEq, Eq, Structural)]
pub enum AdnlChannelError {
    /// The packet is shorter than its header.
    ChannelMessageIsTooShort,
    /// The plaintext does not have the checksum that the header gives.
    InvalidChannelMessageChecksum,
}

/// A byte string back to front.
pub open spec fn reversed(secret: Seq<u8>) -> Seq<u8> {
    Seq::new(secret.len(), |i: int| secret[secret.len() - 1 - i])
}

/// The secret of the priority sub-channel: the two halves of the ordinary
/// secret, swapped.
pub open spec fn priority_secret(secret: Seq<u8>) -> Seq<u8> {
    secret.subrange(16, 32) + secret.subrange(0, 16)
}

/// The secret of a sub-channel of a direction.
pub open spec fn sub_secret(secret: Seq<u8>, priority: bool) -> Seq<u8> {
    if priority {
        priority_secret(secret)
    } else {
        secret
    }
}

/// The id of a sub-channel: the SHA-256 of its secret, tagged as a symmetric
/// key.
pub open spec fn channel_id(secret: Seq<u8>) -> Seq<u8> {
    sha256(u32_le(PUB_AES_ID) + secret)@
}

/// The secret of the direction from the initiator to the responder.
pub open spec fn forward_secret(shared: Seq<u8>) -> Seq<u8> {
    shared
}

/// The secret of the direction from the responder to the initiator.
pub open spec fn backward_secret(shared: Seq<u8>) -> Seq<u8> {
    reversed(shared)
}

/// The secret a side sends with: the side that answers a `CreateChannel`
/// takes the initiator's part, the side that answers a `ConfirmChannel` the
/// responder's.
pub open spec fn out_secret_of(shared: Seq<u8>, context: ChannelCreationContext) -> Seq<u8> {
    match context {
        ChannelCreationContext::CreateChannel => forward_secret(shared),
        ChannelCreationContext::ConfirmChannel => backward_secret(shared),
    }
}

/// The secret a side receives with.
pub open spec fn in_secret_of(shared: Seq<u8>, context: ChannelCreationContext) -> Seq<u8> {
    match context {
        ChannelCreationContext::CreateChannel => backward_secret(shared),
        ChannelCreationContext::ConfirmChannel => forward_secret(shared),
    }
}

/// The channel packet for a body under a direction's secret.
pub open spec fn channel_packet(secret: Seq<u8>, priority: bool, body: Seq<u8>) -> Seq<u8> {
    channel_id(sub_secret(secret, priority)) + sha256(body)@ + ciphered(
        sub_secret(secret, priority),
        sha256(body)@,
        body,
    )
}

/// The body of a channel packet under a direction's secret, where the body
/// has the checksum of the header.
pub open spec fn channel_body(secret: Seq<u8>, priority: bool, packet: Seq<u8>) -> Result<
    Seq<u8>,
    AdnlChannelError,
> {
    if packet.len() < CHANNEL_HEADER {
        Err(AdnlChannelError::ChannelMessageIsTooShort)
    } else {
        let body = ciphered(sub_secret(secret, priority), packet.subrange(32, 64), packet.skip(64));
        if sha256(body)@ == packet.subrange(32, 64) {
            Ok(body)
        } else {
            Err(AdnlChannelError::InvalidChannelMessageChecksum)
        }
    }
}

/// A channel as plain values.
pub struct ChannelView {
    pub ready: bool,
    pub local_id: Seq<u8>,
    pub peer_id: Seq<u8>,
    pub peer_channel_public_key: Seq<u8>,
    pub peer_channel_date: u32,
    pub drop_timeout: u32,
    pub in_secret: Seq<u8>,
    pub out_secret: Seq<u8>,
}

impl ChannelView {
    /// The id under which ordinary packets arrive.
    pub open spec fn ordinary_in_id(self) -> Seq<u8> {
        channel_id(self.in_secret)
    }

    /// The id under which priority packets arrive.
    pub open spec fn priority_in_id(self) -> Seq<u8> {
        channel_id(priority_secret(self.in_secret))
    }

    /// The id under which ordinary packets leave.
    pub open spec fn ordinary_out_id(self) -> Seq<u8> {
        channel_id(self.out_secret)
    }

    /// The id under which priority packets leave.
    pub open spec fn priority_out_id(self) -> Seq<u8> {
        channel_id(priority_secret(self.out_secret))
    }

    /// The channel that one side derives.
    pub open spec fn created(
        local_id: Seq<u8>,
        peer_id: Seq<u8>,
        local_secret: Seq<u8>,
        peer_channel_public_key: Seq<u8>,
        peer_channel_date: u32,
        context: ChannelCreationContext,
    ) -> ChannelView {
        let shared = x25519_shared_secret(local_secret, peer_channel_public_key)@;
        ChannelView {
            ready: false,
            local_id,
            peer_id,
            peer_channel_public_key,
            peer_channel_date,
            drop_timeout: 0,
            in_secret: in_secret_of(shared, context),
            out_secret: out_secret_of(shared, context),
        }
    }
}

/// One direction of a channel: the secret and the id of each sub-channel.
#[derive(Debug, Copy, Clone)]
struct ChannelSide {
    ordinary_secret: [u8; 32],
    ordinary_id: [u8; 32],
    priority_secret: [u8; 32],
    priority_id: [u8; 32],
}

impl ChannelSide {
    spec fn wf(&self) -> bool {
        &&& self.ordinary_id@ == channel_id(self.ordinary_secret@)
        &&& self.priority_secret@ == priority_secret(self.ordinary_secret@)
        &&& self.priority_id@ == channel_id(self.priority_secret@)
    }

    fn from_secret(secret: [u8; 32]) -> (side: Self)
        ensures
            side.wf(),
            side.ordinary_secret == secret,
    {
        let mut swapped = [0u8; 32];
        let mut i: usize = 0;
        while i < 16
            invariant
                i <= 16,
                forall|j: int| 0 <= j < i ==> swapped@[j] == secret@[16 + j],
                forall|j: int| 0 <= j < i ==> swapped@[16 + j] == secret@[j],
            decreases 16 - i,
        {
            swapped[i] = secret[16 + i];
            swapped[16 + i] = secret[i];
            i += 1;
        }
        assert(swapped@ =~= priority_secret(secret@));
        Self {
            ordinary_secret: secret,
            ordinary_id: compute_channel_id(&secret),
            priority_secret: swapped,
            priority_id: compute_channel_id(&swapped),
        }
    }
}

/// Computes the id of a sub-channel from its secret.
pub fn compute_channel_id(secret: &[u8; 32]) -> (id: [u8; 32])
    ensures
        id@ == channel_id(secret@),
{
    let mut encoded: Vec<u8> = Vec::with_capacity(36);
    write_u32(&mut encoded, PUB_AES_ID);
    write_raw(&mut encoded, secret.as_slice());
    sha256_digest(encoded.as_slice())
}

/// Reverses 32 bytes.
fn reverse32(secret: &[u8; 32]) -> (out: [u8; 32])
    ensures
        out@ == reversed(secret@),
{
    let mut out = [0u8; 32];
    let mut i: usize = 0;
    while i < 32
        invariant
            i <= 32,
            forall|j: int| 0 <= j < i ==> out@[j] == secret@[31 - j],
        decreases 32 - i,
    {
        out[i] = secret[31 - i];
        i += 1;
    }
    assert(out@ =~= reversed(secret@));
    out
}

/// One side of a channel with a peer.
#[derive(Debug, Copy, Clone)]
pub struct AdnlChannel {
    ready: bool,
    local_id: AdnlNodeIdShort,
    peer_id: AdnlNodeIdShort,
    peer_channel_public_key: [u8; 32],
    peer_channel_date: u32,
    drop: u32,
    channel_in: ChannelSide,
    channel_out: ChannelSide,
}

impl View for AdnlChannel {
    type V = ChannelView;

    closed spec fn view(&self) -> ChannelView {
        ChannelView {
            ready: self.ready,
            local_id: self.local_id@,
            peer_id: self.peer_id@,
            peer_channel_public_key: self.peer_channel_public_key@,
            peer_channel_date: self.peer_channel_date,
            drop_timeout: self.drop,
            in_secret: self.channel_in.ordinary_secret@,
            out_secret: self.channel_out.ordinary_secret@,
        }
    }
}

impl AdnlChannel {
    /// The ids and priority secrets held are those of the two secrets.
    pub closed spec fn wf(&self) -> bool {
        self.channel_in.wf() && self.channel_out.wf()
    }

    /// Derives the local side of a channel from the local ephemeral key and
    /// the peer's ephemeral public key. `None` where the peer's key is no
    /// point of the curve.
    pub fn new(
        local_id: AdnlNodeIdShort,
        peer_id: AdnlNodeIdShort,
        channel_key: &KeyPair,
        peer_channel_public_key: [u8; 32],
        peer_channel_date: u32,
        context: ChannelCreationContext,
    ) -> (channel: Option<Self>)
        ensures
            channel.is_some() == ed25519_key_valid(peer_channel_public_key@),
            channel matches Some(c) ==> c.wf() && c@ == ChannelView::created(
                local_id@,
                peer_id@,
                channel_key.secret_bytes(),
                peer_channel_public_key@,
                peer_channel_date,
                context,
            ),
    {
        let shared = match channel_key.compute_shared_secret(&peer_channel_public_key) {
            Some(shared) => shared,
            None => return None,
        };
        let backward = reverse32(&shared);
        let (in_secret, out_secret) = match context {
            ChannelCreationContext::CreateChannel => (backward, shared),
            ChannelCreationContext::ConfirmChannel => (shared, backward),
        };
        Some(
            Self {
                ready: false,
                local_id,
                peer_id,
                peer_channel_public_key,
                peer_channel_date,
                drop: 0,
                channel_in: ChannelSide::from_secret(in_secret),
                channel_out: ChannelSide::from_secret(out_secret),
            },
        )
    }

    /// Whether the channel was made for this key and date of the peer.
    pub fn is_still_valid(&self, peer_channel_public_key: &[u8; 32], peer_channel_date: u32) -> (valid:
        bool)
        ensures
            valid == (self@.peer_channel_public_key == peer_channel_public_key@
                && self@.peer_channel_date == peer_channel_date),
    {
        bytes32_eq(&self.peer_channel_public_key, peer_channel_public_key)
            && self.peer_channel_date == peer_channel_date
    }

    pub fn ready(&self) -> (ready: bool)
        ensures
            ready == self@.ready,
    {
        self.ready
    }

    pub fn set_ready(&mut self)
        requires
            old(self).wf(),
        ensures
            final(self).wf(),
            final(self)@ == (ChannelView { ready: true, ..old(self)@ }),
    {
        self.ready = true;
    }

    pub fn local_id(&self) -> (id: &AdnlNodeIdShort)
        ensures
            id@ == self@.local_id,
    {
        &self.local_id
    }

    pub fn peer_id(&self) -> (id: &AdnlNodeIdShort)
        ensures
            id@ == self@.peer_id,
    {
        &self.peer_id
    }

    pub fn peer_channel_public_key(&self) -> (key: &[u8; 32])
        ensures
            key@ == self@.peer_channel_public_key,
    {
        &self.peer_channel_public_key
    }

    pub fn peer_channel_date(&self) -> (date: u32)
        ensures
            date == self@.peer_channel_date,
    {
        self.peer_channel_date
    }

    pub fn ordinary_channel_in_id(&self) -> (id: &[u8; 32])
        requires
            self.wf(),
        ensures
            id@ == self@.ordinary_in_id(),
    {
        &self.channel_in.ordinary_id
    }

    pub fn priority_channel_in_id(&self) -> (id: &[u8; 32])
        requires
            self.wf(),
        ensures
            id@ == self@.priority_in_id(),
    {
        &self.channel_in.priority_id
    }

    pub fn ordinary_channel_out_id(&self) -> (id: &[u8; 32])
        requires
            self.wf(),
        ensures
            id@ == self@.ordinary_out_id(),
    {
        &self.channel_out.ordinary_id
    }

    pub fn priority_channel_out_id(&self) -> (id: &[u8; 32])
        requires
            self.wf(),
        ensures
            id@ == self@.priority_out_id(),
    {
        &self.channel_out.priority_id
    }

    /// The deadline after which the peer is reset, or zero.
    pub fn drop_timeout(&self) -> (deadline: u32)
        ensures
            deadline == self@.drop_timeout,
    {
        self.drop
    }

    /// Sets the deadline to `now + timeout`, at most the largest date, where
    /// none is set, and returns the deadline that was set before.
    pub fn update_drop_timeout(&mut self, now: u32, timeout: u32) -> (was: u32)
        requires
            old(self).wf(),
        ensures
            final(self).wf(),
            was == old(self)@.drop_timeout,
            final(self)@ == (ChannelView {
                drop_timeout: if was != 0 {
                    was
                } else if now + timeout > u32::MAX {
                    u32::MAX
                } else {
                    (now + timeout) as u32
                },
                ..old(self)@
            }),
    {
        let was = self.drop;
        if was == 0 {
            self.drop = if timeout > u32::MAX - now {
                u32::MAX
            } else {
                now + timeout
            };
        }
        was
    }

    /// Clears the deadline.
    pub fn reset_drop_timeout(&mut self)
        requires
            old(self).wf(),
        ensures
            final(self).wf(),
            final(self)@ == (ChannelView { drop_timeout: 0, ..old(self)@ }),
    {
        self.drop = 0;
    }

    /// Wraps the body in `buffer` into a packet of the outgoing sub-channel.
    pub fn encrypt(&self, buffer: &mut Vec<u8>, priority: bool)
        requires
            self.wf(),
        ensures
            final(buffer)@ == channel_packet(self@.out_secret, priority, old(buffer)@),
    {
        let checksum = sha256_digest(buffer.as_slice());
        let (id, secret) = if priority {
            (&self.channel_out.priority_id, &self.channel_out.priority_secret)
        } else {
            (&self.channel_out.ordinary_id, &self.channel_out.ordinary_secret)
        };
        let mut packet: Vec<u8> = Vec::new();
        write_raw(&mut packet, id.as_slice());
        write_raw(&mut packet, checksum.as_slice());
        write_raw(&mut packet, buffer.as_slice());
        assert(packet@.take(64) =~= id@ + checksum@);
        assert(packet@.skip(64) =~= old(buffer)@);
        apply_packet_cipher(secret, &checksum, &mut packet, CHANNEL_HEADER);
        *buffer = packet;
    }

    /// Reads `buffer` as a packet of the incoming sub-channel. On success the
    /// buffer holds the decrypted body; on an error it may have changed.
    pub fn decrypt(&self, buffer: &mut Vec<u8>, priority: bool) -> (r: Result<(), AdnlChannelError>)
        requires
            self.wf(),
        ensures
            match channel_body(self@.in_secret, priority, old(buffer)@) {
                Ok(body) => r is Ok && final(buffer)@ == body,
                Err(e) => r matches Err(got) && got == e,
            },
    {
        if buffer.len() < CHANNEL_HEADER {
            return Err(AdnlChannelError::ChannelMessageIsTooShort);
        }
        let checksum = read_int256(buffer.as_slice(), 32).unwrap();
        let secret = if priority {
            &self.channel_in.priority_secret
        } else {
            &self.channel_in.ordinary_secret
        };
        apply_packet_cipher(secret, &checksum, buffer, CHANNEL_HEADER);
        let body = copy_range(buffer.as_slice(), CHANNEL_HEADER, buffer.len() - CHANNEL_HEADER);
        assert(body@ =~= buffer@.skip(64));
        assert(buffer@.skip(64) =~= ciphered(secret@, checksum@, old(buffer)@.skip(64)));
        let digest = sha256_digest(body.as_slice());
        if !bytes32_eq(&digest, &checksum) {
            return Err(AdnlChannelError::InvalidChannelMessageChecksum);
        }
        *buffer = body;
        Ok(())
    }
}

/// What one direction's secret wraps, the same secret unwraps.
pub proof fn lemma_channel_round_trip(secret: Seq<u8>, priority: bool, body: Seq<u8>)
    ensures
        channel_body(secret, priority, channel_packet(secret, priority, body)) matches Ok(read)
            && read == body,
{
    let sub = sub_secret(secret, priority);
    let checksum = sha256(body)@;
    let packet = channel_packet(secret, priority, body);
    assert(packet.subrange(32, 64) =~= checksum);
    assert(packet.skip(64) =~= ciphered(sub, checksum, body));
    lemma_cipher_involution(sub, checksum, body);
}

/// The two sides of a channel fit: where one side was made on a
/// `CreateChannel` and the other on a `ConfirmChannel`, each from its own
/// ephemeral key and the other's public key, each side sends with the secret
/// the other receives with. So the ids under which one sends are those under
/// which the other receives, and what one wraps the other unwraps, in both
/// directions and both priority classes.
pub proof fn lemma_channel_symmetry(
    a_id: Seq<u8>,
    b_id: Seq<u8>,
    a_key: KeyPair,
    b_key: KeyPair,
    a_date: u32,
    b_date: u32,
    priority: bool,
    body: Seq<u8>,
)
    requires
        a_key.wf(),
        b_key.wf(),
    ensures
        ({
            let a = ChannelView::created(
                a_id,
                b_id,
                a_key.secret_bytes(),
                b_key.public_bytes(),
                b_date,
                ChannelCreationContext::CreateChannel,
            );
            let b = ChannelView::created(
                b_id,
                a_id,
                b_key.secret_bytes(),
                a_key.public_bytes(),
                a_date,
                ChannelCreationContext::ConfirmChannel,
            );
            &&& a.out_secret == b.in_secret
            &&& b.out_secret == a.in_secret
            &&& a.ordinary_out_id() == b.ordinary_in_id()
            &&& a.priority_out_id() == b.priority_in_id()
            &&& b.ordinary_out_id() == a.ordinary_in_id()
            &&& b.priority_out_id() == a.priority_in_id()
            &&& channel_body(b.in_secret, priority, channel_packet(a.out_secret, priority, body))
                matches Ok(read) && read == body
            &&& channel_body(a.in_secret, priority, channel_packet(b.out_secret, priority, body))
                matches Ok(read) && read == body
        }),
{
    lemma_shared_secret_agrees(a_key, b_key);
    let shared = x25519_shared_secret(a_key.secret_bytes(), b_key.public_bytes())@;
    lemma_channel_round_trip(forward_secret(shared), priority, body);
    lemma_channel_round_trip(backward_secret(shared), priority, body);
}

} // verus!
