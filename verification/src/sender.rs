//! Building one outgoing packet for a peer: its contents, its signature and
//! its envelope.

use crate::channel::{channel_packet, AdnlChannel};
use crate::crypto::{ed25519_signature, random_bytes};
use crate::errors::AdnlNodeError;
use crate::handshake::{build_handshake_packet_with, handshake_packet};
use crate::keys::KeyPair;
use crate::node_id::{AdnlNodeIdShort, StoredAdnlNodeKey};
use crate::packet::{
    AddressList, AdnlAddressUdp, OutgoingMessages, OutgoingPacketContents, OutgoingPacketView,
    ReinitDates,
};
use crate::peer::{AdnlPeer, PeerView};
use crate::tl::copy_range;
use vstd::prelude::*;

verus! {

/// The number of priority packets a node sends without an answer before it
/// falls back to the ordinary sub-channel.
pub const MAX_PRIORITY_ATTEMPTS: u64 = 10;

/// What a node knows of itself and the time when it sends.
#[derive(Debug, Copy, Clone)]
pub struct SendContext {
    pub ip_address: AdnlAddressUdp,
    pub start_time: u32,
    pub address_list_timeout_sec: u32,
    pub now: u32,
}

/// A datagram that waits to be sent.
#[derive(Debug, Clone, PartialEq, Eq)]
pub struct PacketToSend {
    pub destination: AdnlAddressUdp,
    pub data: Vec<u8>,
}

/// How an outgoing packet is framed: in a channel, or as a handshake signed
/// with a local key.
#[derive(Copy, Clone)]
pub enum MessageSigner<'a> {
    Channel { channel: &'a AdnlChannel, priority: bool },
    Random(&'a StoredAdnlNodeKey),
}

/// The framing of a packet as plain values.
pub enum SignerView {
    Channel { out_secret: Seq<u8>, priority: bool },
    Random { secret: Seq<u8>, full_id: Seq<u8> },
}

impl<'a> View for MessageSigner<'a> {
    type V = SignerView;

    open spec fn view(&self) -> SignerView {
        match self {
            MessageSigner::Channel { channel, priority } => SignerView::Channel {
                out_secret: channel@.out_secret,
                priority: *priority,
            },
            MessageSigner::Random(key) => SignerView::Random {
                secret: key.spec_private_key(),
                full_id: key.spec_full_id(),
            },
        }
    }
}

impl<'a> MessageSigner<'a> {
    pub open spec fn wf(&self) -> bool {
        match self {
            MessageSigner::Channel { channel, priority } => channel.wf(),
            MessageSigner::Random(key) => key.wf(),
        }
    }
}

/// Whether priority packets to a peer are given up: nothing was received in
/// the class asked for, and more than the allowed number of priority packets
/// was sent.
pub open spec fn priority_given_up(peer: PeerView, priority: bool) -> bool {
    peer.receiver.history(priority).max == 0 && peer.sender.history(true).max
        > MAX_PRIORITY_ATTEMPTS
}

/// The priority class in which a packet is sent: handshake packets are
/// ordinary; channel packets keep the class asked for unless priority was
/// given up.
pub open spec fn effective_priority(peer: PeerView, signer: SignerView) -> bool {
    match signer {
        SignerView::Channel { priority, .. } => priority && !priority_given_up(peer, priority),
        SignerView::Random { .. } => false,
    }
}

/// The address list that a node advertises at a time.
pub open spec fn advertised_addresses(ctx: SendContext) -> AddressList {
    AddressList {
        address: Some(ctx.ip_address),
        version: ctx.now,
        reinit_date: ctx.start_time,
        priority: 0,
        expire_at: if ctx.now + ctx.address_list_timeout_sec > u32::MAX {
            u32::MAX
        } else {
            (ctx.now + ctx.address_list_timeout_sec) as u32
        },
    }
}

/// The contents of a packet before it is signed. Ten random bytes fill the
/// two random fields.
pub open spec fn unsigned_contents(
    peer: PeerView,
    signer: SignerView,
    pair: bool,
    messages: Seq<u8>,
    ctx: SendContext,
    rand: Seq<u8>,
) -> OutgoingPacketView {
    let priority = effective_priority(peer, signer);
    OutgoingPacketView {
        rand1: rand.subrange(0, 3),
        from: match signer {
            SignerView::Random { full_id, .. } => Some(full_id),
            SignerView::Channel { .. } => None,
        },
        pair,
        messages,
        address: advertised_addresses(ctx),
        seqno: (peer.sender.history(priority).max + 1) as u64,
        confirm_seqno: peer.receiver.history(priority).max,
        reinit_dates: match signer {
            SignerView::Random { .. } => Some(
                ReinitDates { local: peer.receiver.reinit_date, target: peer.sender.reinit_date },
            ),
            SignerView::Channel { .. } => None,
        },
        signature: None,
        rand2: rand.subrange(3, 10),
    }
}

/// The bytes that go into the envelope: the encoded contents, which a
/// handshake packet carries with the signature of their unsigned encoding.
pub open spec fn packet_plaintext(
    peer: PeerView,
    signer: SignerView,
    pair: bool,
    messages: Seq<u8>,
    ctx: SendContext,
    rand: Seq<u8>,
) -> Seq<u8> {
    let contents = unsigned_contents(peer, signer, pair, messages, ctx, rand);
    match signer {
        SignerView::Channel { .. } => contents.encoding(),
        SignerView::Random { secret, .. } => (OutgoingPacketView {
            signature: Some(ed25519_signature(secret, contents.encoding())@),
            ..contents
        }).encoding(),
    }
}

/// The datagram: the plaintext in the envelope of the channel's outgoing
/// sub-channel, or in a handshake envelope for the peer.
pub open spec fn sealed_packet(
    peer_id: Seq<u8>,
    peer: PeerView,
    signer: SignerView,
    pair: bool,
    messages: Seq<u8>,
    ctx: SendContext,
    rand: Seq<u8>,
    temp_key: KeyPair,
) -> Seq<u8> {
    let plaintext = packet_plaintext(peer, signer, pair, messages, ctx, rand);
    match signer {
        SignerView::Channel { out_secret, .. } => channel_packet(
            out_secret,
            effective_priority(peer, signer),
            plaintext,
        ),
        SignerView::Random { .. } => handshake_packet(
            peer_id,
            peer.id,
            plaintext,
            temp_key.secret_bytes(),
            temp_key.public_bytes(),
        ),
    }
}

/// The peer after a packet was sent: the sequence number of the class used
/// went up by one.
pub open spec fn peer_after_send(peer: PeerView, signer: SignerView) -> PeerView {
    let priority = effective_priority(peer, signer);
    PeerView {
        sender: peer.sender.with_history(
            priority,
            peer.sender.history(priority).deliver((peer.sender.history(priority).max + 1) as u64),
        ),
        ..peer
    }
}

/// Whether a packet can still be numbered in the class it would be sent in.
pub open spec fn can_send(peer: PeerView, signer: SignerView) -> bool {
    peer.sender.history(effective_priority(peer, signer)).max < u64::MAX
}

/// After more than the allowed number of priority packets was sent and
/// nothing was received in the priority class, a packet asked for in the
/// priority class is sent in the ordinary class.
pub proof fn lemma_priority_demotion(peer: PeerView, out_secret: Seq<u8>)
    requires
        peer.receiver.priority.max == 0,
        peer.sender.priority.max > MAX_PRIORITY_ATTEMPTS,
    ensures
        !effective_priority(peer, SignerView::Channel { out_secret, priority: true }),
{
}

/// While no more than the allowed number of priority packets was sent, or
/// once something was received in the priority class, a channel packet
/// asked for in the priority class is sent in it.
pub proof fn lemma_priority_kept(peer: PeerView, out_secret: Seq<u8>)
    requires
        peer.receiver.priority.max != 0 || peer.sender.priority.max <= MAX_PRIORITY_ATTEMPTS,
    ensures
        effective_priority(peer, SignerView::Channel { out_secret, priority: true }),
{
}

/// Decides the priority class of a packet.
pub fn choose_priority(peer: &AdnlPeer, signer: &MessageSigner) -> (priority: bool)
    requires
        peer.wf(),
    ensures
        priority == effective_priority(peer@, signer@),
{
    match signer {
        MessageSigner::Channel { priority, .. } => {
            if peer.receiver_state().seqno(*priority) == 0 && peer.sender_state().seqno(true)
                > MAX_PRIORITY_ATTEMPTS {
                false
            } else {
                *priority
            }
        },
        MessageSigner::Random(_) => false,
    }
}

/// Builds, signs and wraps one packet for a peer, with the given random
/// bytes and, for a handshake, the given ephemeral key. The peer's next
/// sequence number is used up. Fails where the sequence numbers of the class
/// are exhausted.
pub fn send_packet_with(
    peer_id: &AdnlNodeIdShort,
    peer: &mut AdnlPeer,
    signer: MessageSigner,
    messages: OutgoingMessages,
    ctx: &SendContext,
    rand_bytes: &[u8; 10],
    temp_key: &KeyPair,
) -> (r: Result<PacketToSend, AdnlNodeError>)
    requires
        old(peer).wf(),
        signer.wf(),
    ensures
        final(peer).wf(),
        match r {
            Ok(packet) => {
                &&& can_send(old(peer)@, signer@)
                &&& packet.destination == old(peer)@.ip_address
                &&& packet.data@ == sealed_packet(
                    peer_id@,
                    old(peer)@,
                    signer@,
                    messages is Pair,
                    messages.bytes(),
                    *ctx,
                    rand_bytes@,
                    *temp_key,
                )
                &&& final(peer)@ == peer_after_send(old(peer)@, signer@)
            },
            Err(e) => e == AdnlNodeError::FailedToSendPacket && !can_send(old(peer)@, signer@)
                && final(peer)@ == old(peer)@,
        },
{
    let priority = choose_priority(peer, &signer);
    if peer.sender_state().seqno(priority) == u64::MAX {
        return Err(AdnlNodeError::FailedToSendPacket);
    }
    let address = AddressList {
        address: Some(ctx.ip_address),
        version: ctx.now,
        reinit_date: ctx.start_time,
        priority: 0,
        expire_at: if ctx.address_list_timeout_sec > u32::MAX - ctx.now {
            u32::MAX
        } else {
            ctx.now + ctx.address_list_timeout_sec
        },
    };
    let confirm_seqno = peer.receiver_state().seqno(priority);
    let reinit_dates = match signer {
        MessageSigner::Channel { .. } => None,
        MessageSigner::Random(_) => Some(
            ReinitDates {
                local: peer.receiver_state().reinit_date(),
                target: peer.sender_state().reinit_date(),
            },
        ),
    };
    let from = match signer {
        MessageSigner::Channel { .. } => None,
        MessageSigner::Random(local_key) => Some(*local_key.full_id().public_key()),
    };
    let seqno = peer.bump_seqno(priority);
    let mut packet = OutgoingPacketContents {
        rand1: copy_range(rand_bytes.as_slice(), 0, 3),
        from,
        messages,
        address,
        seqno,
        confirm_seqno,
        reinit_dates,
        signature: None,
        rand2: copy_range(rand_bytes.as_slice(), 3, 7),
    };
    assert(packet@ == unsigned_contents(
        old(peer)@,
        signer@,
        messages is Pair,
        packet@.messages,
        *ctx,
        rand_bytes@,
    ));
    if let MessageSigner::Random(local_key) = signer {
        let unsigned = packet.serialize();
        packet.signature = Some(local_key.sign(unsigned.as_slice()));
    }
    let mut data = packet.serialize();
    match signer {
        MessageSigner::Channel { channel, .. } => {
            channel.encrypt(&mut data, priority);
        },
        MessageSigner::Random(_) => {
            build_handshake_packet_with(peer_id, peer.id(), &mut data, temp_key);
        },
    }
    Ok(PacketToSend { destination: peer.ip_address(), data })
}

/// Builds, signs and wraps one packet for a peer, with fresh random bytes
/// and a fresh ephemeral key.
pub fn send_packet(
    peer_id: &AdnlNodeIdShort,
    peer: &mut AdnlPeer,
    signer: MessageSigner,
    messages: OutgoingMessages,
    ctx: &SendContext,
) -> (r: Result<PacketToSend, AdnlNodeError>)
    requires
        old(peer).wf(),
        signer.wf(),
    ensures
        final(peer).wf(),
        match r {
            Ok(packet) => {
                &&& can_send(old(peer)@, signer@)
                &&& packet.destination == old(peer)@.ip_address
                &&& exists|rand: Seq<u8>, temp_key: KeyPair|
                    rand.len() == 10 && temp_key.wf() && packet.data@ == #[trigger] sealed_packet(
                        peer_id@,
                        old(peer)@,
                        signer@,
                        messages is Pair,
                        messages.bytes(),
                        *ctx,
                        rand,
                        temp_key,
                    )
                &&& final(peer)@ == peer_after_send(old(peer)@, signer@)
            },
            Err(e) => e == AdnlNodeError::FailedToSendPacket && !can_send(old(peer)@, signer@)
                && final(peer)@ == old(peer)@,
        },
{
    let random = random_bytes();
    let mut rand_bytes = [0u8; 10];
    let mut i: usize = 0;
    while i < 10
        invariant
            i <= 10,
        decreases 10 - i,
    {
        rand_bytes[i] = random[i];
        i += 1;
    }
    let temp_key = KeyPair::generate();
    send_packet_with(peer_id, peer, signer, messages, ctx, &rand_bytes, &temp_key)
}

} // verus!
