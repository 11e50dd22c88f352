//! Sending a message to a peer: the choice of the envelope, the message that
//! sets up or confirms a channel, and the split into parts of a message that
//! does not fit one packet.

use crate::channel::{AdnlChannel, ChannelView};
use crate::crypto::{sha256, sha256_digest};
use crate::errors::AdnlNodeError;
use crate::keys::KeyPair;
use crate::message::{lemma_encoding_len, Message, MessageView};
use crate::node_id::{AdnlNodeIdShort, StoredAdnlNodeKey};
use crate::packet::OutgoingMessages;
use crate::peer::{AdnlPeer, PeerView};
use crate::sender::{
    can_send, peer_after_send, sealed_packet, send_packet, MessageSigner, PacketToSend,
    SendContext, SignerView,
};
use crate::tl::{copy_range};
use crate::transfer::{
    after_parts, is_part_of, lemma_parts_agree, TransferView,
    MAX_ADNL_MESSAGE_SIZE,
};
use vstd::prelude::*;

verus! {

pub const MSG_ANSWER_SIZE: usize = 44;

pub const MSG_CONFIRM_CHANNEL_SIZE: usize = 72;

pub const MSG_CREATE_CHANNEL_SIZE: usize = 40;

pub const MSG_CUSTOM_SIZE: usize = 12;

pub const MSG_NOP_SIZE: usize = 4;

pub const MSG_QUERY_SIZE: usize = 44;

pub const MSG_PART_PREFIX_SIZE: usize = 40;

/// The most bytes of a message that one part carries.
pub const MAX_PART_SIZE: usize = 984;

/// The size a message is counted with when the node decides whether it fits
/// one packet. `None` for the kinds that are not sent on request.
pub open spec fn counted_size(message: MessageView) -> Option<int> {
    match message {
        MessageView::Answer { answer, .. } => Some(answer.len() + MSG_ANSWER_SIZE),
        MessageView::ConfirmChannel { .. } => Some(MSG_CONFIRM_CHANNEL_SIZE as int),
        MessageView::Custom { data } => Some(data.len() + MSG_CUSTOM_SIZE),
        MessageView::Nop => Some(MSG_NOP_SIZE as int),
        MessageView::Query { query, .. } => Some(query.len() + MSG_QUERY_SIZE),
        _ => None,
    }
}

/// The message that goes along while no channel is ready: a confirmation of
/// the channel that exists, or the proposal of one.
pub open spec fn additional_message(
    channel_public: Seq<u8>,
    channel: Option<ChannelView>,
    now: u32,
) -> Option<MessageView> {
    match channel {
        Some(c) => if c.ready {
            None
        } else {
            Some(
                MessageView::ConfirmChannel {
                    key: channel_public,
                    peer_key: c.peer_channel_public_key,
                    date: c.peer_channel_date,
                },
            )
        },
        None => Some(MessageView::CreateChannel { key: channel_public, date: now }),
    }
}

/// The size the additional message is counted with.
pub open spec fn additional_size(channel: Option<ChannelView>) -> int {
    match channel {
        Some(c) => if c.ready {
            0
        } else {
            MSG_CONFIRM_CHANNEL_SIZE as int
        },
        None => MSG_CREATE_CHANNEL_SIZE as int,
    }
}

/// The envelope: the channel where one is ready, else a handshake signed
/// with the local key.
pub open spec fn signer_for(
    channel: Option<ChannelView>,
    priority: bool,
    local_secret: Seq<u8>,
    local_full_id: Seq<u8>,
) -> SignerView {
    match channel {
        Some(c) if c.ready => SignerView::Channel { out_secret: c.out_secret, priority },
        _ => SignerView::Random { secret: local_secret, full_id: local_full_id },
    }
}

/// What one packet carries: one encoded message, or two in a row.
pub struct Payload {
    pub pair: bool,
    pub bytes: Seq<u8>,
}

/// The part of an encoded message that starts at `offset` and is no longer
/// than `max`.
pub open spec fn part_at(data: Seq<u8>, hash: Seq<u8>, offset: int, max: int) -> MessageView {
    MessageView::Part {
        hash,
        total_size: data.len() as u32,
        offset: offset as u32,
        data: data.subrange(offset, part_end(data, offset, max)),
    }
}

/// Where the part that starts at `offset` ends.
pub open spec fn part_end(data: Seq<u8>, offset: int, max: int) -> int {
    if data.len() - offset < max {
        data.len() as int
    } else {
        offset + max
    }
}

/// The payloads that carry the rest of an encoded message from `offset` on,
/// one part each.
pub open spec fn part_payloads(data: Seq<u8>, hash: Seq<u8>, offset: int) -> Seq<Payload>
    decreases data.len() - offset,
{
    if offset < 0 || offset >= data.len() {
        Seq::empty()
    } else {
        seq![Payload { pair: false, bytes: part_at(data, hash, offset, MAX_PART_SIZE as int).encoding() }]
            + part_payloads(data, hash, part_end(data, offset, MAX_PART_SIZE as int))
    }
}

/// The payloads of the packets that carry a message: one packet where the
/// counted sizes fit, with the additional message in front if there is one;
/// else the message in parts, the first of which shares its packet with the
/// additional message.
pub open spec fn payloads_of(
    additional: Option<MessageView>,
    extra_size: int,
    message: MessageView,
) -> Seq<Payload> {
    let data = message.encoding();
    let hash = sha256(data)@;
    if extra_size + counted_size(message).unwrap() <= MAX_ADNL_MESSAGE_SIZE {
        match additional {
            Some(first) => seq![Payload { pair: true, bytes: first.encoding() + data }],
            None => seq![Payload { pair: false, bytes: data }],
        }
    } else {
        match additional {
            Some(first) => {
                let max = MAX_ADNL_MESSAGE_SIZE - MSG_PART_PREFIX_SIZE - extra_size;
                seq![
                    Payload {
                        pair: true,
                        bytes: first.encoding() + part_at(data, hash, 0, max).encoding(),
                    },
                ] + part_payloads(data, hash, part_end(data, 0, max))
            },
            None => part_payloads(data, hash, 0),
        }
    }
}

/// The peer after a number of packets was sent.
pub open spec fn peer_after_sends(peer: PeerView, signer: SignerView, count: nat) -> PeerView
    decreases count,
{
    if count == 0 {
        peer
    } else {
        peer_after_send(peer_after_sends(peer, signer, (count - 1) as nat), signer)
    }
}

/// Whether a datagram is a payload on its way to a peer: it goes to the
/// peer's address and is the sealed packet for some ten random bytes and
/// some ephemeral key.
pub open spec fn carries(
    packet: PacketToSend,
    peer_id: Seq<u8>,
    peer: PeerView,
    signer: SignerView,
    payload: Payload,
    ctx: SendContext,
) -> bool {
    &&& packet.destination == peer.ip_address
    &&& exists|rand: Seq<u8>, temp_key: KeyPair|
        rand.len() == 10 && temp_key.wf() && packet.data@ == #[trigger] sealed_packet(
            peer_id,
            peer,
            signer,
            payload.pair,
            payload.bytes,
            ctx,
            rand,
            temp_key,
        )
}

/// Whether datagrams are the first `count` payloads on their way to a peer,
/// one after the other, each numbered behind the one before.
pub open spec fn carry_all(
    packets: Seq<PacketToSend>,
    peer_id: Seq<u8>,
    peer: PeerView,
    signer: SignerView,
    payloads: Seq<Payload>,
    ctx: SendContext,
    count: int,
) -> bool {
    &&& packets.len() == count
    &&& count <= payloads.len()
    &&& forall|k: int|
        0 <= k < count ==> carries(
            #[trigger] packets[k],
            peer_id,
            peer_after_sends(peer, signer, k as nat),
            signer,
            payloads[k],
            ctx,
        )
}

/// The number of packets that can be numbered before the sequence numbers
/// run out, up to `limit`.
pub open spec fn sendable(peer: PeerView, signer: SignerView, limit: nat) -> nat
    decreases limit,
{
    if limit == 0 {
        0
    } else {
        let before = sendable(peer, signer, (limit - 1) as nat);
        if before == limit - 1 && can_send(peer_after_sends(peer, signer, before), signer) {
            limit
        } else {
            before
        }
    }
}

/// Sending packets changes nothing of a peer but the sequence numbers sent.
pub proof fn lemma_sends_keep_peer(peer: PeerView, signer: SignerView, count: nat)
    ensures
        peer_after_sends(peer, signer, count).id == peer.id,
        peer_after_sends(peer, signer, count).ip_address == peer.ip_address,
        peer_after_sends(peer, signer, count).channel_key == peer.channel_key,
        peer_after_sends(peer, signer, count).receiver == peer.receiver,
        peer_after_sends(peer, signer, count).sender.reinit_date == peer.sender.reinit_date,
    decreases count,
{
    if count > 0 {
        lemma_sends_keep_peer(peer, signer, (count - 1) as nat);
    }
}

/// At most `limit` packets can be numbered.
pub proof fn lemma_sendable_bound(peer: PeerView, signer: SignerView, limit: nat)
    ensures
        sendable(peer, signer, limit) <= limit,
    decreases limit,
{
    if limit > 0 {
        lemma_sendable_bound(peer, signer, (limit - 1) as nat);
    }
}

/// Once the sequence numbers ran out, no larger limit lets more packets be
/// numbered.
pub proof fn lemma_sendable_stuck(peer: PeerView, signer: SignerView, count: nat, limit: nat)
    requires
        sendable(peer, signer, count) == count,
        !can_send(peer_after_sends(peer, signer, count), signer),
        count <= limit,
    ensures
        sendable(peer, signer, limit) == count,
    decreases limit,
{
    if limit > count {
        lemma_sendable_stuck(peer, signer, count, (limit - 1) as nat);
    }
}

/// Whether the message is of a kind that is sent on request and its byte
/// strings fit their length prefixes.
pub open spec fn can_be_sent(message: MessageView) -> bool {
    counted_size(message) is Some && message.wf()
}

/// Computes the size a message is counted with.
fn count_size(message: &Message) -> (size: Option<usize>)
    requires
        message.encodable(),
    ensures
        match size {
            Some(n) => counted_size(message@) == Some(n as int),
            None => counted_size(message@) is None,
        },
{
    match message {
        Message::Answer { answer, .. } => Some(answer.len() + MSG_ANSWER_SIZE),
        Message::ConfirmChannel { .. } => Some(MSG_CONFIRM_CHANNEL_SIZE),
        Message::Custom { data } => Some(data.len() + MSG_CUSTOM_SIZE),
        Message::Nop => Some(MSG_NOP_SIZE),
        Message::Query { query, .. } => Some(query.len() + MSG_QUERY_SIZE),
        _ => None,
    }
}

/// Builds the part of an encoded message that starts at `offset`.
fn build_part_message(data: &Vec<u8>, hash: &[u8; 32], max_size: usize, offset: usize) -> (r: (
    Message,
    usize,
))
    requires
        offset < data@.len() <= u32::MAX,
        0 < max_size <= MAX_ADNL_MESSAGE_SIZE,
    ensures
        r.0@ == part_at(data@, hash@, offset as int, max_size as int),
        r.1 == part_end(data@, offset as int, max_size as int),
        offset < r.1 <= data@.len(),
        r.0.encodable(),
{
    let end = if data.len() - offset < max_size {
        data.len()
    } else {
        offset + max_size
    };
    let part = Message::Part {
        hash: *hash,
        total_size: data.len() as u32,
        offset: offset as u32,
        data: copy_range(data.as_slice(), offset, end - offset),
    };
    (part, end)
}

/// Sends one packet and queues it. Tells whether a sequence number was
/// left for it.
fn send_one(
    peer_id: &AdnlNodeIdShort,
    peer: &mut AdnlPeer,
    signer: MessageSigner,
    messages: OutgoingMessages,
    ctx: &SendContext,
    queue: &mut Vec<PacketToSend>,
) -> (sent: bool)
    requires
        old(peer).wf(),
        signer.wf(),
    ensures
        final(peer).wf(),
        sent == can_send(old(peer)@, signer@),
        sent ==> final(queue)@.len() == old(queue)@.len() + 1 && final(queue)@.drop_last() == old(
            queue,
        )@ && carries(
            final(queue)@.last(),
            peer_id@,
            old(peer)@,
            signer@,
            Payload { pair: messages is Pair, bytes: messages.bytes() },
            *ctx,
        ) && final(peer)@ == peer_after_send(old(peer)@, signer@),
        !sent ==> final(queue)@ == old(queue)@ && final(peer)@ == old(peer)@,
{
    match send_packet(peer_id, peer, signer, messages, ctx) {
        Ok(packet) => {
            proof {
                let payload = Payload { pair: messages is Pair, bytes: messages.bytes() };
                let (rand, temp_key) = choose|rand: Seq<u8>, temp_key: KeyPair|
                    rand.len() == 10 && temp_key.wf() && packet.data@ == #[trigger] sealed_packet(
                        peer_id@,
                        old(peer)@,
                        signer@,
                        messages is Pair,
                        messages.bytes(),
                        *ctx,
                        rand,
                        temp_key,
                    );
                assert(packet.data@ == sealed_packet(
                    peer_id@,
                    old(peer)@,
                    signer@,
                    payload.pair,
                    payload.bytes,
                    *ctx,
                    rand,
                    temp_key,
                ));
            }
            queue.push(packet);
            assert(queue@.drop_last() =~= old(queue)@);
            true
        },
        Err(_) => false,
    }
}

/// What sending a message does to the peer and the queue of datagrams: the
/// first `sent` payloads of the message are queued behind what was queued,
/// each under its own sequence number.
pub open spec fn sent_payloads(
    queue_before: Seq<PacketToSend>,
    queue_after: Seq<PacketToSend>,
    peer_id: Seq<u8>,
    peer_before: PeerView,
    peer_after: PeerView,
    signer: SignerView,
    payloads: Seq<Payload>,
    ctx: SendContext,
    sent: int,
) -> bool {
    &&& queue_after.len() == queue_before.len() + sent
    &&& queue_after.take(queue_before.len() as int) == queue_before
    &&& carry_all(
        queue_after.skip(queue_before.len() as int),
        peer_id,
        peer_before,
        signer,
        payloads,
        ctx,
        sent,
    )
    &&& peer_after == peer_after_sends(peer_before, signer, sent as nat)
}

/// One more payload was sent: the record of what was sent grows by one.
proof fn lemma_one_more(
    queue_before: Seq<PacketToSend>,
    queue_mid: Seq<PacketToSend>,
    queue_after: Seq<PacketToSend>,
    peer_id: Seq<u8>,
    peer_before: PeerView,
    peer_mid: PeerView,
    signer: SignerView,
    payloads: Seq<Payload>,
    ctx: SendContext,
    sent: int,
)
    requires
        0 <= sent < payloads.len(),
        sent_payloads(
            queue_before,
            queue_mid,
            peer_id,
            peer_before,
            peer_mid,
            signer,
            payloads,
            ctx,
            sent,
        ),
        queue_after.len() == queue_mid.len() + 1,
        queue_after.drop_last() == queue_mid,
        carries(queue_after.last(), peer_id, peer_mid, signer, payloads[sent], ctx),
    ensures
        sent_payloads(
            queue_before,
            queue_after,
            peer_id,
            peer_before,
            peer_after_send(peer_mid, signer),
            signer,
            payloads,
            ctx,
            sent + 1,
        ),
{
    let start = queue_before.len() as int;
    assert(queue_after.take(start) =~= queue_mid.take(start));
    let tail_mid = queue_mid.skip(start);
    let tail = queue_after.skip(start);
    assert forall|k: int| 0 <= k < sent + 1 implies carries(
        #[trigger] tail[k],
        peer_id,
        peer_after_sends(peer_before, signer, k as nat),
        signer,
        payloads[k],
        ctx,
    ) by {
        if k < sent {
            assert(tail[k] == tail_mid[k]);
        } else {
            assert(tail[k] == queue_after.last());
        }
    }
}

/// Sends a message to a peer. While no channel is ready the packet goes out
/// as a handshake and carries a message that proposes or confirms a
/// channel. A message too large for one packet goes out in parts. Kinds of
/// message that are not sent on request, and messages with a byte string too
/// long to encode, are refused before anything is sent. Where the sequence
/// numbers run out, what was sent before stays sent.
#[verifier::loop_isolation(false)]
#[verifier::rlimit(50)]
pub fn send_message(
    peer_id: &AdnlNodeIdShort,
    peer: &mut AdnlPeer,
    local_key: &StoredAdnlNodeKey,
    channel: Option<&AdnlChannel>,
    message: &Message,
    priority: bool,
    ctx: &SendContext,
    queue: &mut Vec<PacketToSend>,
) -> (r: Result<(), AdnlNodeError>)
    requires
        old(peer).wf(),
        local_key.wf(),
        channel matches Some(c) ==> c.wf(),
    ensures
        final(peer).wf(),
        ({
            let channel_view = match channel {
                Some(c) => Some(c@),
                None => None,
            };
            let signer = signer_for(
                channel_view,
                priority,
                local_key.spec_private_key(),
                local_key.spec_full_id(),
            );
            let payloads = payloads_of(
                additional_message(
                    old(peer).channel_key_spec().public_bytes(),
                    channel_view,
                    ctx.now,
                ),
                additional_size(channel_view),
                message@,
            );
            if !can_be_sent(message@) {
                &&& r matches Err(e) && e == AdnlNodeError::UnexpectedMessageToSend
                &&& final(peer)@ == old(peer)@
                &&& final(queue)@ == old(queue)@
            } else {
                &&& sent_payloads(
                    old(queue)@,
                    final(queue)@,
                    peer_id@,
                    old(peer)@,
                    final(peer)@,
                    signer,
                    payloads,
                    *ctx,
                    sendable(old(peer)@, signer, payloads.len()) as int,
                )
                &&& if sendable(old(peer)@, signer, payloads.len()) == payloads.len() {
                    r is Ok
                } else {
                    r matches Err(e) && e == AdnlNodeError::FailedToSendPacket
                }
            }
        }),
{
    if !message.check_encodable() {
        return Err(AdnlNodeError::UnexpectedMessageToSend);
    }
    let size = match count_size(message) {
        Some(size) => size,
        None => return Err(AdnlNodeError::UnexpectedMessageToSend),
    };
    let ghost channel_view = match channel {
        Some(c) => Some(c@),
        None => None,
    };
    let ghost peer_before = peer@;
    let ghost queue_before = queue@;
    let ghost add = additional_message(
        peer.channel_key_spec().public_bytes(),
        channel_view,
        ctx.now,
    );
    let ghost payloads = payloads_of(add, additional_size(channel_view), message@);
    let (extra_size, extra_message) = match channel {
        Some(c) => if c.ready() {
            (0, None)
        } else {
            (
                MSG_CONFIRM_CHANNEL_SIZE,
                Some(
                    Message::ConfirmChannel {
                        key: *peer.channel_key().public_key(),
                        peer_key: *c.peer_channel_public_key(),
                        date: c.peer_channel_date(),
                    },
                ),
            )
        },
        None => (
            MSG_CREATE_CHANNEL_SIZE,
            Some(Message::CreateChannel { key: *peer.channel_key().public_key(), date: ctx.now }),
        ),
    };
    let signer = match channel {
        Some(c) => if c.ready() {
            MessageSigner::Channel { channel: c, priority }
        } else {
            MessageSigner::Random(local_key)
        },
        None => MessageSigner::Random(local_key),
    };
    assert(signer@ == signer_for(
        channel_view,
        priority,
        local_key.spec_private_key(),
        local_key.spec_full_id(),
    ));
    assert(match extra_message {
        Some(m) => add == Some(m@),
        None => add is None,
    });
    assert(extra_size == additional_size(channel_view));
    let data = message.serialize();
    proof {
        lemma_encoding_len(message@);
        assert(queue@.take(queue@.len() as int) =~= queue@);
    }
    if extra_size + size <= MAX_ADNL_MESSAGE_SIZE {
        let messages = match &extra_message {
            Some(first) => {
                let mut buffer = first.serialize();
                buffer.extend_from_slice(data.as_slice());
                OutgoingMessages::Pair(buffer)
            },
            None => OutgoingMessages::Single(data),
        };
        assert(additional_size(channel_view) + counted_size(message@).unwrap()
            <= MAX_ADNL_MESSAGE_SIZE);
        assert(payloads.len() == 1);
        assert(payloads[0].pair == (messages is Pair));
        assert(payloads[0].bytes == messages.bytes());
        let sent = send_one(peer_id, peer, signer, messages, ctx, queue);
        proof {
            assert(sendable(peer_before, signer@, 0) == 0);
            assert(peer_after_sends(peer_before, signer@, 0) == peer_before);
            assert(sendable(peer_before, signer@, 1) == if sent {
                1nat
            } else {
                0nat
            });
            if sent {
                lemma_one_more(
                    queue_before,
                    queue_before,
                    queue@,
                    peer_id@,
                    peer_before,
                    peer_before,
                    signer@,
                    payloads,
                    *ctx,
                    0,
                );
            }
        }
        return if sent {
            Ok(())
        } else {
            Err(AdnlNodeError::FailedToSendPacket)
        };
    }
    let hash = sha256_digest(data.as_slice());
    let mut offset: usize = 0;
    let ghost mut sent: int = 0;
    assert(sendable(peer_before, signer@, 0) == 0);
    if let Some(first) = &extra_message {
        let (part, end) = build_part_message(
            &data,
            &hash,
            MAX_ADNL_MESSAGE_SIZE - MSG_PART_PREFIX_SIZE - extra_size,
            offset,
        );
        let mut buffer = first.serialize();
        part.write_to(&mut buffer);
        let messages = OutgoingMessages::Pair(buffer);
        assert(payloads[0] == Payload { pair: true, bytes: messages.bytes() });
        if !send_one(peer_id, peer, signer, messages, ctx, queue) {
            proof {
                lemma_sendable_stuck(peer_before, signer@, 0, payloads.len());
            }
            return Err(AdnlNodeError::FailedToSendPacket);
        }
        proof {
            lemma_one_more(
                queue_before,
                queue_before,
                queue@,
                peer_id@,
                peer_before,
                peer_before,
                signer@,
                payloads,
                *ctx,
                0,
            );
            assert(payloads.skip(1) =~= part_payloads(data@, hash@, end as int));
        }
        offset = end;
        proof {
            sent = 1;
        }
    } else {
        assert(payloads.skip(0) =~= payloads);
    }
    while offset < data.len()
        invariant
            peer.wf(),
            signer.wf(),
            offset <= data@.len() <= u32::MAX,
            0 <= sent <= payloads.len(),
            payloads.skip(sent) == part_payloads(data@, hash@, offset as int),
            sendable(peer_before, signer@, sent as nat) == sent,
            sent_payloads(
                queue_before,
                queue@,
                peer_id@,
                peer_before,
                peer@,
                signer@,
                payloads,
                *ctx,
                sent,
            ),
        decreases data@.len() - offset,
    {
        let (part, end) = build_part_message(&data, &hash, MAX_PART_SIZE, offset);
        let messages = OutgoingMessages::Single(part.serialize());
        let ghost rest = part_payloads(data@, hash@, offset as int);
        assert(rest.len() >= 1);
        assert(payloads.skip(sent)[0] == payloads[sent]);
        assert(rest[0] == payloads[sent]);
        assert(payloads[sent] == Payload { pair: false, bytes: messages.bytes() });
        let ghost queue_mid = queue@;
        let ghost peer_mid = peer@;
        if !send_one(peer_id, peer, signer, messages, ctx, queue) {
            proof {
                lemma_sendable_stuck(peer_before, signer@, sent as nat, payloads.len());
                assert(sent < payloads.len());
                assert(queue@ == queue_mid && peer@ == peer_mid);
            }
            return Err(AdnlNodeError::FailedToSendPacket);
        }
        proof {
            lemma_one_more(
                queue_before,
                queue_mid,
                queue@,
                peer_id@,
                peer_before,
                peer_mid,
                signer@,
                payloads,
                *ctx,
                sent,
            );
            assert(payloads.skip(sent + 1) =~= rest.skip(1));
            assert(rest.skip(1) =~= part_payloads(data@, hash@, end as int));
        }
        offset = end;
        proof {
            sent = sent + 1;
        }
    }
    Ok(())
}

/// The parts that carry an encoded message from `offset` on, each with the
/// offset at which it starts.
pub open spec fn parts_from(data: Seq<u8>, offset: int) -> Seq<(nat, Seq<u8>)>
    decreases data.len() - offset,
{
    if offset < 0 || offset >= data.len() {
        Seq::empty()
    } else {
        seq![
            (offset as nat, data.subrange(offset, part_end(data, offset, MAX_PART_SIZE as int))),
        ] + parts_from(data, part_end(data, offset, MAX_PART_SIZE as int))
    }
}

/// The parts in which a message goes out: a first part of at most
/// `first_max` bytes, and then parts of the largest size.
pub open spec fn parts_of(data: Seq<u8>, first_max: int) -> Seq<(nat, Seq<u8>)> {
    seq![(0nat, data.subrange(0, part_end(data, 0, first_max)))] + parts_from(
        data,
        part_end(data, 0, first_max),
    )
}

/// Copying in parts one after the other is copying in all of them.
pub proof fn lemma_after_parts_joined(
    v: TransferView,
    first: Seq<(nat, Seq<u8>)>,
    then: Seq<(nat, Seq<u8>)>,
)
    ensures
        after_parts(v, first + then) == after_parts(after_parts(v, first), then),
    decreases then.len(),
{
    if then.len() == 0 {
        assert(first + then =~= first);
    } else {
        lemma_after_parts_joined(v, first, then.drop_last());
        assert((first + then).drop_last() =~= first + then.drop_last());
        assert((first + then).last() == then.last());
    }
}

/// The parts from an offset on are parts of the message, and once they are
/// copied in, every byte from the offset on was received.
pub proof fn lemma_parts_from_cover(v: TransferView, data: Seq<u8>, offset: int)
    requires
        v.wf(),
        v.buffer.len() == data.len(),
        0 <= offset <= data.len(),
    ensures
        forall|i: int|
            0 <= i < parts_from(data, offset).len() ==> is_part_of(
                data,
                (#[trigger] parts_from(data, offset)[i]).0,
                parts_from(data, offset)[i].1,
            ),
        after_parts(v, parts_from(data, offset)).received.len() == data.len(),
        forall|i: int|
            0 <= i < data.len() ==> after_parts(v, parts_from(data, offset)).received[i] == (
            v.received[i] || i >= offset),
    decreases data.len() - offset,
{
    if offset < data.len() {
        let end = part_end(data, offset, MAX_PART_SIZE as int);
        let part = (offset as nat, data.subrange(offset, end));
        let rest = parts_from(data, end);
        let one = seq![part];
        let copied = v.with_part(part.0, part.1);
        assert(after_parts(v, one.drop_last()) == v);
        assert(after_parts(v, one) == copied);
        lemma_parts_from_cover(copied, data, end);
        lemma_after_parts_joined(v, one, rest);
        assert forall|i: int| 0 <= i < parts_from(data, offset).len() implies is_part_of(
            data,
            (#[trigger] parts_from(data, offset)[i]).0,
            parts_from(data, offset)[i].1,
        ) by {
            if i > 0 {
                assert(parts_from(data, offset)[i] == rest[i - 1]);
            }
        }
        let done = after_parts(v, parts_from(data, offset));
        assert(done == after_parts(copied, rest));
        assert forall|i: int| 0 <= i < data.len() implies done.received[i] == (v.received[i] || i
            >= offset) by {
            assert(copied.received[i] == (offset <= i < end || v.received[i]));
        }
    } else {
        assert(parts_from(data, offset) =~= Seq::empty());
        assert(after_parts(v, parts_from(data, offset)) == v);
    }
}

/// What the sender splits, the receiver puts together: the parts in which an
/// encoded message goes out are parts of the message, and a new transfer
/// into which all of them were copied, in the order sent, is complete and
/// holds the message.
pub proof fn lemma_parts_reassemble(data: Seq<u8>, first_max: int, now: u32)
    requires
        0 < first_max <= MAX_ADNL_MESSAGE_SIZE,
        data.len() > 0,
    ensures
        forall|i: int|
            0 <= i < parts_of(data, first_max).len() ==> is_part_of(
                data,
                (#[trigger] parts_of(data, first_max)[i]).0,
                parts_of(data, first_max)[i].1,
            ),
        after_parts(TransferView::empty(data.len(), now), parts_of(data, first_max)).complete(),
        after_parts(TransferView::empty(data.len(), now), parts_of(data, first_max)).buffer
            == data,
{
    let empty = TransferView::empty(data.len(), now);
    let end = part_end(data, 0, first_max);
    let part = (0nat, data.subrange(0, end));
    let one = seq![part];
    let rest = parts_from(data, end);
    let copied = empty.with_part(part.0, part.1);
    assert(after_parts(empty, one.drop_last()) == empty);
    assert(after_parts(empty, one) == copied);
    lemma_parts_from_cover(copied, data, end);
    lemma_after_parts_joined(empty, one, rest);
    let parts = parts_of(data, first_max);
    assert forall|i: int| 0 <= i < parts.len() implies is_part_of(
        data,
        (#[trigger] parts[i]).0,
        parts[i].1,
    ) by {
        if i > 0 {
            assert(parts[i] == rest[i - 1]);
        }
    }
    lemma_parts_agree(data, parts, now);
    let done = after_parts(empty, parts);
    assert(done == after_parts(copied, rest));
    assert forall|i: int| 0 <= i < done.received.len() implies done.received[i] by {
        assert(copied.received[i] == (0 <= i < end || empty.received[i]));
    }
    assert(done.buffer =~= data);
}

/// The payloads that carry a message from an offset on are the encodings of
/// its parts from that offset on, each named by the hash and announcing the
/// size of the whole.
pub proof fn lemma_payloads_are_parts(data: Seq<u8>, hash: Seq<u8>, offset: int, i: int)
    requires
        0 <= offset,
        0 <= i < part_payloads(data, hash, offset).len(),
    ensures
        part_payloads(data, hash, offset).len() == parts_from(data, offset).len(),
        !part_payloads(data, hash, offset)[i].pair,
        part_payloads(data, hash, offset)[i].bytes == (MessageView::Part {
            hash,
            total_size: data.len() as u32,
            offset: parts_from(data, offset)[i].0 as u32,
            data: parts_from(data, offset)[i].1,
        }).encoding(),
    decreases data.len() - offset,
{
    lemma_payloads_count(data, hash, offset);
    if offset < data.len() && i > 0 {
        let end = part_end(data, offset, MAX_PART_SIZE as int);
        lemma_payloads_count(data, hash, end);
        lemma_payloads_are_parts(data, hash, end, i - 1);
        assert(part_payloads(data, hash, offset)[i] == part_payloads(data, hash, end)[i - 1]);
        assert(parts_from(data, offset)[i] == parts_from(data, end)[i - 1]);
    }
}

/// There are as many payloads as parts.
pub proof fn lemma_payloads_count(data: Seq<u8>, hash: Seq<u8>, offset: int)
    requires
        0 <= offset,
    ensures
        part_payloads(data, hash, offset).len() == parts_from(data, offset).len(),
    decreases data.len() - offset,
{
    if offset < data.len() {
        lemma_payloads_count(data, hash, part_end(data, offset, MAX_PART_SIZE as int));
    }
}

} // verus!
