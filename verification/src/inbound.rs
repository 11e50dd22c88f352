//! Validation of a received packet: who sent it, whether its signature
//! holds, and whether its dates and sequence numbers are acceptable.

use crate::crypto::{ed25519_key_valid, ed25519_verifies, verify_raw};
use crate::errors::AdnlPacketError;
use crate::history::{
    distinct_up_to, lemma_each_delivered_once, lemma_highest_after_all, lemma_replay_refused,
    HistoryView, HISTORY_BITS,
};
use crate::node_id::{bytes32_eq, short_id_of, AdnlNodeIdFull, AdnlNodeIdShort};
use crate::packet::{
    has_flag, test_flag, AddressList, AdnlAddressUdp, IncomingPacketContents, IncomingPacketView,
    ReinitDates, SignatureField, FLAG_SIGNATURE,
};
use crate::peer::{AdnlPeer, PeerView};
use crate::tl::{copy_range, read_u32, u32_at, u32_le, write_raw, write_u32};
use vstd::prelude::*;

verus! {

/// Whether the place of a signature lies inside the packet, behind the
/// flags, with the signature flag set and a signature of 64 bytes.
pub open spec fn signature_in_place(raw: Seq<u8>, field: SignatureField) -> bool {
    &&& field.flags_at + 4 <= field.field_at <= field.start
    &&& field.len == 64
    &&& field.start + 64 <= field.end <= raw.len()
    &&& has_flag(u32_at(raw, field.flags_at as int), FLAG_SIGNATURE)
    &&& u32_at(raw, field.flags_at as int) >= FLAG_SIGNATURE
}

/// The bytes that were signed: the packet without its signature field and
/// with the signature flag cleared.
pub open spec fn unsigned_bytes(raw: Seq<u8>, field: SignatureField) -> Seq<u8> {
    raw.subrange(0, field.flags_at as int) + u32_le(
        (u32_at(raw, field.flags_at as int) - FLAG_SIGNATURE) as u32,
    ) + raw.subrange(field.flags_at + 4, field.field_at as int) + raw.skip(field.end as int)
}

/// The signature that a packet carries.
pub open spec fn signature_bytes(raw: Seq<u8>, field: SignatureField) -> Seq<u8> {
    raw.subrange(field.start as int, field.start + 64)
}

/// Whether the signature of a packet holds under a key: a signature that
/// stands in its place must belong to the unsigned bytes; a signature out of
/// place counts as missing; a missing signature passes unless one is
/// mandatory.
pub open spec fn signature_verdict(
    raw: Seq<u8>,
    signature: Option<SignatureField>,
    public_key: Seq<u8>,
    mandatory: bool,
) -> Result<(), AdnlPacketError> {
    match signature {
        Some(field) => if !signature_in_place(raw, field) {
            Err(AdnlPacketError::SignatureNotFound)
        } else if ed25519_verifies(
            public_key,
            unsigned_bytes(raw, field),
            signature_bytes(raw, field),
        ) {
            Ok(())
        } else {
            Err(AdnlPacketError::InvalidSignature)
        },
        None => if mandatory {
            Err(AdnlPacketError::SignatureNotFound)
        } else {
            Ok(())
        },
    }
}

/// Takes a packet apart into the bytes that were signed and the signature.
pub fn extract_signature(raw: &[u8], field: &SignatureField) -> (r: Option<(Vec<u8>, [u8; 64])>)
    ensures
        r.is_some() == signature_in_place(raw@, *field),
        r matches Some((message, signature)) ==> message@ == unsigned_bytes(raw@, *field)
            && signature@ == signature_bytes(raw@, *field),
{
    let total = raw.len();
    if field.len != 64 || field.end > total || field.start > field.end || field.end - field.start
        < 64 || field.field_at > field.start || field.flags_at > field.field_at || field.field_at
        - field.flags_at < 4 {
        return None;
    }
    let flags = read_u32(raw, field.flags_at).unwrap();
    if !test_flag(flags, FLAG_SIGNATURE) || flags < FLAG_SIGNATURE {
        return None;
    }
    let mut message = copy_range(raw, 0, field.flags_at);
    write_u32(&mut message, flags - FLAG_SIGNATURE);
    let middle = copy_range(raw, field.flags_at + 4, field.field_at - field.flags_at - 4);
    write_raw(&mut message, middle.as_slice());
    let tail = copy_range(raw, field.end, total - field.end);
    write_raw(&mut message, tail.as_slice());
    assert(tail@ =~= raw@.skip(field.end as int));
    let mut signature = [0u8; 64];
    let mut i: usize = 0;
    while i < 64
        invariant
            i <= 64,
            field.start + 64 <= raw@.len() == total,
            forall|j: int| 0 <= j < i ==> signature@[j] == raw@[field.start + j],
        decreases 64 - i,
    {
        signature[i] = raw[field.start + i];
        i += 1;
    }
    assert(signature@ =~= signature_bytes(raw@, *field));
    Some((message, signature))
}

/// Checks the signature of a packet under a key.
pub fn verify(
    raw_packet: &[u8],
    signature: &Option<SignatureField>,
    public_key: &[u8; 32],
    mandatory: bool,
) -> (r: Result<(), AdnlPacketError>)
    ensures
        r == signature_verdict(raw_packet@, *signature, public_key@, mandatory),
{
    match signature {
        Some(field) => match extract_signature(raw_packet, field) {
            Some((message, signature)) => {
                if verify_raw(public_key, message.as_slice(), &signature) {
                    Ok(())
                } else {
                    Err(AdnlPacketError::InvalidSignature)
                }
            },
            None => Err(AdnlPacketError::SignatureNotFound),
        },
        None => if mandatory {
            Err(AdnlPacketError::SignatureNotFound)
        } else {
            Ok(())
        },
    }
}

/// Who sent a packet, as far as the packet itself tells.
pub struct PacketSource {
    /// The sender's short id.
    pub peer_id: AdnlNodeIdShort,
    /// The sender's key, where the packet carries it.
    pub full_id: Option<AdnlNodeIdFull>,
}

/// The sender of a packet as plain values.
pub struct SourceView {
    pub peer_id: Seq<u8>,
    pub full_id: Option<Seq<u8>>,
}

impl View for PacketSource {
    type V = SourceView;

    open spec fn view(&self) -> SourceView {
        SourceView {
            peer_id: self.peer_id@,
            full_id: match self.full_id {
                Some(id) => Some(id@),
                None => None,
            },
        }
    }
}

/// The sender of a packet. A channel packet comes from the channel's peer
/// and may not name a source. A handshake packet names its source by a key,
/// which must be a valid one, must fit the short id if one is given too, and
/// must have signed the packet where signatures are required; or by a short
/// id alone.
pub open spec fn source_of(
    raw: Seq<u8>,
    packet: IncomingPacketView,
    channel_peer: Option<Seq<u8>>,
    signature_required: bool,
) -> Result<SourceView, AdnlPacketError> {
    match channel_peer {
        Some(peer_id) => if packet.from is Some || packet.from_short is Some {
            Err(AdnlPacketError::ExplicitSourceForChannel)
        } else {
            Ok(SourceView { peer_id, full_id: None })
        },
        None => match packet.from {
            Some(key) => if !ed25519_key_valid(key) {
                Err(AdnlPacketError::InvalidPeerId)
            } else if packet.from_short matches Some(id) && id != short_id_of(key) {
                Err(AdnlPacketError::InvalidPeerId)
            } else {
                match signature_verdict(raw, packet.signature, key, signature_required) {
                    Ok(()) => Ok(SourceView { peer_id: short_id_of(key), full_id: Some(key) }),
                    Err(e) => Err(e),
                }
            },
            None => match packet.from_short {
                Some(id) => Ok(SourceView { peer_id: id, full_id: None }),
                None => Err(AdnlPacketError::NoKeyDataInPacket),
            },
        },
    }
}

/// Finds out who sent a packet.
pub fn resolve_source(
    raw_packet: &[u8],
    packet: &IncomingPacketContents,
    channel_peer: Option<AdnlNodeIdShort>,
    signature_required: bool,
) -> (r: Result<PacketSource, AdnlPacketError>)
    ensures
        match source_of(
            raw_packet@,
            packet@,
            match channel_peer {
                Some(id) => Some(id@),
                None => None,
            },
            signature_required,
        ) {
            Ok(view) => r matches Ok(source) && source@ == view,
            Err(e) => r matches Err(got) && got == e,
        },
{
    if let Some(peer_id) = channel_peer {
        if packet.from.is_some() || packet.from_short.is_some() {
            return Err(AdnlPacketError::ExplicitSourceForChannel);
        }
        return Ok(PacketSource { peer_id, full_id: None });
    }
    if let Some(public_key) = packet.from {
        let full_id = match AdnlNodeIdFull::new(public_key) {
            Some(id) => id,
            None => return Err(AdnlPacketError::InvalidPeerId),
        };
        let peer_id = full_id.compute_short_id();
        if let Some(id) = &packet.from_short {
            if !bytes32_eq(peer_id.as_slice(), id) {
                return Err(AdnlPacketError::InvalidPeerId);
            }
        }
        match verify(raw_packet, &packet.signature, full_id.public_key(), signature_required) {
            Ok(()) => {},
            Err(e) => return Err(e),
        }
        return Ok(PacketSource { peer_id, full_id: Some(full_id) });
    }
    match packet.from_short {
        Some(id) => Ok(PacketSource { peer_id: AdnlNodeIdShort::new(id), full_id: None }),
        None => Err(AdnlPacketError::NoKeyDataInPacket),
    }
}

/// The address that a list announces, where the list names one, is not
/// dated further in the future than the clock tolerance allows, and has not
/// expired.
pub open spec fn announced_address(list: AddressList, now: u32, clock_tolerance: u32) -> Option<
    AdnlAddressUdp,
> {
    if list.reinit_date > now + clock_tolerance {
        None
    } else if list.expire_at != 0 && list.expire_at < now {
        None
    } else {
        list.address
    }
}

/// Reads the sender's address from the address list of a packet.
pub fn parse_address_list(list: &AddressList, now: u32, clock_tolerance: u32) -> (r: Result<
    AdnlAddressUdp,
    AdnlPacketError,
>)
    ensures
        match announced_address(*list, now, clock_tolerance) {
            Some(address) => r matches Ok(got) && got == address,
            None => r matches Err(e) && e == AdnlPacketError::InvalidAddressList,
        },
{
    if list.reinit_date as u64 > now as u64 + clock_tolerance as u64 {
        return Err(AdnlPacketError::InvalidAddressList);
    }
    if list.expire_at != 0 && list.expire_at < now {
        return Err(AdnlPacketError::InvalidAddressList);
    }
    match list.address {
        Some(address) => Ok(address),
        None => Err(AdnlPacketError::InvalidAddressList),
    }
}

/// What the checks against the peer's state end in.
#[derive(Debug, Copy, Clone, PartialEq, Eq, Structural)]
pub enum PeerVerdict {
    /// The packet is new and acceptable.
    Accepted,
    /// The packet's sequence number was delivered before.
    Duplicate,
    /// The packet expects an older local reinit date: the peer is to be
    /// prodded with an empty message, and the packet is refused.
    Outdated,
    /// The packet is refused.
    Rejected(AdnlPacketError),
}

/// The checks of a packet's reinit dates against a peer: the verdict so far
/// and the peer afterwards. `None` as verdict lets the packet pass on to the
/// next check.
pub open spec fn dates_verdict(
    peer: PeerView,
    dates: Option<ReinitDates>,
    now: u32,
    clock_tolerance: u32,
) -> (Option<PeerVerdict>, PeerView) {
    match dates {
        None => (None, peer),
        Some(d) => if d.target > peer.receiver.reinit_date {
            (Some(PeerVerdict::Rejected(AdnlPacketError::DstReinitDateTooNew)), peer)
        } else if d.local > now + clock_tolerance {
            (Some(PeerVerdict::Rejected(AdnlPacketError::SrcReinitDateTooNew)), peer)
        } else if !peer.reinit_accepted(d.local) {
            (Some(PeerVerdict::Rejected(AdnlPacketError::SrcReinitDateTooOld)), peer)
        } else if d.target != 0 && d.target < peer.receiver.reinit_date {
            (Some(PeerVerdict::Outdated), peer.reinit(d.local))
        } else {
            (None, peer.reinit(d.local))
        },
    }
}

/// The checks of a packet's sequence numbers against a peer: the verdict and
/// the peer afterwards. A sequence number is offered to the history of the
/// packet's priority class; a confirmation must not run ahead of what was
/// sent.
pub open spec fn seqno_verdict(
    peer: PeerView,
    seqno: Option<u64>,
    confirm_seqno: Option<u64>,
    priority: bool,
) -> (PeerVerdict, PeerView) {
    let delivered = match seqno {
        Some(s) => !peer.receiver.checked || peer.receiver.history(priority).accepts(s),
        None => true,
    };
    let after = match seqno {
        Some(s) => PeerView {
            receiver: peer.receiver.with_history(
                priority,
                peer.receiver.history(priority).deliver(s),
            ),
            ..peer
        },
        None => peer,
    };
    if !delivered {
        (PeerVerdict::Duplicate, after)
    } else if confirm_seqno matches Some(c) && c > after.sender.history(priority).max {
        (PeerVerdict::Rejected(AdnlPacketError::ConfirmationSeqnoTooNew), after)
    } else {
        (PeerVerdict::Accepted, after)
    }
}

/// Where sequence numbers are checked, a sequence number that was offered
/// once is a duplicate when it is offered again, and the second offer leaves
/// the peer as it was.
pub proof fn lemma_replay_is_duplicate(
    peer: PeerView,
    seqno: u64,
    first_confirm: Option<u64>,
    second_confirm: Option<u64>,
    priority: bool,
)
    requires
        peer.receiver.checked,
        peer.receiver.history(priority).wf(),
    ensures
        ({
            let after = seqno_verdict(peer, Some(seqno), first_confirm, priority).1;
            seqno_verdict(after, Some(seqno), second_confirm, priority) == (
                PeerVerdict::Duplicate,
                after,
            )
        }),
{
    lemma_replay_refused(peer.receiver.history(priority), seqno);
}

/// Where sequence numbers are checked, a number that lies a window's width
/// or more below the highest number seen is a duplicate, and the peer stays
/// as it was.
pub proof fn lemma_number_below_window_is_duplicate(
    peer: PeerView,
    seqno: u64,
    confirm: Option<u64>,
    priority: bool,
)
    requires
        peer.receiver.checked,
        seqno + HISTORY_BITS <= peer.receiver.history(priority).max,
    ensures
        seqno_verdict(peer, Some(seqno), confirm, priority) == (PeerVerdict::Duplicate, peer),
{
    let history = peer.receiver.history(priority);
    assert(!history.accepts(seqno));
    assert(peer.receiver.with_history(priority, history) == peer.receiver);
}

/// The peer after packets with the given sequence numbers, which confirm
/// nothing, were checked one after the other.
pub open spec fn after_numbers(peer: PeerView, numbers: Seq<u64>, priority: bool) -> PeerView
    decreases numbers.len(),
{
    if numbers.len() == 0 {
        peer
    } else {
        after_numbers(
            seqno_verdict(peer, Some(numbers[0]), None, priority).1,
            numbers.skip(1),
            priority,
        )
    }
}

/// Checking sequence numbers offers them to the history of their priority
/// class and touches nothing else of the peer.
pub proof fn lemma_after_numbers(peer: PeerView, numbers: Seq<u64>, priority: bool)
    ensures
        after_numbers(peer, numbers, priority) == (PeerView {
            receiver: peer.receiver.with_history(
                priority,
                peer.receiver.history(priority).deliver_all(numbers),
            ),
            ..peer
        }),
    decreases numbers.len(),
{
    let history = peer.receiver.history(priority);
    if numbers.len() == 0 {
        assert(peer.receiver.with_history(priority, history) == peer.receiver);
    } else {
        let next = seqno_verdict(peer, Some(numbers[0]), None, priority).1;
        lemma_after_numbers(next, numbers.skip(1), priority);
        assert(next.receiver.with_history(
            priority,
            next.receiver.history(priority).deliver_all(numbers.skip(1)),
        ) == peer.receiver.with_history(priority, history.deliver_all(numbers)));
    }
}

/// Where sequence numbers are checked, packets that bring the numbers from 1
/// to `n`, with `n` no more than the window's width, to a peer of which
/// nothing was delivered yet are all accepted, in whatever order they come
/// and each once; the highest number seen is `n` once `n` has come.
pub proof fn lemma_numbers_in_any_order(
    peer: PeerView,
    order: Seq<u64>,
    n: u64,
    i: int,
    priority: bool,
)
    requires
        peer.receiver.checked,
        peer.receiver.history(priority) == HistoryView::empty(),
        distinct_up_to(order, n),
        n <= HISTORY_BITS,
        0 <= i < order.len(),
    ensures
        seqno_verdict(
            after_numbers(peer, order.take(i), priority),
            Some(order[i]),
            None,
            priority,
        ).0 == PeerVerdict::Accepted,
        order[i] == n ==> after_numbers(peer, order, priority).receiver.history(priority).max
            == n,
{
    lemma_after_numbers(peer, order.take(i), priority);
    lemma_after_numbers(peer, order, priority);
    lemma_each_delivered_once(order, n, i);
    if order[i] == n {
        lemma_highest_after_all(order, n, i);
    }
}

/// All checks of a packet against the peer it claims to come from, in their
/// order: the signature under the peer's key where it is to be checked, the
/// reinit dates, the sequence numbers.
pub open spec fn peer_verdict(
    peer: PeerView,
    raw: Seq<u8>,
    packet: IncomingPacketView,
    check_signature: bool,
    now: u32,
    clock_tolerance: u32,
    priority: bool,
) -> (PeerVerdict, PeerView) {
    if check_signature && signature_verdict(raw, packet.signature, peer.id, false) is Err {
        (
            PeerVerdict::Rejected(
                signature_verdict(raw, packet.signature, peer.id, false)->Err_0,
            ),
            peer,
        )
    } else {
        let (verdict, dated) = dates_verdict(peer, packet.reinit_dates, now, clock_tolerance);
        match verdict {
            Some(v) => (v, dated),
            None => seqno_verdict(dated, packet.seqno, packet.confirm_seqno, priority),
        }
    }
}

/// A packet that is found to be a duplicate leaves the peer as it was: not
/// a date and not a history has changed.
pub proof fn lemma_duplicate_changes_nothing(
    peer: PeerView,
    raw: Seq<u8>,
    packet: IncomingPacketView,
    check_signature: bool,
    now: u32,
    clock_tolerance: u32,
    priority: bool,
)
    requires
        peer_verdict(peer, raw, packet, check_signature, now, clock_tolerance, priority).0
            == PeerVerdict::Duplicate,
    ensures
        peer_verdict(peer, raw, packet, check_signature, now, clock_tolerance, priority).1 == peer,
{
    let (verdict, dated) = dates_verdict(peer, packet.reinit_dates, now, clock_tolerance);
    assert(verdict is None);
    let seqno = packet.seqno->0;
    if dated != peer {
        assert(dated.receiver.history(priority) == HistoryView::empty());
        assert(HistoryView::empty().accepts(seqno));
    }
    let history = peer.receiver.history(priority);
    assert(history.deliver(seqno) == history);
    assert(peer.receiver.with_history(priority, history) == peer.receiver);
}

/// A packet from a peer of which nothing was delivered yet in the packet's
/// priority class is no duplicate.
pub proof fn lemma_first_packet_is_no_duplicate(
    peer: PeerView,
    raw: Seq<u8>,
    packet: IncomingPacketView,
    check_signature: bool,
    now: u32,
    clock_tolerance: u32,
    priority: bool,
)
    requires
        peer.receiver.history(priority) == HistoryView::empty(),
    ensures
        peer_verdict(peer, raw, packet, check_signature, now, clock_tolerance, priority).0
            != PeerVerdict::Duplicate,
{
    let (verdict, dated) = dates_verdict(peer, packet.reinit_dates, now, clock_tolerance);
    assert(dated.receiver.history(priority) == HistoryView::empty());
    if packet.seqno is Some {
        assert(HistoryView::empty().accepts(packet.seqno->0));
    }
}

/// Checks a packet against the peer it claims to come from and updates the
/// peer's state.
pub fn check_against_peer(
    peer: &mut AdnlPeer,
    raw_packet: &[u8],
    packet: &IncomingPacketContents,
    check_signature: bool,
    now: u32,
    clock_tolerance: u32,
    priority: bool,
) -> (verdict: PeerVerdict)
    requires
        old(peer).wf(),
    ensures
        final(peer).wf(),
        (verdict, final(peer)@) == peer_verdict(
            old(peer)@,
            raw_packet@,
            packet@,
            check_signature,
            now,
            clock_tolerance,
            priority,
        ),
{
    if check_signature {
        match verify(raw_packet, &packet.signature, peer.id().public_key(), false) {
            Ok(()) => {},
            Err(e) => return PeerVerdict::Rejected(e),
        }
    }
    if let Some(dates) = packet.reinit_dates {
        if dates.target > peer.receiver_state().reinit_date() {
            return PeerVerdict::Rejected(AdnlPacketError::DstReinitDateTooNew);
        }
        if dates.local as u64 > now as u64 + clock_tolerance as u64 {
            return PeerVerdict::Rejected(AdnlPacketError::SrcReinitDateTooNew);
        }
        let local_reinit_date = peer.receiver_state().reinit_date();
        if !peer.try_reinit(dates.local) {
            return PeerVerdict::Rejected(AdnlPacketError::SrcReinitDateTooOld);
        }
        if dates.target != 0 && dates.target < local_reinit_date {
            return PeerVerdict::Outdated;
        }
    }
    if let Some(seqno) = packet.seqno {
        if !peer.deliver_packet(seqno, priority) {
            return PeerVerdict::Duplicate;
        }
    }
    if let Some(confirm_seqno) = packet.confirm_seqno {
        if confirm_seqno > peer.sender_state().seqno(priority) {
            return PeerVerdict::Rejected(AdnlPacketError::ConfirmationSeqnoTooNew);
        }
    }
    PeerVerdict::Accepted
}

} // verus!
