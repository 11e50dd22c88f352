//! What is written into a packet is what is read from it.

use crate::crypto::{ed25519_key_valid, ed25519_verifies};
use crate::inbound::{
    signature_bytes, signature_in_place, signature_verdict, source_of, unsigned_bytes, SourceView,
};
use crate::message::{lemma_message_round_trip, MessageView};
use crate::node_id::short_id_of;
use crate::packet::{
    address_field, address_list_at, addresses_at, from_field, from_short_field, has_flag,
    messages_at, messages_field, packet_of, packet_tail, reinit_field, skip_u32_field, u64_field, AddressList, AdnlAddressUdp, IncomingPacketView,
    OutgoingPacketView, ReinitDates, SignatureField, ADDRESS_UDP_ID, FLAGS_END, FLAG_ADDRESS,
    FLAG_CONFIRM_SEQNO, FLAG_FROM, FLAG_FROM_SHORT, FLAG_MULTIPLE_MESSAGES, FLAG_ONE_MESSAGE,
    FLAG_PRIORITY_ADDRESS, FLAG_RECV_ADDR_VERSION, FLAG_RECV_PRIORITY_ADDR_VERSION,
    FLAG_REINIT_DATES, FLAG_SEQNO, FLAG_SIGNATURE, PACKET_CONTENTS_ID, PUB_ED25519_ID,
};
use crate::tl::{
    bytes_at, bytes_encoding, lemma_bytes_at_encoding, lemma_u32_at_encoding,
    lemma_u64_at_encoding, u32_at, u32_le, u64_le, MAX_BYTES_LEN,
};
use vstd::prelude::*;

verus! {

/// The encodings of messages, one after the other.
pub open spec fn encodings(messages: Seq<MessageView>) -> Seq<u8>
    decreases messages.len(),
{
    if messages.len() == 0 {
        Seq::empty()
    } else {
        messages[0].encoding() + encodings(messages.skip(1))
    }
}

/// Messages read where they were written, one after the other, are the
/// messages, and reading ends where their encodings end.
pub proof fn lemma_messages_round_trip(before: Seq<u8>, messages: Seq<MessageView>, after: Seq<u8>)
    requires
        forall|i: int| 0 <= i < messages.len() ==> (#[trigger] messages[i]).wf(),
    ensures
        messages_at(before + encodings(messages) + after, before.len() as int, messages.len())
            == Some((messages, (before.len() + encodings(messages).len()) as int)),
    decreases messages.len(),
{
    let s = before + encodings(messages) + after;
    if messages.len() == 0 {
        assert(messages =~= Seq::empty());
    } else {
        let first = messages[0];
        let rest = messages.skip(1);
        let tail = encodings(rest) + after;
        assert(first.wf());
        assert(s =~= before + first.encoding() + tail);
        lemma_message_round_trip(before, first, tail);
        assert forall|i: int| 0 <= i < rest.len() implies (#[trigger] rest[i]).wf() by {
            assert(rest[i] == messages[i + 1]);
        }
        assert(s =~= (before + first.encoding()) + encodings(rest) + after);
        lemma_messages_round_trip(before + first.encoding(), rest, after);
        assert(seq![first] + rest =~= messages);
    }
}

/// The encodings of 32-bit values, one after the other.
pub open spec fn u32s(values: Seq<u32>) -> Seq<u8>
    decreases values.len(),
{
    if values.len() == 0 {
        Seq::empty()
    } else {
        u32s(values.drop_last()) + u32_le(values.last())
    }
}

/// Each of several 32-bit values written in a row is read at its place.
pub proof fn lemma_u32s_at(before: Seq<u8>, values: Seq<u32>, after: Seq<u8>, i: int)
    requires
        0 <= i < values.len(),
    ensures
        u32s(values).len() == 4 * values.len(),
        u32_at(before + u32s(values) + after, before.len() + 4 * i) == values[i],
    decreases values.len(),
{
    let front = values.drop_last();
    let last = values.last();
    lemma_u32s_len(front);
    lemma_u32_at_encoding(before + u32s(front), last, after);
    assert(before + u32s(values) + after =~= (before + u32s(front)) + u32_le(last) + after);
    if i < values.len() - 1 {
        lemma_u32s_at(before, front, u32_le(last) + after, i);
        assert(before + u32s(values) + after =~= before + u32s(front) + (u32_le(last) + after));
    }
}

/// Several 32-bit values take four bytes each.
pub proof fn lemma_u32s_len(values: Seq<u32>)
    ensures
        u32s(values).len() == 4 * values.len(),
    decreases values.len(),
{
    if values.len() > 0 {
        lemma_u32s_len(values.drop_last());
        lemma_u32_at_encoding(Seq::empty(), values.last(), Seq::empty());
    }
}

/// The values that an address list is written as.
pub open spec fn address_list_values(list: AddressList) -> Seq<u32> {
    match list.address {
        Some(a) => seq![
            1u32,
            ADDRESS_UDP_ID,
            a.ip,
            a.port as u32,
            list.version,
            list.reinit_date,
            list.priority,
            list.expire_at,
        ],
        None => seq![0u32, list.version, list.reinit_date, list.priority, list.expire_at],
    }
}

/// An address list is written as a row of 32-bit values.
pub proof fn lemma_address_list_values(list: AddressList)
    ensures
        list.encoding() == u32s(address_list_values(list)),
{
    let v = address_list_values(list);
    reveal_with_fuel(u32s, 9);
    match list.address {
        Some(a) => {
            let v7 = v.drop_last();
            let v6 = v7.drop_last();
            let v5 = v6.drop_last();
            let v4 = v5.drop_last();
            let v3 = v4.drop_last();
            let v2 = v3.drop_last();
            let v1 = v2.drop_last();
            assert(v1.drop_last() =~= Seq::<u32>::empty());
            assert(u32s(v1) =~= u32_le(1));
            assert(list.encoding() =~= u32s(v));
        },
        None => {
            let v4 = v.drop_last();
            let v3 = v4.drop_last();
            let v2 = v3.drop_last();
            let v1 = v2.drop_last();
            assert(v1.drop_last() =~= Seq::<u32>::empty());
            assert(u32s(v1) =~= u32_le(0));
            assert(list.encoding() =~= u32s(v));
        },
    }
}

/// An address list read where it was written is the list.
pub proof fn lemma_address_list_round_trip(before: Seq<u8>, list: AddressList, after: Seq<u8>)
    ensures
        list.encoding().len() == if list.address is Some {
            32int
        } else {
            20int
        },
        address_list_at(before + list.encoding() + after, before.len() as int) == Some(
            (list, (before.len() + list.encoding().len()) as int),
        ),
{
    let s = before + list.encoding() + after;
    let at = before.len() as int;
    let v = address_list_values(list);
    lemma_address_list_values(list);
    lemma_u32s_len(v);
    assert forall|i: int| 0 <= i < v.len() implies u32_at(s, at + 4 * i) == v[i] by {
        lemma_u32s_at(before, v, after, i);
    }
    match list.address {
        Some(a) => {
            assert(u32_at(s, at + 4 * 0) == v[0]);
            assert(u32_at(s, at + 4 * 1) == v[1]);
            assert(u32_at(s, at + 4 * 2) == v[2]);
            assert(u32_at(s, at + 4 * 3) == v[3]);
            assert(u32_at(s, at + 4 * 4) == v[4]);
            assert(u32_at(s, at + 4 * 5) == v[5]);
            assert(u32_at(s, at + 4 * 6) == v[6]);
            assert(u32_at(s, at + 4 * 7) == v[7]);
            assert(addresses_at(s, at + 16, 0) == Some((None::<AdnlAddressUdp>, at + 16)));
            let first = AdnlAddressUdp {
                ip: u32_at(s, at + 8),
                port: (u32_at(s, at + 12) % 0x10000) as u16,
            };
            assert(first == a);
            assert(addresses_at(s, at + 4, 1) == Some((Some(a), at + 16)));
        },
        None => {
            assert(u32_at(s, at + 4 * 0) == v[0]);
            assert(u32_at(s, at + 4 * 1) == v[1]);
            assert(u32_at(s, at + 4 * 2) == v[2]);
            assert(u32_at(s, at + 4 * 3) == v[3]);
            assert(u32_at(s, at + 4 * 4) == v[4]);
            assert(addresses_at(s, at + 4, 0) == Some((None::<AdnlAddressUdp>, at + 4)));
        },
    }
}

/// What the flags of an outgoing packet announce.
pub proof fn lemma_flags(p: OutgoingPacketView)
    ensures
        p.flags() < FLAGS_END,
        has_flag(p.flags(), FLAG_FROM) == p.from is Some,
        !has_flag(p.flags(), FLAG_FROM_SHORT),
        has_flag(p.flags(), FLAG_ONE_MESSAGE) == !p.pair,
        has_flag(p.flags(), FLAG_MULTIPLE_MESSAGES) == p.pair,
        has_flag(p.flags(), FLAG_ADDRESS),
        !has_flag(p.flags(), FLAG_PRIORITY_ADDRESS),
        has_flag(p.flags(), FLAG_SEQNO),
        has_flag(p.flags(), FLAG_CONFIRM_SEQNO),
        !has_flag(p.flags(), FLAG_RECV_ADDR_VERSION),
        !has_flag(p.flags(), FLAG_RECV_PRIORITY_ADDR_VERSION),
        has_flag(p.flags(), FLAG_REINIT_DATES) == p.reinit_dates is Some,
        has_flag(p.flags(), FLAG_SIGNATURE) == p.signature is Some,
        p.flags() >= FLAG_SIGNATURE <==> p.signature is Some,
        p.signature is Some ==> p.unsigned().flags() == p.flags() - FLAG_SIGNATURE,
{
}

/// The reinit dates of a packet as they are written.
pub open spec fn reinit_segment(dates: Option<ReinitDates>) -> Seq<u8> {
    match dates {
        Some(d) => u32_le(d.local) + u32_le(d.target),
        None => Seq::empty(),
    }
}

/// The signature of a packet as it is written.
pub open spec fn signature_segment(signature: Option<Seq<u8>>) -> Seq<u8> {
    match signature {
        Some(bytes) => bytes_encoding(bytes),
        None => Seq::empty(),
    }
}

/// The sender's key as it is written.
pub open spec fn from_segment(from: Option<Seq<u8>>) -> Seq<u8> {
    match from {
        Some(key) => u32_le(PUB_ED25519_ID) + key,
        None => Seq::empty(),
    }
}

/// The count that precedes two messages.
pub open spec fn count_segment(pair: bool) -> Seq<u8> {
    if pair {
        u32_le(2)
    } else {
        Seq::empty()
    }
}

/// The fields of a packet behind its messages, as they are written.
pub open spec fn tail_encoding(p: OutgoingPacketView) -> Seq<u8> {
    p.address.encoding() + (u64_le(p.seqno) + (u64_le(p.confirm_seqno) + (reinit_segment(
        p.reinit_dates,
    ) + (signature_segment(p.signature) + bytes_encoding(p.rand2)))))
}

/// Joining byte strings is associative.
pub proof fn lemma_join(a: Seq<u8>, b: Seq<u8>, c: Seq<u8>)
    ensures
        (a + b) + c == a + (b + c),
{
    assert((a + b) + c =~= a + (b + c));
}

/// The packet as it is written, field by field.
pub open spec fn wire(p: OutgoingPacketView) -> Seq<u8> {
    u32_le(PACKET_CONTENTS_ID) + (bytes_encoding(p.rand1) + (u32_le(p.flags()) + (from_segment(
        p.from,
    ) + (count_segment(p.pair) + (p.messages + tail_encoding(p))))))
}

/// The encoding of a packet is its fields in a row.
pub proof fn lemma_encoding_parts(p: OutgoingPacketView)
    ensures
        p.encoding() == wire(p),
        p.encoding_head().len() == u32_le(PACKET_CONTENTS_ID).len() + bytes_encoding(p.rand1).len()
            + u32_le(p.flags()).len() + from_segment(p.from).len() + count_segment(p.pair).len()
            + p.messages.len() + p.address.encoding().len() + u64_le(p.seqno).len() + u64_le(
            p.confirm_seqno,
        ).len() + reinit_segment(p.reinit_dates).len(),
{
    let f0 = u32_le(PACKET_CONTENTS_ID);
    let f1 = f0 + bytes_encoding(p.rand1);
    let f2 = f1 + u32_le(p.flags());
    let f3 = f2 + from_segment(p.from);
    let f4 = f3 + count_segment(p.pair);
    let f5 = f4 + p.messages;
    let c0 = p.address.encoding();
    let c1 = u64_le(p.seqno);
    let c2 = u64_le(p.confirm_seqno);
    let c3 = reinit_segment(p.reinit_dates);
    let c4 = signature_segment(p.signature);
    let c5 = bytes_encoding(p.rand2);
    let h1 = f5 + c0;
    let h2 = h1 + c1;
    let h3 = h2 + c2;
    let h4 = h3 + c3;
    let h5 = h4 + c4;
    assert(p.encoding_head() == h4);
    assert(p.encoding() == h5 + c5);
    let t4 = c4 + c5;
    let t3 = c3 + t4;
    let t2 = c2 + t3;
    let t1 = c1 + t2;
    let t0 = c0 + t1;
    lemma_join(h4, c4, c5);
    lemma_join(h3, c3, t4);
    lemma_join(h2, c2, t3);
    lemma_join(h1, c1, t2);
    lemma_join(f5, c0, t1);
    let w5 = p.messages + t0;
    let w4 = count_segment(p.pair) + w5;
    let w3 = from_segment(p.from) + w4;
    let w2 = u32_le(p.flags()) + w3;
    let w1 = bytes_encoding(p.rand1) + w2;
    lemma_join(f4, p.messages, t0);
    lemma_join(f3, count_segment(p.pair), w5);
    lemma_join(f2, from_segment(p.from), w4);
    lemma_join(f1, u32_le(p.flags()), w3);
    lemma_join(f0, bytes_encoding(p.rand1), w2);
}

/// Where the signature of a packet stands, once the packet is written.
pub open spec fn signature_place(p: OutgoingPacketView) -> SignatureField {
    let at = p.encoding_head().len() as int;
    let found = bytes_at(p.encoding(), at)->0;
    SignatureField {
        flags_at: (4 + bytes_encoding(p.rand1).len()) as usize,
        field_at: at as usize,
        start: found.0 as usize,
        len: found.1 as usize,
        end: found.2 as usize,
    }
}

/// What is read from a packet that was written with the given messages.
pub open spec fn read_back(p: OutgoingPacketView, messages: Seq<MessageView>) -> IncomingPacketView {
    IncomingPacketView {
        from: p.from,
        from_short: None,
        messages,
        address: Some(p.address),
        seqno: Some(p.seqno),
        confirm_seqno: Some(p.confirm_seqno),
        reinit_dates: p.reinit_dates,
        signature: match p.signature {
            Some(_) => Some(signature_place(p)),
            None => None,
        },
    }
}

/// Whether a packet carries the given messages and can be written: one
/// message or two, all byte strings short enough for their length prefixes,
/// the key 32 bytes long, and the whole no longer than an offset can count.
pub open spec fn writable(p: OutgoingPacketView, messages: Seq<MessageView>) -> bool {
    &&& p.rand1.len() <= MAX_BYTES_LEN
    &&& p.rand2.len() <= MAX_BYTES_LEN
    &&& (p.from matches Some(key) ==> key.len() == 32)
    &&& (p.signature matches Some(bytes) ==> bytes.len() <= MAX_BYTES_LEN)
    &&& forall|i: int| 0 <= i < messages.len() ==> (#[trigger] messages[i]).wf()
    &&& messages.len() == if p.pair {
        2nat
    } else {
        1nat
    }
    &&& p.messages == encodings(messages)
    &&& p.encoding().len() <= usize::MAX
}

/// The fields behind the messages are read as they were written.
#[verifier::rlimit(40)]
proof fn lemma_tail_round_trip(
    before: Seq<u8>,
    p: OutgoingPacketView,
    flags_at: int,
    from: Option<Seq<u8>>,
    from_short: Option<Seq<u8>>,
    messages: Seq<MessageView>,
)
    requires
        p.rand2.len() <= MAX_BYTES_LEN,
        p.signature matches Some(bytes) ==> bytes.len() <= MAX_BYTES_LEN,
        before.len() + tail_encoding(p).len() <= usize::MAX,
        0 <= flags_at <= usize::MAX,
    ensures
        packet_tail(
            before + tail_encoding(p),
            before.len() as int,
            p.flags(),
            flags_at,
            from,
            from_short,
            messages,
        ) == Some(
            IncomingPacketView {
                from,
                from_short,
                messages,
                address: Some(p.address),
                seqno: Some(p.seqno),
                confirm_seqno: Some(p.confirm_seqno),
                reinit_dates: p.reinit_dates,
                signature: match p.signature {
                    Some(_) => {
                        let at = (before.len() + p.address.encoding().len() + 16
                            + reinit_segment(p.reinit_dates).len()) as int;
                        let found = bytes_at(before + tail_encoding(p), at)->0;
                        Some(
                            SignatureField {
                                flags_at: flags_at as usize,
                                field_at: at as usize,
                                start: found.0 as usize,
                                len: found.1 as usize,
                                end: found.2 as usize,
                            },
                        )
                    },
                    None => None,
                },
            },
        ),
{
    let s = before + tail_encoding(p);
    let flags = p.flags();
    lemma_flags(p);
    let c0 = p.address.encoding();
    let c1 = u64_le(p.seqno);
    let c2 = u64_le(p.confirm_seqno);
    let c3 = reinit_segment(p.reinit_dates);
    let c4 = signature_segment(p.signature);
    let c5 = bytes_encoding(p.rand2);
    let t5 = c5;
    let t4 = c4 + t5;
    let t3 = c3 + t4;
    let t2 = c2 + t3;
    let t1 = c1 + t2;
    let head1 = before + c0;
    let head2 = head1 + c1;
    let head3 = head2 + c2;
    let head4 = head3 + c3;
    let head5 = head4 + c4;
    lemma_join(before, c0, t1);
    lemma_join(head1, c1, t2);
    lemma_join(head2, c2, t3);
    lemma_join(head3, c3, t4);
    lemma_join(head4, c4, t5);
    assert(s == head1 + t1);
    assert(s == head2 + t2);
    assert(s == head3 + t3);
    assert(s == head4 + t4);
    assert(s == head5 + t5);
    assert(head5 + c5 + Seq::<u8>::empty() =~= head5 + t5);
    let a0 = before.len() as int;
    // the address list
    lemma_address_list_round_trip(before, p.address, t1);
    let a1 = a0 + c0.len();
    assert(address_field(s, a0, flags, FLAG_ADDRESS) == Some((Some(p.address), a1)));
    assert(address_field(s, a1, flags, FLAG_PRIORITY_ADDRESS) == Some((None::<AddressList>, a1)));
    // the sequence numbers
    lemma_u64_at_encoding(head1, p.seqno, t2);
    let a3 = a1 + 8;
    assert(u64_field(s, a1, flags, FLAG_SEQNO) == Some((Some(p.seqno), a3)));
    lemma_u64_at_encoding(head2, p.confirm_seqno, t3);
    let a4 = a3 + 8;
    assert(u64_field(s, a3, flags, FLAG_CONFIRM_SEQNO) == Some((Some(p.confirm_seqno), a4)));
    assert(skip_u32_field(s, a4, flags, FLAG_RECV_ADDR_VERSION) == Some(a4));
    assert(skip_u32_field(s, a4, flags, FLAG_RECV_PRIORITY_ADDR_VERSION) == Some(a4));
    // the reinit dates
    let a7 = a4 + c3.len();
    match p.reinit_dates {
        Some(d) => {
            lemma_join(head3, u32_le(d.local), u32_le(d.target));
            lemma_join(head3 + u32_le(d.local), u32_le(d.target), t4);
            lemma_join(head3, u32_le(d.local), u32_le(d.target) + t4);
            lemma_u32_at_encoding(head3, d.local, u32_le(d.target) + t4);
            lemma_u32_at_encoding(head3 + u32_le(d.local), d.target, t4);
        },
        None => {},
    }
    assert(reinit_field(s, a4, flags) == Some((p.reinit_dates, a7)));
    // the signature
    let a8 = a7 + c4.len();
    match p.signature {
        Some(bytes) => {
            lemma_bytes_at_encoding(head4, bytes, t5);
        },
        None => {},
    }
    // the second random field
    lemma_bytes_at_encoding(head5, p.rand2, Seq::empty());
    assert(bytes_at(s, a8) is Some);
}

/// The sender's key is read as it was written.
proof fn lemma_from_round_trip(before: Seq<u8>, from: Option<Seq<u8>>, after: Seq<u8>, flags: u32)
    requires
        from matches Some(key) ==> key.len() == 32,
        has_flag(flags, FLAG_FROM) == from is Some,
    ensures
        from_field(before + from_segment(from) + after, before.len() as int, flags) == Some(
            (from, (before.len() + from_segment(from).len()) as int),
        ),
{
    let s = before + from_segment(from) + after;
    let at = before.len() as int;
    match from {
        Some(key) => {
            lemma_join(before, u32_le(PUB_ED25519_ID), key);
            lemma_join(before + u32_le(PUB_ED25519_ID), key, after);
            lemma_join(before, u32_le(PUB_ED25519_ID), key + after);
            lemma_u32_at_encoding(before, PUB_ED25519_ID, key + after);
            assert(s.subrange(at + 4, at + 36) =~= key);
        },
        None => {
            assert(before + Seq::<u8>::empty() =~= before);
        },
    }
}

/// The messages of a packet are read as they were written.
proof fn lemma_messages_field_round_trip(
    before: Seq<u8>,
    pair: bool,
    messages: Seq<MessageView>,
    after: Seq<u8>,
    flags: u32,
)
    requires
        forall|i: int| 0 <= i < messages.len() ==> (#[trigger] messages[i]).wf(),
        messages.len() == if pair {
            2nat
        } else {
            1nat
        },
        has_flag(flags, FLAG_ONE_MESSAGE) == !pair,
        has_flag(flags, FLAG_MULTIPLE_MESSAGES) == pair,
    ensures
        messages_field(
            before + count_segment(pair) + encodings(messages) + after,
            before.len() as int,
            flags,
        ) == Some(
            (
                messages,
                (before.len() + count_segment(pair).len() + encodings(messages).len()) as int,
            ),
        ),
{
    let s = before + count_segment(pair) + encodings(messages) + after;
    if pair {
        lemma_join(before, u32_le(2), encodings(messages));
        lemma_join(before, u32_le(2), encodings(messages) + after);
        lemma_join(before + u32_le(2), encodings(messages), after);
        lemma_u32_at_encoding(before, 2, encodings(messages) + after);
        lemma_messages_round_trip(before + u32_le(2), messages, after);
    } else {
        assert(before + Seq::<u8>::empty() =~= before);
        lemma_messages_round_trip(before, messages, after);
    }
}

/// The bytes of a packet before the fields that follow the messages.
pub open spec fn front(p: OutgoingPacketView) -> Seq<u8> {
    u32_le(PACKET_CONTENTS_ID) + bytes_encoding(p.rand1) + u32_le(p.flags()) + from_segment(p.from)
        + count_segment(p.pair) + p.messages
}

/// The fields of a packet up to its messages are read as they were written.
#[verifier::rlimit(40)]
proof fn lemma_front_round_trip(p: OutgoingPacketView, messages: Seq<MessageView>)
    requires
        writable(p, messages),
    ensures
        p.encoding() == front(p) + tail_encoding(p),
        p.encoding().len() >= 4,
        u32_at(p.encoding(), 0) == PACKET_CONTENTS_ID,
        bytes_at(p.encoding(), 4) matches Some((_, _, flags_at)) && flags_at == 4 + bytes_encoding(
            p.rand1,
        ).len() && flags_at + 4 <= p.encoding().len() && u32_at(p.encoding(), flags_at)
            == p.flags() && from_field(p.encoding(), flags_at + 4, p.flags()) == Some(
            (p.from, flags_at + 4 + from_segment(p.from).len()),
        ) && messages_field(
            p.encoding(),
            flags_at + 4 + from_segment(p.from).len(),
            p.flags(),
        ) == Some((messages, front(p).len() as int)),
{
    let s = p.encoding();
    let flags = p.flags();
    lemma_encoding_parts(p);
    lemma_flags(p);
    let c0 = u32_le(PACKET_CONTENTS_ID);
    let c1 = bytes_encoding(p.rand1);
    let c2 = u32_le(flags);
    let c3 = from_segment(p.from);
    let c4 = count_segment(p.pair);
    let c5 = p.messages;
    let tail = tail_encoding(p);
    let w5 = c5 + tail;
    let w4 = c4 + w5;
    let w3 = c3 + w4;
    let w2 = c2 + w3;
    let w1 = c1 + w2;
    let q1 = c0;
    let q2 = q1 + c1;
    let q3 = q2 + c2;
    let q4 = q3 + c3;
    let q5 = q4 + c4;
    lemma_join(q1, c1, w2);
    lemma_join(q2, c2, w3);
    lemma_join(q3, c3, w4);
    lemma_join(q4, c4, w5);
    lemma_join(q5, c5, tail);
    // the tag
    assert(Seq::<u8>::empty() + c0 =~= c0);
    lemma_u32_at_encoding(Seq::empty(), PACKET_CONTENTS_ID, w1);
    // the first random field
    lemma_bytes_at_encoding(q1, p.rand1, w2);
    // the flags
    lemma_u32_at_encoding(q2, flags, w3);
    // the sender
    lemma_from_round_trip(q3, p.from, w4, flags);
    // the messages
    lemma_messages_field_round_trip(q4, p.pair, messages, tail, flags);
}

/// What the fields behind the messages of a written packet are read as.
#[verifier::rlimit(40)]
proof fn lemma_tail_read_back(p: OutgoingPacketView, messages: Seq<MessageView>)
    requires
        writable(p, messages),
    ensures
        packet_tail(
            p.encoding(),
            front(p).len() as int,
            p.flags(),
            (4 + bytes_encoding(p.rand1).len()) as int,
            p.from,
            None,
            messages,
        ) == Some(read_back(p, messages)),
{
    let flags_at = (4 + bytes_encoding(p.rand1).len()) as int;
    lemma_front_round_trip(p, messages);
    lemma_encoding_parts(p);
    lemma_tail_round_trip(front(p), p, flags_at, p.from, None, messages);
    lemma_u32_at_encoding(Seq::empty(), PACKET_CONTENTS_ID, Seq::empty());
    lemma_u32_at_encoding(Seq::empty(), p.flags(), Seq::empty());
    lemma_u64_at_encoding(Seq::empty(), p.seqno, Seq::empty());
    lemma_u64_at_encoding(Seq::empty(), p.confirm_seqno, Seq::empty());
    let at = (front(p).len() + p.address.encoding().len() + 16 + reinit_segment(
        p.reinit_dates,
    ).len()) as int;
    assert(front(p).len() == 4 + bytes_encoding(p.rand1).len() + 4 + from_segment(p.from).len()
        + count_segment(p.pair).len() + p.messages.len());
    assert(p.encoding_head().len() == at);
}

/// A packet that was written is read back: every field comes out as it went
/// in, and the signature is found in its place.
#[verifier::rlimit(40)]
pub proof fn lemma_packet_round_trip(p: OutgoingPacketView, messages: Seq<MessageView>)
    requires
        writable(p, messages),
    ensures
        packet_of(p.encoding()) == Some(read_back(p, messages)),
{
    let s = p.encoding();
    let flags_at = (4 + bytes_encoding(p.rand1).len()) as int;
    let a1 = flags_at + 4 + from_segment(p.from).len();
    lemma_front_round_trip(p, messages);
    lemma_tail_read_back(p, messages);
    assert(!has_flag(p.flags(), FLAG_FROM_SHORT) && p.flags() < FLAGS_END) by {
        lemma_flags(p);
    }
    assert(from_short_field(s, a1, p.flags()) == Some((None::<Seq<u8>>, a1)));
}

/// The fields between the flags and the signature, followed by `rest`.
pub open spec fn middle_then(p: OutgoingPacketView, rest: Seq<u8>) -> Seq<u8> {
    from_segment(p.from) + (count_segment(p.pair) + (p.messages + (p.address.encoding() + (u64_le(
        p.seqno,
    ) + (u64_le(p.confirm_seqno) + (reinit_segment(p.reinit_dates) + rest))))))
}

/// What follows the middle fields can be joined on afterwards.
proof fn lemma_middle(p: OutgoingPacketView, rest: Seq<u8>)
    ensures
        middle_then(p, rest) == middle_then(p, Seq::empty()) + rest,
        middle_then(p, Seq::empty()).len() == from_segment(p.from).len() + count_segment(
            p.pair,
        ).len() + p.messages.len() + p.address.encoding().len() + u64_le(p.seqno).len() + u64_le(
            p.confirm_seqno,
        ).len() + reinit_segment(p.reinit_dates).len(),
{
    let c0 = from_segment(p.from);
    let c1 = count_segment(p.pair);
    let c2 = p.messages;
    let c3 = p.address.encoding();
    let c4 = u64_le(p.seqno);
    let c5 = u64_le(p.confirm_seqno);
    let c6 = reinit_segment(p.reinit_dates);
    let e = Seq::<u8>::empty();
    assert(c6 + e =~= c6);
    let m6 = c6;
    let m5 = c5 + m6;
    let m4 = c4 + m5;
    let m3 = c3 + m4;
    let m2 = c2 + m3;
    let m1 = c1 + m2;
    lemma_join(c5, c6, rest);
    lemma_join(c4, m5, rest);
    lemma_join(c3, m4, rest);
    lemma_join(c2, m3, rest);
    lemma_join(c1, m2, rest);
    lemma_join(c0, m1, rest);
}

/// The pieces of a byte string that was joined from five.
proof fn lemma_pieces(a: Seq<u8>, f: Seq<u8>, m: Seq<u8>, g: Seq<u8>, z: Seq<u8>)
    ensures
        ({
            let x = a + (f + (m + (g + z)));
            &&& x.len() == a.len() + f.len() + m.len() + g.len() + z.len()
            &&& x.subrange(0, a.len() as int) == a
            &&& x.subrange(a.len() as int, (a.len() + f.len()) as int) == f
            &&& x.subrange((a.len() + f.len()) as int, (a.len() + f.len() + m.len()) as int) == m
            &&& x.skip((a.len() + f.len() + m.len() + g.len()) as int) == z
            &&& x == (a + f + m) + g + z
            &&& x == a + f + (m + (g + z))
        }),
{
    let x = a + (f + (m + (g + z)));
    assert(x.subrange(0, a.len() as int) =~= a);
    assert(x.subrange(a.len() as int, (a.len() + f.len()) as int) =~= f);
    assert(x.subrange((a.len() + f.len()) as int, (a.len() + f.len() + m.len()) as int) =~= m);
    assert(x.skip((a.len() + f.len() + m.len() + g.len()) as int) =~= z);
    assert(x =~= (a + f + m) + g + z);
    assert(x =~= a + f + (m + (g + z)));
}

/// A signature that stands between other bytes is found in its place, and
/// what is left when it is taken out is the other bytes with the signature
/// flag cleared.
#[verifier::rlimit(40)]
proof fn lemma_take_out(
    a: Seq<u8>,
    flags: u32,
    m: Seq<u8>,
    signature: Seq<u8>,
    z: Seq<u8>,
    field: SignatureField,
)
    requires
        signature.len() == 64,
        has_flag(flags, FLAG_SIGNATURE),
        flags >= FLAG_SIGNATURE,
        a.len() + 4 + m.len() + bytes_encoding(signature).len() + z.len() <= usize::MAX,
        field.flags_at == a.len(),
        field.field_at == a.len() + 4 + m.len(),
        ({
            let raw = a + (u32_le(flags) + (m + (bytes_encoding(signature) + z)));
            let found = bytes_at(raw, field.field_at as int)->0;
            field.start == found.0 && field.len == found.1 && field.end == found.2
        }),
    ensures
        ({
            let raw = a + (u32_le(flags) + (m + (bytes_encoding(signature) + z)));
            &&& signature_in_place(raw, field)
            &&& unsigned_bytes(raw, field) == a + (u32_le((flags - FLAG_SIGNATURE) as u32) + (m
                + z))
            &&& signature_bytes(raw, field) == signature
        }),
{
    let f = u32_le(flags);
    let g = bytes_encoding(signature);
    let raw = a + (f + (m + (g + z)));
    lemma_u32_at_encoding(a, flags, m + (g + z));
    lemma_pieces(a, f, m, g, z);
    lemma_bytes_at_encoding(a + f + m, signature, z);
    let cleared = u32_le((flags - FLAG_SIGNATURE) as u32);
    assert(a + cleared + m + z =~= a + (cleared + (m + z)));
}

/// The signature of a packet that was written is found in its place, and
/// what is left when it is taken out is the packet written without it.
#[verifier::rlimit(40)]
pub proof fn lemma_signature_taken_out(p: OutgoingPacketView, messages: Seq<MessageView>)
    requires
        writable(p, messages),
        p.signature matches Some(bytes) && bytes.len() == 64,
    ensures
        signature_in_place(p.encoding(), signature_place(p)),
        unsigned_bytes(p.encoding(), signature_place(p)) == p.unsigned().encoding(),
        signature_bytes(p.encoding(), signature_place(p)) == p.signature->0,
{
    let signature = p.signature->0;
    let a = u32_le(PACKET_CONTENTS_ID) + bytes_encoding(p.rand1);
    let m = middle_then(p, Seq::empty());
    let z = bytes_encoding(p.rand2);
    lemma_signed_shape(p);
    lemma_flags(p);
    lemma_pieces(a, u32_le(p.flags()), m, bytes_encoding(signature), z);
    lemma_u32_at_encoding(Seq::empty(), p.flags(), Seq::empty());
    lemma_bytes_at_encoding(a + u32_le(p.flags()) + m, signature, z);
    let found = bytes_at(p.encoding(), p.encoding_head().len() as int)->0;
    assert(0 <= found.0 <= found.2 <= p.encoding().len());
    assert(found.1 == 64);
    lemma_take_out(a, p.flags(), m, signature, z, signature_place(p));
}

/// The shape of a signed packet and of the same packet without signature.
#[verifier::rlimit(40)]
proof fn lemma_signed_shape(p: OutgoingPacketView)
    requires
        p.signature is Some,
    ensures
        ({
            let a = u32_le(PACKET_CONTENTS_ID) + bytes_encoding(p.rand1);
            let m = middle_then(p, Seq::empty());
            let z = bytes_encoding(p.rand2);
            &&& a.len() == 4 + bytes_encoding(p.rand1).len()
            &&& p.encoding() == a + (u32_le(p.flags()) + (m + (bytes_encoding(p.signature->0)
                + z)))
            &&& p.unsigned().encoding() == a + (u32_le(p.unsigned().flags()) + (m + z))
            &&& p.encoding_head().len() == a.len() + 4 + m.len()
        }),
{
    let u = p.unsigned();
    let signature = p.signature->0;
    lemma_encoding_parts(p);
    lemma_encoding_parts(u);
    let m = middle_then(p, Seq::empty());
    let g = bytes_encoding(signature);
    let z = bytes_encoding(p.rand2);
    lemma_middle(p, g + z);
    lemma_middle(u, Seq::<u8>::empty() + z);
    assert(Seq::<u8>::empty() + z =~= z);
    assert(middle_then(u, Seq::empty()) == m);
    lemma_u32_at_encoding(Seq::empty(), PACKET_CONTENTS_ID, Seq::empty());
    lemma_u32_at_encoding(Seq::empty(), p.flags(), Seq::empty());
    lemma_join(
        u32_le(PACKET_CONTENTS_ID),
        bytes_encoding(p.rand1),
        u32_le(p.flags()) + (m + (g + z)),
    );
    lemma_join(
        u32_le(PACKET_CONTENTS_ID),
        bytes_encoding(p.rand1),
        u32_le(u.flags()) + (m + z),
    );
}

/// A packet whose signature is accepted for the packet without it passes
/// the check of its signature.
pub proof fn lemma_signed_packet_verifies(
    p: OutgoingPacketView,
    messages: Seq<MessageView>,
    public: Seq<u8>,
    mandatory: bool,
)
    requires
        writable(p, messages),
        p.signature matches Some(bytes) && bytes.len() == 64 && ed25519_verifies(
            public,
            p.unsigned().encoding(),
            bytes,
        ),
    ensures
        signature_verdict(
            p.encoding(),
            read_back(p, messages).signature,
            public,
            mandatory,
        ) is Ok,
{
    lemma_signature_taken_out(p, messages);
}

/// A packet that names its sender by a valid key and carries the sender's
/// signature is traced to that key: the receiver finds the sender's short id
/// and key.
pub proof fn lemma_sender_is_found(
    p: OutgoingPacketView,
    messages: Seq<MessageView>,
    public: Seq<u8>,
    signature_required: bool,
)
    requires
        writable(p, messages),
        ed25519_key_valid(public),
        p.from == Some(public),
        p.signature matches Some(bytes) && bytes.len() == 64 && ed25519_verifies(
            public,
            p.unsigned().encoding(),
            bytes,
        ),
    ensures
        packet_of(p.encoding()) == Some(read_back(p, messages)),
        source_of(p.encoding(), read_back(p, messages), None, signature_required) matches Ok(
            source,
        ) && source == (SourceView { peer_id: short_id_of(public), full_id: Some(public) }),
{
    lemma_packet_round_trip(p, messages);
    lemma_signed_packet_verifies(p, messages, public, signature_required);
}

} // verus!
