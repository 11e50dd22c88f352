//! The contents of a packet, inside its envelope, and their encoding.

use crate::message::{message_at, Message, MessageView};
use crate::tl::{
    bytes_at, bytes_encoding, read_bytes, read_int256, read_u32, read_u64, u32_at,
    u32_le, u64_at, u64_le, write_bytes, write_raw, write_u32, write_u64, MAX_BYTES_LEN,
};
use vstd::prelude::*;

verus! {

pub const PACKET_CONTENTS_ID: u32 = 0xd142cd89;

pub const PUB_ED25519_ID: u32 = 0x4813b4c6;

pub const ADDRESS_UDP_ID: u32 = 0x670da6e7;

pub const FLAG_FROM: u32 = 0x1;

pub const FLAG_FROM_SHORT: u32 = 0x2;

pub const FLAG_ONE_MESSAGE: u32 = 0x4;

pub const FLAG_MULTIPLE_MESSAGES: u32 = 0x8;

pub const FLAG_ADDRESS: u32 = 0x10;

pub const FLAG_PRIORITY_ADDRESS: u32 = 0x20;

pub const FLAG_SEQNO: u32 = 0x40;

pub const FLAG_CONFIRM_SEQNO: u32 = 0x80;

pub const FLAG_RECV_ADDR_VERSION: u32 = 0x100;

pub const FLAG_RECV_PRIORITY_ADDR_VERSION: u32 = 0x200;

pub const FLAG_REINIT_DATES: u32 = 0x400;

pub const FLAG_SIGNATURE: u32 = 0x800;

/// The first flag value that no field defines.
pub const FLAGS_END: u32 = 0x1000;

/// Whether the bit of a one-bit mask is set in the flags.
pub open spec fn has_flag(flags: u32, mask: u32) -> bool {
    flags / mask % 2 == 1
}

/// Tests one flag bit.
pub fn test_flag(flags: u32, mask: u32) -> (set: bool)
    requires
        mask > 0,
    ensures
        set == has_flag(flags, mask),
{
    flags / mask % 2 == 1
}

/// An IPv4 endpoint.
#[derive(Debug, Copy, Clone, PartialEq, Eq, Structural, Hash)]
pub struct AdnlAddressUdp {
    pub ip: u32,
    pub port: u16,
}

/// The addresses a node advertises, with their validity.
#[derive(Debug, Copy, Clone, PartialEq, Eq, Structural)]
pub struct AddressList {
    pub address: Option<AdnlAddressUdp>,
    pub version: u32,
    pub reinit_date: u32,
    pub priority: u32,
    pub expire_at: u32,
}

/// The reinit dates a packet carries: the sender's own, and the one it
/// believes the receiver to have.
#[derive(Debug, Copy, Clone, PartialEq, Eq, Structural)]
pub struct ReinitDates {
    pub local: u32,
    pub target: u32,
}

impl AddressList {
    /// The bytes of the list on the wire.
    pub open spec fn encoding(self) -> Seq<u8> {
        (match self.address {
            Some(a) => u32_le(1) + u32_le(ADDRESS_UDP_ID) + u32_le(a.ip) + u32_le(a.port as u32),
            None => u32_le(0),
        }) + u32_le(self.version) + u32_le(self.reinit_date) + u32_le(self.priority) + u32_le(
            self.expire_at,
        )
    }

    /// Appends the encoding of the list.
    pub fn write_to(&self, buf: &mut Vec<u8>)
        ensures
            final(buf)@ == old(buf)@ + self.encoding(),
    {
        match self.address {
            Some(a) => {
                write_u32(buf, 1);
                write_u32(buf, ADDRESS_UDP_ID);
                write_u32(buf, a.ip);
                write_u32(buf, a.port as u32);
            },
            None => {
                write_u32(buf, 0);
            },
        }
        write_u32(buf, self.version);
        write_u32(buf, self.reinit_date);
        write_u32(buf, self.priority);
        write_u32(buf, self.expire_at);
        assert(buf@ =~= old(buf)@ + self.encoding());
    }
}

/// The first of `count` UDP addresses encoded from `at` on, with the offset
/// behind the last. `None` where an entry is no UDP address or runs past
/// the end.
pub open spec fn addresses_at(s: Seq<u8>, at: int, count: nat) -> Option<
    (Option<AdnlAddressUdp>, int),
>
    decreases count,
{
    if count == 0 {
        Some((None, at))
    } else if at + 12 > s.len() || u32_at(s, at) != ADDRESS_UDP_ID {
        None
    } else {
        let first = AdnlAddressUdp {
            ip: u32_at(s, at + 4),
            port: (u32_at(s, at + 8) % 0x10000) as u16,
        };
        match addresses_at(s, at + 12, (count - 1) as nat) {
            Some((_, end)) => Some((Some(first), end)),
            None => None,
        }
    }
}

/// The address list encoded at `at`, with the offset behind it.
pub open spec fn address_list_at(s: Seq<u8>, at: int) -> Option<(AddressList, int)> {
    if at + 4 > s.len() {
        None
    } else {
        match addresses_at(s, at + 4, u32_at(s, at) as nat) {
            Some((address, tail)) => if tail + 16 > s.len() {
                None
            } else {
                Some(
                    (
                        AddressList {
                            address,
                            version: u32_at(s, tail),
                            reinit_date: u32_at(s, tail + 4),
                            priority: u32_at(s, tail + 8),
                            expire_at: u32_at(s, tail + 12),
                        },
                        tail + 16,
                    ),
                )
            },
            None => None,
        }
    }
}

/// Reads an address list at an offset.
pub fn read_address_list(data: &[u8], at: usize) -> (r: Option<(AddressList, usize)>)
    ensures
        match (r, address_list_at(data@, at as int)) {
            (Some((list, end)), Some((l, e))) => list == l && end == e,
            (None, None) => true,
            _ => false,
        },
        r matches Some((list, end)) ==> at < end <= data@.len(),
{
    let total = data.len();
    let count = match read_u32(data, at) {
        Some(v) => v,
        None => return None,
    };
    let mut cursor = at + 4;
    let mut first: Option<AdnlAddressUdp> = None;
    let mut i: u32 = 0;
    while i < count
        invariant
            i <= count,
            at + 4 <= cursor <= total,
            total == data@.len(),
            count == u32_at(data@, at as int),
            first.is_some() == (i > 0),
            addresses_at(data@, at + 4, count as nat) == match addresses_at(
                data@,
                cursor as int,
                (count - i) as nat,
            ) {
                Some((rest, end)) => Some(
                    (
                        if i > 0 {
                            first
                        } else {
                            rest
                        },
                        end,
                    ),
                ),
                None => None,
            },
        decreases count - i,
    {
        if total - cursor < 12 {
            return None;
        }
        let id = read_u32(data, cursor).unwrap();
        if id != ADDRESS_UDP_ID {
            return None;
        }
        let ip = read_u32(data, cursor + 4).unwrap();
        let port = read_u32(data, cursor + 8).unwrap();
        if i == 0 {
            first = Some(AdnlAddressUdp { ip, port: (port % 0x10000) as u16 });
        }
        cursor += 12;
        i += 1;
    }
    if total - cursor < 16 {
        return None;
    }
    let version = read_u32(data, cursor).unwrap();
    let reinit_date = read_u32(data, cursor + 4).unwrap();
    let priority = read_u32(data, cursor + 8).unwrap();
    let expire_at = read_u32(data, cursor + 12).unwrap();
    Some((AddressList { address: first, version, reinit_date, priority, expire_at }, cursor + 16))
}

/// The messages of an outgoing packet, already encoded: one message, or
/// two in a row.
#[derive(Debug, Clone, PartialEq, Eq)]
pub enum OutgoingMessages {
    Single(Vec<u8>),
    Pair(Vec<u8>),
}

impl OutgoingMessages {
    /// The encoded messages.
    pub open spec fn bytes(&self) -> Seq<u8> {
        match self {
            OutgoingMessages::Single(bytes) => bytes@,
            OutgoingMessages::Pair(bytes) => bytes@,
        }
    }
}

/// What a node sends inside one envelope.
#[derive(Debug, Clone, PartialEq, Eq)]
pub struct OutgoingPacketContents {
    pub rand1: Vec<u8>,
    pub from: Option<[u8; 32]>,
    pub messages: OutgoingMessages,
    pub address: AddressList,
    pub seqno: u64,
    pub confirm_seqno: u64,
    pub reinit_dates: Option<ReinitDates>,
    pub signature: Option<[u8; 64]>,
    pub rand2: Vec<u8>,
}

/// An outgoing packet as plain values.
pub struct OutgoingPacketView {
    pub rand1: Seq<u8>,
    pub from: Option<Seq<u8>>,
    pub pair: bool,
    pub messages: Seq<u8>,
    pub address: AddressList,
    pub seqno: u64,
    pub confirm_seqno: u64,
    pub reinit_dates: Option<ReinitDates>,
    pub signature: Option<Seq<u8>>,
    pub rand2: Seq<u8>,
}

impl View for OutgoingPacketContents {
    type V = OutgoingPacketView;

    open spec fn view(&self) -> OutgoingPacketView {
        OutgoingPacketView {
            rand1: self.rand1@,
            from: match self.from {
                Some(key) => Some(key@),
                None => None,
            },
            pair: self.messages is Pair,
            messages: match self.messages {
                OutgoingMessages::Single(bytes) => bytes@,
                OutgoingMessages::Pair(bytes) => bytes@,
            },
            address: self.address,
            seqno: self.seqno,
            confirm_seqno: self.confirm_seqno,
            reinit_dates: self.reinit_dates,
            signature: match self.signature {
                Some(bytes) => Some(bytes@),
                None => None,
            },
            rand2: self.rand2@,
        }
    }
}

impl OutgoingPacketView {
    /// The flags word: address, seqno and confirmation are always present.
    pub open spec fn flags(self) -> u32 {
        (FLAG_ADDRESS + FLAG_SEQNO + FLAG_CONFIRM_SEQNO + (if self.from is Some {
            FLAG_FROM
        } else {
            0
        }) + (if self.pair {
            FLAG_MULTIPLE_MESSAGES
        } else {
            FLAG_ONE_MESSAGE
        }) + (if self.reinit_dates is Some {
            FLAG_REINIT_DATES
        } else {
            0
        }) + (if self.signature is Some {
            FLAG_SIGNATURE
        } else {
            0
        })) as u32
    }

    /// Everything that precedes the signature on the wire.
    pub open spec fn encoding_head(self) -> Seq<u8> {
        u32_le(PACKET_CONTENTS_ID) + bytes_encoding(self.rand1) + u32_le(self.flags()) + (match self.from {
            Some(key) => u32_le(PUB_ED25519_ID) + key,
            None => Seq::empty(),
        }) + (if self.pair {
            u32_le(2)
        } else {
            Seq::empty()
        }) + self.messages + self.address.encoding() + u64_le(self.seqno) + u64_le(
            self.confirm_seqno,
        ) + (match self.reinit_dates {
            Some(dates) => u32_le(dates.local) + u32_le(dates.target),
            None => Seq::empty(),
        })
    }

    /// The bytes of the packet on the wire.
    pub open spec fn encoding(self) -> Seq<u8> {
        self.encoding_head() + (match self.signature {
            Some(bytes) => bytes_encoding(bytes),
            None => Seq::empty(),
        }) + bytes_encoding(self.rand2)
    }

    /// The same packet with no signature.
    pub open spec fn unsigned(self) -> OutgoingPacketView {
        OutgoingPacketView { signature: None, ..self }
    }
}

impl OutgoingPacketContents {
    /// The random fields fit their length prefixes.
    pub open spec fn encodable(&self) -> bool {
        self.rand1@.len() <= MAX_BYTES_LEN && self.rand2@.len() <= MAX_BYTES_LEN
    }

    /// Encodes the packet.
    pub fn serialize(&self) -> (out: Vec<u8>)
        requires
            self.encodable(),
        ensures
            out@ == self@.encoding(),
    {
        let mut flags: u32 = FLAG_ADDRESS + FLAG_SEQNO + FLAG_CONFIRM_SEQNO;
        if self.from.is_some() {
            flags += FLAG_FROM;
        }
        match &self.messages {
            OutgoingMessages::Single(_) => {
                flags += FLAG_ONE_MESSAGE;
            },
            OutgoingMessages::Pair(_) => {
                flags += FLAG_MULTIPLE_MESSAGES;
            },
        }
        if self.reinit_dates.is_some() {
            flags += FLAG_REINIT_DATES;
        }
        if self.signature.is_some() {
            flags += FLAG_SIGNATURE;
        }
        let mut out: Vec<u8> = Vec::new();
        write_u32(&mut out, PACKET_CONTENTS_ID);
        write_bytes(&mut out, self.rand1.as_slice());
        write_u32(&mut out, flags);
        if let Some(key) = &self.from {
            write_u32(&mut out, PUB_ED25519_ID);
            write_raw(&mut out, key.as_slice());
        }
        match &self.messages {
            OutgoingMessages::Single(bytes) => {
                write_raw(&mut out, bytes.as_slice());
            },
            OutgoingMessages::Pair(bytes) => {
                write_u32(&mut out, 2);
                write_raw(&mut out, bytes.as_slice());
            },
        }
        self.address.write_to(&mut out);
        write_u64(&mut out, self.seqno);
        write_u64(&mut out, self.confirm_seqno);
        if let Some(dates) = &self.reinit_dates {
            write_u32(&mut out, dates.local);
            write_u32(&mut out, dates.target);
        }
        assert(out@ =~= self@.encoding_head());
        if let Some(bytes) = &self.signature {
            write_bytes(&mut out, bytes.as_slice());
        }
        write_bytes(&mut out, self.rand2.as_slice());
        assert(out@ =~= self@.encoding());
        out
    }
}

/// Where the signature of a received packet stands in its bytes.
#[derive(Debug, Copy, Clone, PartialEq, Eq, Structural)]
pub struct SignatureField {
    /// Offset of the flags word.
    pub flags_at: usize,
    /// Offset of the signature's length prefix.
    pub field_at: usize,
    /// Offset of the signature's first byte.
    pub start: usize,
    /// Length of the signature.
    pub len: usize,
    /// Offset of the field that follows the signature.
    pub end: usize,
}

/// What a node reads from inside one envelope.
#[derive(Debug, Clone, PartialEq, Eq)]
pub struct IncomingPacketContents {
    pub from: Option<[u8; 32]>,
    pub from_short: Option<[u8; 32]>,
    pub messages: Vec<Message>,
    pub address: Option<AddressList>,
    pub seqno: Option<u64>,
    pub confirm_seqno: Option<u64>,
    pub reinit_dates: Option<ReinitDates>,
    pub signature: Option<SignatureField>,
}

/// A received packet as plain values.
pub struct IncomingPacketView {
    pub from: Option<Seq<u8>>,
    pub from_short: Option<Seq<u8>>,
    pub messages: Seq<MessageView>,
    pub address: Option<AddressList>,
    pub seqno: Option<u64>,
    pub confirm_seqno: Option<u64>,
    pub reinit_dates: Option<ReinitDates>,
    pub signature: Option<SignatureField>,
}

/// The views of a sequence of messages.
pub open spec fn message_views(messages: Seq<Message>) -> Seq<MessageView> {
    Seq::new(messages.len(), |i: int| messages[i]@)
}

/// The view of an optional 32-byte value.
pub open spec fn key_view(key: Option<[u8; 32]>) -> Option<Seq<u8>> {
    match key {
        Some(bytes) => Some(bytes@),
        None => None,
    }
}

impl View for IncomingPacketContents {
    type V = IncomingPacketView;

    open spec fn view(&self) -> IncomingPacketView {
        IncomingPacketView {
            from: key_view(self.from),
            from_short: key_view(self.from_short),
            messages: message_views(self.messages@),
            address: self.address,
            seqno: self.seqno,
            confirm_seqno: self.confirm_seqno,
            reinit_dates: self.reinit_dates,
            signature: self.signature,
        }
    }
}

/// `count` messages encoded in a row from `at` on, with the offset behind
/// the last.
pub open spec fn messages_at(s: Seq<u8>, at: int, count: nat) -> Option<(Seq<MessageView>, int)>
    decreases count,
{
    if count == 0 {
        Some((Seq::empty(), at))
    } else {
        match message_at(s, at) {
            Some((first, next)) => match messages_at(s, next, (count - 1) as nat) {
                Some((rest, end)) => Some((seq![first] + rest, end)),
                None => None,
            },
            None => None,
        }
    }
}

/// The sender's public key, where the flags announce one: a tagged Ed25519
/// key.
pub open spec fn from_field(s: Seq<u8>, at: int, flags: u32) -> Option<(Option<Seq<u8>>, int)> {
    if !has_flag(flags, FLAG_FROM) {
        Some((None, at))
    } else if at + 36 > s.len() || u32_at(s, at) != PUB_ED25519_ID {
        None
    } else {
        Some((Some(s.subrange(at + 4, at + 36)), at + 36))
    }
}

/// The sender's short id, where the flags announce one.
pub open spec fn from_short_field(s: Seq<u8>, at: int, flags: u32) -> Option<
    (Option<Seq<u8>>, int),
> {
    if !has_flag(flags, FLAG_FROM_SHORT) {
        Some((None, at))
    } else if at + 32 > s.len() {
        None
    } else {
        Some((Some(s.subrange(at, at + 32)), at + 32))
    }
}

/// The messages: exactly one of the two message flags is set; one message
/// stands alone, several follow their count.
pub open spec fn messages_field(s: Seq<u8>, at: int, flags: u32) -> Option<
    (Seq<MessageView>, int),
> {
    if has_flag(flags, FLAG_ONE_MESSAGE) == has_flag(flags, FLAG_MULTIPLE_MESSAGES) {
        None
    } else if has_flag(flags, FLAG_ONE_MESSAGE) {
        messages_at(s, at, 1)
    } else if at + 4 > s.len() {
        None
    } else {
        messages_at(s, at + 4, u32_at(s, at) as nat)
    }
}

/// An address list, where the mask's flag is set.
pub open spec fn address_field(s: Seq<u8>, at: int, flags: u32, mask: u32) -> Option<
    (Option<AddressList>, int),
> {
    if !has_flag(flags, mask) {
        Some((None, at))
    } else {
        match address_list_at(s, at) {
            Some((list, end)) => Some((Some(list), end)),
            None => None,
        }
    }
}

/// A 64-bit value, where the mask's flag is set.
pub open spec fn u64_field(s: Seq<u8>, at: int, flags: u32, mask: u32) -> Option<
    (Option<u64>, int),
> {
    if !has_flag(flags, mask) {
        Some((None, at))
    } else if at + 8 > s.len() {
        None
    } else {
        Some((Some(u64_at(s, at)), at + 8))
    }
}

/// The offset behind a 32-bit value that is present where the mask's flag is
/// set.
pub open spec fn skip_u32_field(s: Seq<u8>, at: int, flags: u32, mask: u32) -> Option<int> {
    if !has_flag(flags, mask) {
        Some(at)
    } else if at + 4 > s.len() {
        None
    } else {
        Some(at + 4)
    }
}

/// The two reinit dates, where the flags announce them.
pub open spec fn reinit_field(s: Seq<u8>, at: int, flags: u32) -> Option<
    (Option<ReinitDates>, int),
> {
    if !has_flag(flags, FLAG_REINIT_DATES) {
        Some((None, at))
    } else if at + 8 > s.len() {
        None
    } else {
        Some((Some(ReinitDates { local: u32_at(s, at), target: u32_at(s, at + 4) }), at + 8))
    }
}

/// The place of the signature, where the flags announce one.
pub open spec fn signature_field(s: Seq<u8>, at: int, flags: u32, flags_at: int) -> Option<
    (Option<SignatureField>, int),
> {
    if !has_flag(flags, FLAG_SIGNATURE) {
        Some((None, at))
    } else {
        match bytes_at(s, at) {
            Some((start, len, end)) => Some(
                (
                    Some(
                        SignatureField {
                            flags_at: flags_at as usize,
                            field_at: at as usize,
                            start: start as usize,
                            len: len as usize,
                            end: end as usize,
                        },
                    ),
                    end,
                ),
            ),
            None => None,
        }
    }
}

/// The fields that follow the messages.
pub open spec fn packet_tail(
    s: Seq<u8>,
    at: int,
    flags: u32,
    flags_at: int,
    from: Option<Seq<u8>>,
    from_short: Option<Seq<u8>>,
    messages: Seq<MessageView>,
) -> Option<IncomingPacketView> {
    match address_field(s, at, flags, FLAG_ADDRESS) {
        Some((address, a1)) => match address_field(s, a1, flags, FLAG_PRIORITY_ADDRESS) {
            Some((_, a2)) => match u64_field(s, a2, flags, FLAG_SEQNO) {
                Some((seqno, a3)) => match u64_field(s, a3, flags, FLAG_CONFIRM_SEQNO) {
                    Some((confirm_seqno, a4)) => match skip_u32_field(
                        s,
                        a4,
                        flags,
                        FLAG_RECV_ADDR_VERSION,
                    ) {
                        Some(a5) => match skip_u32_field(
                            s,
                            a5,
                            flags,
                            FLAG_RECV_PRIORITY_ADDR_VERSION,
                        ) {
                            Some(a6) => match reinit_field(s, a6, flags) {
                                Some((reinit_dates, a7)) => match signature_field(
                                    s,
                                    a7,
                                    flags,
                                    flags_at,
                                ) {
                                    Some((signature, a8)) => match bytes_at(s, a8) {
                                        Some(_) => Some(
                                            IncomingPacketView {
                                                from,
                                                from_short,
                                                messages,
                                                address,
                                                seqno,
                                                confirm_seqno,
                                                reinit_dates,
                                                signature,
                                            },
                                        ),
                                        None => None,
                                    },
                                    None => None,
                                },
                                None => None,
                            },
                            None => None,
                        },
                        None => None,
                    },
                    None => None,
                },
                None => None,
            },
            None => None,
        },
        None => None,
    }
}

/// The packet that a byte string encodes: the tag, a random field, the flags,
/// the fields the flags announce, a second random field. `None` where the
/// tag or a flag is unknown, or a field is malformed or runs past the end.
pub open spec fn packet_of(s: Seq<u8>) -> Option<IncomingPacketView> {
    if s.len() < 4 || u32_at(s, 0) != PACKET_CONTENTS_ID {
        None
    } else {
        match bytes_at(s, 4) {
            Some((_, _, flags_at)) => if flags_at + 4 > s.len() || u32_at(s, flags_at)
                >= FLAGS_END {
                None
            } else {
                let flags = u32_at(s, flags_at);
                match from_field(s, flags_at + 4, flags) {
                    Some((from, a1)) => match from_short_field(s, a1, flags) {
                        Some((from_short, a2)) => match messages_field(s, a2, flags) {
                            Some((messages, a3)) => packet_tail(
                                s,
                                a3,
                                flags,
                                flags_at,
                                from,
                                from_short,
                                messages,
                            ),
                            None => None,
                        },
                        None => None,
                    },
                    None => None,
                }
            },
            None => None,
        }
    }
}

/// Reads `count` messages in a row.
pub fn read_messages(data: &[u8], at: usize, count: u32) -> (r: Option<(Vec<Message>, usize)>)
    requires
        at <= data@.len(),
    ensures
        match (r, messages_at(data@, at as int, count as nat)) {
            (Some((list, end)), Some((views, e))) => message_views(list@) == views && end == e,
            (None, None) => true,
            _ => false,
        },
        r matches Some((list, end)) ==> at <= end <= data@.len(),
{
    let mut list: Vec<Message> = Vec::new();
    let mut cursor = at;
    let mut i: u32 = 0;
    assert(message_views(list@) + Seq::<MessageView>::empty() =~= Seq::<MessageView>::empty());
    while i < count
        invariant
            i <= count,
            at <= cursor <= data@.len(),
            messages_at(data@, at as int, count as nat) == match messages_at(
                data@,
                cursor as int,
                (count - i) as nat,
            ) {
                Some((rest, end)) => Some((message_views(list@) + rest, end)),
                None => None,
            },
        decreases count - i,
    {
        let ghost before = message_views(list@);
        match Message::read_from(data, cursor) {
            Some((message, next)) => {
                proof {
                    let first = message@;
                    assert(message_views(list@.push(message)) =~= before + seq![first]);
                    match messages_at(data@, next as int, (count - i - 1) as nat) {
                        Some((rest, end)) => {
                            assert(before + (seq![first] + rest) =~= (before + seq![first]) + rest);
                        },
                        None => {},
                    }
                }
                list.push(message);
                cursor = next;
            },
            None => {
                return None;
            },
        }
        i += 1;
    }
    assert(message_views(list@) + Seq::<MessageView>::empty() =~= message_views(list@));
    Some((list, cursor))
}

/// Reads the sender's public key, where the flags announce one.
fn read_from_field(data: &[u8], at: usize, flags: u32) -> (r: Option<(Option<[u8; 32]>, usize)>)
    requires
        at <= data@.len(),
    ensures
        match (r, from_field(data@, at as int, flags)) {
            (Some((key, end)), Some((k, e))) => key_view(key) == k && end == e,
            (None, None) => true,
            _ => false,
        },
        r matches Some((key, end)) ==> at <= end <= data@.len(),
{
    if !test_flag(flags, FLAG_FROM) {
        return Some((None, at));
    }
    if data.len() - at < 36 {
        return None;
    }
    if read_u32(data, at).unwrap() != PUB_ED25519_ID {
        return None;
    }
    Some((read_int256(data, at + 4), at + 36))
}

/// Reads the sender's short id, where the flags announce one.
fn read_from_short_field(data: &[u8], at: usize, flags: u32) -> (r: Option<
    (Option<[u8; 32]>, usize),
>)
    requires
        at <= data@.len(),
    ensures
        match (r, from_short_field(data@, at as int, flags)) {
            (Some((key, end)), Some((k, e))) => key_view(key) == k && end == e,
            (None, None) => true,
            _ => false,
        },
        r matches Some((key, end)) ==> at <= end <= data@.len(),
{
    if !test_flag(flags, FLAG_FROM_SHORT) {
        return Some((None, at));
    }
    if data.len() - at < 32 {
        return None;
    }
    Some((read_int256(data, at), at + 32))
}

/// Reads the messages that the flags announce.
fn read_messages_field(data: &[u8], at: usize, flags: u32) -> (r: Option<(Vec<Message>, usize)>)
    requires
        at <= data@.len(),
    ensures
        match (r, messages_field(data@, at as int, flags)) {
            (Some((list, end)), Some((views, e))) => message_views(list@) == views && end == e,
            (None, None) => true,
            _ => false,
        },
        r matches Some((list, end)) ==> at <= end <= data@.len(),
{
    let one = test_flag(flags, FLAG_ONE_MESSAGE);
    let multiple = test_flag(flags, FLAG_MULTIPLE_MESSAGES);
    if one == multiple {
        None
    } else if one {
        read_messages(data, at, 1)
    } else {
        match read_u32(data, at) {
            Some(count) => read_messages(data, at + 4, count),
            None => None,
        }
    }
}

/// Reads an address list, where the mask's flag is set.
fn read_address_field(data: &[u8], at: usize, flags: u32, mask: u32) -> (r: Option<
    (Option<AddressList>, usize),
>)
    requires
        at <= data@.len(),
        mask > 0,
    ensures
        match (r, address_field(data@, at as int, flags, mask)) {
            (Some((list, end)), Some((l, e))) => list == l && end == e,
            (None, None) => true,
            _ => false,
        },
        r matches Some((list, end)) ==> at <= end <= data@.len(),
{
    if !test_flag(flags, mask) {
        return Some((None, at));
    }
    match read_address_list(data, at) {
        Some((list, end)) => Some((Some(list), end)),
        None => None,
    }
}

/// Reads a 64-bit value, where the mask's flag is set.
fn read_u64_field(data: &[u8], at: usize, flags: u32, mask: u32) -> (r: Option<
    (Option<u64>, usize),
>)
    requires
        at <= data@.len(),
        mask > 0,
    ensures
        match (r, u64_field(data@, at as int, flags, mask)) {
            (Some((value, end)), Some((v, e))) => value == v && end == e,
            (None, None) => true,
            _ => false,
        },
        r matches Some((value, end)) ==> at <= end <= data@.len(),
{
    if !test_flag(flags, mask) {
        return Some((None, at));
    }
    match read_u64(data, at) {
        Some(value) => Some((Some(value), at + 8)),
        None => None,
    }
}

/// Steps over a 32-bit value that is present where the mask's flag is set.
fn skip_u32(data: &[u8], at: usize, flags: u32, mask: u32) -> (r: Option<usize>)
    requires
        at <= data@.len(),
        mask > 0,
    ensures
        match (r, skip_u32_field(data@, at as int, flags, mask)) {
            (Some(end), Some(e)) => end == e,
            (None, None) => true,
            _ => false,
        },
        r matches Some(end) ==> at <= end <= data@.len(),
{
    if !test_flag(flags, mask) {
        Some(at)
    } else if data.len() - at < 4 {
        None
    } else {
        Some(at + 4)
    }
}

/// Reads the reinit dates, where the flags announce them.
fn read_reinit_field(data: &[u8], at: usize, flags: u32) -> (r: Option<
    (Option<ReinitDates>, usize),
>)
    requires
        at <= data@.len(),
    ensures
        match (r, reinit_field(data@, at as int, flags)) {
            (Some((dates, end)), Some((d, e))) => dates == d && end == e,
            (None, None) => true,
            _ => false,
        },
        r matches Some((dates, end)) ==> at <= end <= data@.len(),
{
    if !test_flag(flags, FLAG_REINIT_DATES) {
        return Some((None, at));
    }
    if data.len() - at < 8 {
        return None;
    }
    let local = read_u32(data, at).unwrap();
    let target = read_u32(data, at + 4).unwrap();
    Some((Some(ReinitDates { local, target }), at + 8))
}

/// Finds the signature, where the flags announce one.
fn read_signature_field(data: &[u8], at: usize, flags: u32, flags_at: usize) -> (r: Option<
    (Option<SignatureField>, usize),
>)
    requires
        at <= data@.len(),
    ensures
        match (r, signature_field(data@, at as int, flags, flags_at as int)) {
            (Some((field, end)), Some((f, e))) => field == f && end == e,
            (None, None) => true,
            _ => false,
        },
        r matches Some((field, end)) ==> at <= end <= data@.len(),
{
    if !test_flag(flags, FLAG_SIGNATURE) {
        return Some((None, at));
    }
    match read_bytes(data, at) {
        Some((start, len, end)) => Some(
            (Some(SignatureField { flags_at, field_at: at, start, len, end }), end),
        ),
        None => None,
    }
}

/// What the fields behind the messages hold.
struct PacketTail {
    address: Option<AddressList>,
    seqno: Option<u64>,
    confirm_seqno: Option<u64>,
    reinit_dates: Option<ReinitDates>,
    signature: Option<SignatureField>,
}

/// Reads the fields that follow the messages.
fn read_tail(data: &[u8], at: usize, flags: u32, flags_at: usize) -> (r: Option<PacketTail>)
    requires
        at <= data@.len(),
    ensures
        forall|from: Option<Seq<u8>>, from_short: Option<Seq<u8>>, messages: Seq<MessageView>|
            match (
                r,
                #[trigger] packet_tail(
                    data@,
                    at as int,
                    flags,
                    flags_at as int,
                    from,
                    from_short,
                    messages,
                ),
            ) {
                (Some(tail), Some(view)) => view == IncomingPacketView {
                    from,
                    from_short,
                    messages,
                    address: tail.address,
                    seqno: tail.seqno,
                    confirm_seqno: tail.confirm_seqno,
                    reinit_dates: tail.reinit_dates,
                    signature: tail.signature,
                },
                (None, None) => true,
                _ => false,
            },
{
    let (address, a1) = match read_address_field(data, at, flags, FLAG_ADDRESS) {
        Some(r) => r,
        None => return None,
    };
    let (_, a2) = match read_address_field(data, a1, flags, FLAG_PRIORITY_ADDRESS) {
        Some(r) => r,
        None => return None,
    };
    let (seqno, a3) = match read_u64_field(data, a2, flags, FLAG_SEQNO) {
        Some(r) => r,
        None => return None,
    };
    let (confirm_seqno, a4) = match read_u64_field(data, a3, flags, FLAG_CONFIRM_SEQNO) {
        Some(r) => r,
        None => return None,
    };
    let a5 = match skip_u32(data, a4, flags, FLAG_RECV_ADDR_VERSION) {
        Some(r) => r,
        None => return None,
    };
    let a6 = match skip_u32(data, a5, flags, FLAG_RECV_PRIORITY_ADDR_VERSION) {
        Some(r) => r,
        None => return None,
    };
    let (reinit_dates, a7) = match read_reinit_field(data, a6, flags) {
        Some(r) => r,
        None => return None,
    };
    let (signature, a8) = match read_signature_field(data, a7, flags, flags_at) {
        Some(r) => r,
        None => return None,
    };
    if read_bytes(data, a8).is_none() {
        return None;
    }
    Some(PacketTail { address, seqno, confirm_seqno, reinit_dates, signature })
}

impl IncomingPacketContents {
    /// Decodes a packet.
    pub fn parse(data: &[u8]) -> (r: Option<IncomingPacketContents>)
        ensures
            match (r, packet_of(data@)) {
                (Some(packet), Some(view)) => packet@ == view,
                (None, None) => true,
                _ => false,
            },
    {
        match read_u32(data, 0) {
            Some(id) => {
                if id != PACKET_CONTENTS_ID {
                    return None;
                }
            },
            None => {
                return None;
            },
        }
        let flags_at = match read_bytes(data, 4) {
            Some((_, _, end)) => end,
            None => return None,
        };
        let flags = match read_u32(data, flags_at) {
            Some(flags) => flags,
            None => return None,
        };
        if flags >= FLAGS_END {
            return None;
        }
        let (from, a1) = match read_from_field(data, flags_at + 4, flags) {
            Some(r) => r,
            None => return None,
        };
        let (from_short, a2) = match read_from_short_field(data, a1, flags) {
            Some(r) => r,
            None => return None,
        };
        let (messages, a3) = match read_messages_field(data, a2, flags) {
            Some(r) => r,
            None => return None,
        };
        let tail = match read_tail(data, a3, flags, flags_at) {
            Some(r) => r,
            None => return None,
        };
        Some(
            IncomingPacketContents {
                from,
                from_short,
                messages,
                address: tail.address,
                seqno: tail.seqno,
                confirm_seqno: tail.confirm_seqno,
                reinit_dates: tail.reinit_dates,
                signature: tail.signature,
            },
        )
    }
}

} // verus!
