//! The messages that a packet carries, and their encoding.

use crate::tl::{
    lemma_bytes_encoding_len, lemma_u32_round_trip, lemma_bytes_at_encoding, lemma_u32_at_encoding, bytes_at, bytes_encoding, copy_range, read_bytes, read_int256, read_u32, u32_at, u32_le,
    write_bytes, write_raw, write_u32, MAX_BYTES_LEN,
};
use vstd::prelude::*;

verus! {

pub const MSG_ANSWER_ID: u32 = 0x0fac8416;

pub const MSG_CONFIRM_CHANNEL_ID: u32 = 0x60dd1d69;

pub const MSG_CREATE_CHANNEL_ID: u32 = 0xe673c3bb;

pub const MSG_CUSTOM_ID: u32 = 0x204818f5;

pub const MSG_NOP_ID: u32 = 0x17f8dfda;

pub const MSG_PART_ID: u32 = 0xfd452d39;

pub const MSG_QUERY_ID: u32 = 0xb48bf97a;

pub const MSG_REINIT_ID: u32 = 0x10c20520;

/// One message of a packet.
#[derive(Debug, Clone, PartialEq, Eq)]
pub enum Message {
    Answer { query_id: [u8; 32], answer: Vec<u8> },
    ConfirmChannel { key: [u8; 32], peer_key: [u8; 32], date: u32 },
    CreateChannel { key: [u8; 32], date: u32 },
    Custom { data: Vec<u8> },
    Nop,
    Part { hash: [u8; 32], total_size: u32, offset: u32, data: Vec<u8> },
    Query { query_id: [u8; 32], query: Vec<u8> },
    Reinit { date: u32 },
}

/// A message as plain values.
pub enum MessageView {
    Answer { query_id: Seq<u8>, answer: Seq<u8> },
    ConfirmChannel { key: Seq<u8>, peer_key: Seq<u8>, date: u32 },
    CreateChannel { key: Seq<u8>, date: u32 },
    Custom { data: Seq<u8> },
    Nop,
    Part { hash: Seq<u8>, total_size: u32, offset: u32, data: Seq<u8> },
    Query { query_id: Seq<u8>, query: Seq<u8> },
    Reinit { date: u32 },
}

impl View for Message {
    type V = MessageView;

    open spec fn view(&self) -> MessageView {
        match self {
            Message::Answer { query_id, answer } => MessageView::Answer {
                query_id: query_id@,
                answer: answer@,
            },
            Message::ConfirmChannel { key, peer_key, date } => MessageView::ConfirmChannel {
                key: key@,
                peer_key: peer_key@,
                date: *date,
            },
            Message::CreateChannel { key, date } => MessageView::CreateChannel {
                key: key@,
                date: *date,
            },
            Message::Custom { data } => MessageView::Custom { data: data@ },
            Message::Nop => MessageView::Nop,
            Message::Part { hash, total_size, offset, data } => MessageView::Part {
                hash: hash@,
                total_size: *total_size,
                offset: *offset,
                data: data@,
            },
            Message::Query { query_id, query } => MessageView::Query {
                query_id: query_id@,
                query: query@,
            },
            Message::Reinit { date } => MessageView::Reinit { date: *date },
        }
    }
}

impl MessageView {
    /// The 256-bit fields are 32 bytes long and every byte string fits its
    /// length prefix.
    pub open spec fn wf(self) -> bool {
        match self {
            MessageView::Answer { query_id, answer } => query_id.len() == 32 && answer.len()
                <= MAX_BYTES_LEN,
            MessageView::ConfirmChannel { key, peer_key, date } => key.len() == 32
                && peer_key.len() == 32,
            MessageView::CreateChannel { key, date } => key.len() == 32,
            MessageView::Custom { data } => data.len() <= MAX_BYTES_LEN,
            MessageView::Nop => true,
            MessageView::Part { hash, total_size, offset, data } => hash.len() == 32
                && data.len() <= MAX_BYTES_LEN,
            MessageView::Query { query_id, query } => query_id.len() == 32 && query.len()
                <= MAX_BYTES_LEN,
            MessageView::Reinit { date } => true,
        }
    }

    /// The bytes of the message on the wire: its tag, then its fields.
    pub open spec fn encoding(self) -> Seq<u8> {
        match self {
            MessageView::Answer { query_id, answer } => u32_le(MSG_ANSWER_ID) + query_id
                + bytes_encoding(answer),
            MessageView::ConfirmChannel { key, peer_key, date } => u32_le(MSG_CONFIRM_CHANNEL_ID)
                + key + peer_key + u32_le(date),
            MessageView::CreateChannel { key, date } => u32_le(MSG_CREATE_CHANNEL_ID) + key
                + u32_le(date),
            MessageView::Custom { data } => u32_le(MSG_CUSTOM_ID) + bytes_encoding(data),
            MessageView::Nop => u32_le(MSG_NOP_ID),
            MessageView::Part { hash, total_size, offset, data } => u32_le(MSG_PART_ID) + hash
                + u32_le(total_size) + u32_le(offset) + bytes_encoding(data),
            MessageView::Query { query_id, query } => u32_le(MSG_QUERY_ID) + query_id
                + bytes_encoding(query),
            MessageView::Reinit { date } => u32_le(MSG_REINIT_ID) + u32_le(date),
        }
    }
}

/// The byte string encoded at `at`, with the offset behind it.
pub open spec fn bytes_field(s: Seq<u8>, at: int) -> Option<(Seq<u8>, int)> {
    match bytes_at(s, at) {
        Some((start, len, end)) => Some((s.subrange(start, start + len), end)),
        None => None,
    }
}

/// The message encoded at `at`, with the offset behind it. `None` where the
/// tag is unknown or a field runs past the end.
pub open spec fn message_at(s: Seq<u8>, at: int) -> Option<(MessageView, int)> {
    if at + 4 > s.len() {
        None
    } else {
        let id = u32_at(s, at);
        let body = at + 4;
        if id == MSG_NOP_ID {
            Some((MessageView::Nop, body))
        } else if id == MSG_REINIT_ID {
            if body + 4 > s.len() {
                None
            } else {
                Some((MessageView::Reinit { date: u32_at(s, body) }, body + 4))
            }
        } else if id == MSG_CREATE_CHANNEL_ID {
            if body + 36 > s.len() {
                None
            } else {
                Some(
                    (
                        MessageView::CreateChannel {
                            key: s.subrange(body, body + 32),
                            date: u32_at(s, body + 32),
                        },
                        body + 36,
                    ),
                )
            }
        } else if id == MSG_CONFIRM_CHANNEL_ID {
            if body + 68 > s.len() {
                None
            } else {
                Some(
                    (
                        MessageView::ConfirmChannel {
                            key: s.subrange(body, body + 32),
                            peer_key: s.subrange(body + 32, body + 64),
                            date: u32_at(s, body + 64),
                        },
                        body + 68,
                    ),
                )
            }
        } else if id == MSG_CUSTOM_ID {
            match bytes_field(s, body) {
                Some((data, end)) => Some((MessageView::Custom { data }, end)),
                None => None,
            }
        } else if id == MSG_ANSWER_ID {
            if body + 32 > s.len() {
                None
            } else {
                match bytes_field(s, body + 32) {
                    Some((answer, end)) => Some(
                        (MessageView::Answer { query_id: s.subrange(body, body + 32), answer }, end),
                    ),
                    None => None,
                }
            }
        } else if id == MSG_QUERY_ID {
            if body + 32 > s.len() {
                None
            } else {
                match bytes_field(s, body + 32) {
                    Some((query, end)) => Some(
                        (MessageView::Query { query_id: s.subrange(body, body + 32), query }, end),
                    ),
                    None => None,
                }
            }
        } else if id == MSG_PART_ID {
            if body + 40 > s.len() {
                None
            } else {
                match bytes_field(s, body + 40) {
                    Some((data, end)) => Some(
                        (
                            MessageView::Part {
                                hash: s.subrange(body, body + 32),
                                total_size: u32_at(s, body + 32),
                                offset: u32_at(s, body + 36),
                                data,
                            },
                            end,
                        ),
                    ),
                    None => None,
                }
            }
        } else {
            None
        }
    }
}

/// Whether reading at the end of `before` finds `m` and ends behind its encoding.
pub open spec fn reads_back(before: Seq<u8>, m: MessageView, after: Seq<u8>) -> bool {
    message_at(before + m.encoding() + after, before.len() as int) == Some(
        (m, (before.len() + m.encoding().len()) as int),
    )
}

#[verifier::rlimit(40)]
proof fn lemma_round_trip_answer(before: Seq<u8>, m: MessageView, after: Seq<u8>)
    requires
        m.wf(),
        m is Answer,
    ensures
        reads_back(before, m, after),
{
    let s = before + m.encoding() + after;
    let body = (before.len() + 4) as int;
    if let MessageView::Answer { query_id, answer } = m {
        assert(s =~= before + u32_le(MSG_ANSWER_ID) + (query_id + bytes_encoding(answer) + after));
        lemma_u32_at_encoding(before, MSG_ANSWER_ID, query_id + bytes_encoding(answer) + after);
        assert(s =~= (before + u32_le(MSG_ANSWER_ID) + query_id) + bytes_encoding(answer) + after);
        lemma_bytes_at_encoding(before + u32_le(MSG_ANSWER_ID) + query_id, answer, after);
        assert(s.subrange(body, body + 32) =~= query_id);
    }
}

#[verifier::rlimit(40)]
proof fn lemma_round_trip_query(before: Seq<u8>, m: MessageView, after: Seq<u8>)
    requires
        m.wf(),
        m is Query,
    ensures
        reads_back(before, m, after),
{
    let s = before + m.encoding() + after;
    let body = (before.len() + 4) as int;
    if let MessageView::Query { query_id, query } = m {
        assert(s =~= before + u32_le(MSG_QUERY_ID) + (query_id + bytes_encoding(query) + after));
        lemma_u32_at_encoding(before, MSG_QUERY_ID, query_id + bytes_encoding(query) + after);
        assert(s =~= (before + u32_le(MSG_QUERY_ID) + query_id) + bytes_encoding(query) + after);
        lemma_bytes_at_encoding(before + u32_le(MSG_QUERY_ID) + query_id, query, after);
        assert(s.subrange(body, body + 32) =~= query_id);
    }
}

#[verifier::rlimit(40)]
proof fn lemma_round_trip_confirm(before: Seq<u8>, m: MessageView, after: Seq<u8>)
    requires
        m.wf(),
        m is ConfirmChannel,
    ensures
        reads_back(before, m, after),
{
    let s = before + m.encoding() + after;
    let body = (before.len() + 4) as int;
    if let MessageView::ConfirmChannel { key, peer_key, date } = m {
        let id = MSG_CONFIRM_CHANNEL_ID;
        assert(s =~= before + u32_le(id) + (key + peer_key + u32_le(date) + after));
        lemma_u32_at_encoding(before, id, key + peer_key + u32_le(date) + after);
        assert(s =~= (before + u32_le(id) + key + peer_key) + u32_le(date) + after);
        lemma_u32_at_encoding(before + u32_le(id) + key + peer_key, date, after);
        assert(s.subrange(body, body + 32) =~= key);
        assert(s.subrange(body + 32, body + 64) =~= peer_key);
    }
}

#[verifier::rlimit(40)]
proof fn lemma_round_trip_create(before: Seq<u8>, m: MessageView, after: Seq<u8>)
    requires
        m.wf(),
        m is CreateChannel,
    ensures
        reads_back(before, m, after),
{
    let s = before + m.encoding() + after;
    let body = (before.len() + 4) as int;
    if let MessageView::CreateChannel { key, date } = m {
        let id = MSG_CREATE_CHANNEL_ID;
        assert(s =~= before + u32_le(id) + (key + u32_le(date) + after));
        lemma_u32_at_encoding(before, id, key + u32_le(date) + after);
        assert(s =~= (before + u32_le(id) + key) + u32_le(date) + after);
        lemma_u32_at_encoding(before + u32_le(id) + key, date, after);
        assert(s.subrange(body, body + 32) =~= key);
    }
}

#[verifier::rlimit(40)]
proof fn lemma_round_trip_custom(before: Seq<u8>, m: MessageView, after: Seq<u8>)
    requires
        m.wf(),
        m is Custom,
    ensures
        reads_back(before, m, after),
{
    let s = before + m.encoding() + after;
    if let MessageView::Custom { data } = m {
        assert(s =~= before + u32_le(MSG_CUSTOM_ID) + (bytes_encoding(data) + after));
        lemma_u32_at_encoding(before, MSG_CUSTOM_ID, bytes_encoding(data) + after);
        assert(s =~= (before + u32_le(MSG_CUSTOM_ID)) + bytes_encoding(data) + after);
        lemma_bytes_at_encoding(before + u32_le(MSG_CUSTOM_ID), data, after);
    }
}

#[verifier::rlimit(40)]
proof fn lemma_round_trip_part(before: Seq<u8>, m: MessageView, after: Seq<u8>)
    requires
        m.wf(),
        m is Part,
    ensures
        reads_back(before, m, after),
{
    let s = before + m.encoding() + after;
    let body = (before.len() + 4) as int;
    if let MessageView::Part { hash, total_size, offset, data } = m {
        let tail = hash + u32_le(total_size) + u32_le(offset) + bytes_encoding(data) + after;
        assert(s =~= before + u32_le(MSG_PART_ID) + tail);
        lemma_u32_at_encoding(before, MSG_PART_ID, tail);
        let head = before + u32_le(MSG_PART_ID) + hash;
        let rest = u32_le(offset) + bytes_encoding(data) + after;
        assert(s =~= head + u32_le(total_size) + rest);
        lemma_u32_at_encoding(head, total_size, rest);
        assert(s =~= (head + u32_le(total_size)) + u32_le(offset) + (bytes_encoding(data) + after));
        lemma_u32_at_encoding(head + u32_le(total_size), offset, bytes_encoding(data) + after);
        assert(s =~= (head + u32_le(total_size) + u32_le(offset)) + bytes_encoding(data) + after);
        lemma_bytes_at_encoding(head + u32_le(total_size) + u32_le(offset), data, after);
        assert(s.subrange(body, body + 32) =~= hash);
    }
}

#[verifier::rlimit(40)]
proof fn lemma_round_trip_plain(before: Seq<u8>, m: MessageView, after: Seq<u8>)
    requires
        m is Nop || m is Reinit,
    ensures
        reads_back(before, m, after),
{
    let s = before + m.encoding() + after;
    match m {
        MessageView::Reinit { date } => {
            assert(s =~= before + u32_le(MSG_REINIT_ID) + (u32_le(date) + after));
            lemma_u32_at_encoding(before, MSG_REINIT_ID, u32_le(date) + after);
            assert(s =~= (before + u32_le(MSG_REINIT_ID)) + u32_le(date) + after);
            lemma_u32_at_encoding(before + u32_le(MSG_REINIT_ID), date, after);
        },
        _ => {
            lemma_u32_at_encoding(before, MSG_NOP_ID, after);
        },
    }
}

/// A message read where it was written is the message, and reading ends
/// where its encoding ends.
pub proof fn lemma_message_round_trip(before: Seq<u8>, m: MessageView, after: Seq<u8>)
    requires
        m.wf(),
    ensures
        reads_back(before, m, after),
{
    match m {
        MessageView::Answer { .. } => lemma_round_trip_answer(before, m, after),
        MessageView::ConfirmChannel { .. } => lemma_round_trip_confirm(before, m, after),
        MessageView::CreateChannel { .. } => lemma_round_trip_create(before, m, after),
        MessageView::Custom { .. } => lemma_round_trip_custom(before, m, after),
        MessageView::Part { .. } => lemma_round_trip_part(before, m, after),
        MessageView::Query { .. } => lemma_round_trip_query(before, m, after),
        _ => lemma_round_trip_plain(before, m, after),
    }
}

/// The view of an optional message and offset.
pub open spec fn parsed_view(r: Option<(Message, usize)>) -> Option<(MessageView, int)> {
    match r {
        Some((m, end)) => Some((m@, end as int)),
        None => None,
    }
}

/// The encoding of a message is little longer than its byte strings.
pub proof fn lemma_encoding_len(m: MessageView)
    requires
        m.wf(),
    ensures
        4 <= m.encoding().len() <= MAX_BYTES_LEN + 128,
{
    lemma_u32_round_trip(0);
    assert forall|v: u32| u32_le(v).len() == 4 by {
        lemma_u32_round_trip(v);
    }
    match m {
        MessageView::Answer { query_id, answer } => lemma_bytes_encoding_len(answer),
        MessageView::Custom { data } => lemma_bytes_encoding_len(data),
        MessageView::Part { hash, total_size, offset, data } => lemma_bytes_encoding_len(data),
        MessageView::Query { query_id, query } => lemma_bytes_encoding_len(query),
        _ => {},
    }
}

impl Message {
    /// Every byte string of the message fits its length prefix.
    pub open spec fn encodable(&self) -> bool {
        self@.wf()
    }

    /// Tells whether every byte string of the message fits its length prefix.
    pub fn check_encodable(&self) -> (ok: bool)
        ensures
            ok == self.encodable(),
    {
        match self {
            Message::Answer { answer, .. } => answer.len() <= MAX_BYTES_LEN,
            Message::Custom { data } => data.len() <= MAX_BYTES_LEN,
            Message::Part { data, .. } => data.len() <= MAX_BYTES_LEN,
            Message::Query { query, .. } => query.len() <= MAX_BYTES_LEN,
            _ => true,
        }
    }

    /// The encoding of the message.
    pub fn serialize(&self) -> (out: Vec<u8>)
        requires
            self.encodable(),
        ensures
            out@ == self@.encoding(),
    {
        let mut out: Vec<u8> = Vec::new();
        self.write_to(&mut out);
        assert(out@ =~= self@.encoding());
        out
    }

    /// Appends the encoding of the message.
    pub fn write_to(&self, buf: &mut Vec<u8>)
        requires
            self.encodable(),
        ensures
            final(buf)@ == old(buf)@ + self@.encoding(),
    {
        match self {
            Message::Answer { query_id, answer } => {
                write_u32(buf, MSG_ANSWER_ID);
                write_raw(buf, query_id.as_slice());
                write_bytes(buf, answer.as_slice());
            },
            Message::ConfirmChannel { key, peer_key, date } => {
                write_u32(buf, MSG_CONFIRM_CHANNEL_ID);
                write_raw(buf, key.as_slice());
                write_raw(buf, peer_key.as_slice());
                write_u32(buf, *date);
            },
            Message::CreateChannel { key, date } => {
                write_u32(buf, MSG_CREATE_CHANNEL_ID);
                write_raw(buf, key.as_slice());
                write_u32(buf, *date);
            },
            Message::Custom { data } => {
                write_u32(buf, MSG_CUSTOM_ID);
                write_bytes(buf, data.as_slice());
            },
            Message::Nop => {
                write_u32(buf, MSG_NOP_ID);
            },
            Message::Part { hash, total_size, offset, data } => {
                write_u32(buf, MSG_PART_ID);
                write_raw(buf, hash.as_slice());
                write_u32(buf, *total_size);
                write_u32(buf, *offset);
                write_bytes(buf, data.as_slice());
            },
            Message::Query { query_id, query } => {
                write_u32(buf, MSG_QUERY_ID);
                write_raw(buf, query_id.as_slice());
                write_bytes(buf, query.as_slice());
            },
            Message::Reinit { date } => {
                write_u32(buf, MSG_REINIT_ID);
                write_u32(buf, *date);
            },
        }
        assert(buf@ =~= old(buf)@ + self@.encoding());
    }

    /// Reads the message encoded at an offset.
    pub fn read_from(data: &[u8], at: usize) -> (r: Option<(Message, usize)>)
        ensures
            parsed_view(r) == message_at(data@, at as int),
            r matches Some((m, end)) ==> at < end <= data@.len(),
    {
        let total = data.len();
        let id = match read_u32(data, at) {
            Some(id) => id,
            None => return None,
        };
        let body = at + 4;
        if id == MSG_NOP_ID {
            Some((Message::Nop, body))
        } else if id == MSG_REINIT_ID {
            let date = match read_u32(data, body) {
                Some(v) => v,
                None => return None,
            };
            Some((Message::Reinit { date }, body + 4))
        } else if id == MSG_CREATE_CHANNEL_ID {
            if total - body < 36 {
                return None;
            }
            let key = read_int256(data, body).unwrap();
            let date = read_u32(data, body + 32).unwrap();
            Some((Message::CreateChannel { key, date }, body + 36))
        } else if id == MSG_CONFIRM_CHANNEL_ID {
            if total - body < 68 {
                return None;
            }
            let key = read_int256(data, body).unwrap();
            let peer_key = read_int256(data, body + 32).unwrap();
            let date = read_u32(data, body + 64).unwrap();
            Some((Message::ConfirmChannel { key, peer_key, date }, body + 68))
        } else if id == MSG_CUSTOM_ID {
            match read_bytes(data, body) {
                Some((start, len, end)) => Some(
                    (Message::Custom { data: copy_range(data, start, len) }, end),
                ),
                None => None,
            }
        } else if id == MSG_ANSWER_ID {
            if total - body < 32 {
                return None;
            }
            let query_id = read_int256(data, body).unwrap();
            match read_bytes(data, body + 32) {
                Some((start, len, end)) => Some(
                    (Message::Answer { query_id, answer: copy_range(data, start, len) }, end),
                ),
                None => None,
            }
        } else if id == MSG_QUERY_ID {
            if total - body < 32 {
                return None;
            }
            let query_id = read_int256(data, body).unwrap();
            match read_bytes(data, body + 32) {
                Some((start, len, end)) => Some(
                    (Message::Query { query_id, query: copy_range(data, start, len) }, end),
                ),
                None => None,
            }
        } else if id == MSG_PART_ID {
            if total - body < 40 {
                return None;
            }
            let hash = read_int256(data, body).unwrap();
            let total_size = read_u32(data, body + 32).unwrap();
            let offset = read_u32(data, body + 36).unwrap();
            match read_bytes(data, body + 40) {
                Some((start, len, end)) => Some(
                    (
                        Message::Part { hash, total_size, offset, data: copy_range(data, start, len) },
                        end,
                    ),
                ),
                None => None,
            }
        } else {
            None
        }
    }
}

} // verus!
