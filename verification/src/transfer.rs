//! Reassembly of a message that was sent in parts.

use crate::crypto::{sha256, sha256_digest};
use crate::node_id::bytes32_eq;
use vstd::prelude::*;

verus! {

/// The largest payload of one packet, and so of one part.
pub const MAX_ADNL_MESSAGE_SIZE: usize = 1024;

/// Why a part was refused or a transfer failed.
#[derive(Debug, Copy, Clone, PartialEq, Eq, Structural)]
pub enum TransferError {
    /// The part is longer than a packet's payload or reaches past the
    /// announced size.
    PartOutOfBounds,
    /// The assembled bytes do not have the hash that names the transfer.
    HashMismatch,
}

/// A transfer as plain values.
pub struct TransferView {
    /// The bytes assembled so far; zero where nothing was received.
    pub buffer: Seq<u8>,
    /// For each byte, whether it was received.
    pub received: Seq<bool>,
    /// When the last part arrived.
    pub last_update: u32,
}

/// The number of `false` entries.
pub open spec fn count_missing(received: Seq<bool>) -> nat
    decreases received.len(),
{
    if received.len() == 0 {
        0
    } else {
        count_missing(received.drop_last()) + if received.last() {
            0nat
        } else {
            1nat
        }
    }
}

impl TransferView {
    /// A transfer of the given size of which nothing was received.
    pub open spec fn empty(total_size: nat, now: u32) -> TransferView {
        TransferView {
            buffer: Seq::new(total_size, |i: int| 0u8),
            received: Seq::new(total_size, |i: int| false),
            last_update: now,
        }
    }

    pub open spec fn wf(self) -> bool {
        self.buffer.len() == self.received.len()
    }

    /// Whether a part of `len` bytes at `offset` lies inside the transfer and
    /// is no longer than a packet's payload.
    pub open spec fn part_fits(self, offset: nat, len: nat) -> bool {
        offset + len <= self.buffer.len() && len <= MAX_ADNL_MESSAGE_SIZE
    }

    /// The transfer after a part was copied in.
    pub open spec fn with_part(self, offset: nat, data: Seq<u8>) -> TransferView {
        TransferView {
            buffer: Seq::new(
                self.buffer.len(),
                |i: int|
                    if offset <= i < offset + data.len() {
                        data[i - offset]
                    } else {
                        self.buffer[i]
                    },
            ),
            received: Seq::new(
                self.received.len(),
                |i: int| offset <= i < offset + data.len() || self.received[i],
            ),
            last_update: self.last_update,
        }
    }

    /// Whether every byte was received.
    pub open spec fn complete(self) -> bool {
        forall|i: int| 0 <= i < self.received.len() ==> self.received[i]
    }

    /// Whether every byte received so far is the byte of `body` at its place.
    pub open spec fn agrees_with(self, body: Seq<u8>) -> bool {
        &&& self.buffer.len() == body.len()
        &&& forall|i: int| 0 <= i < body.len() && self.received[i] ==> self.buffer[i] == body[i]
    }

    /// What offering a part yields: an error where the part does not fit;
    /// nothing while bytes are missing; once all are there, the assembled
    /// bytes where they have the hash `id`, else an error.
    pub open spec fn add_part(self, offset: nat, data: Seq<u8>, id: Seq<u8>) -> Result<
        Option<Seq<u8>>,
        TransferError,
    > {
        if !self.part_fits(offset, data.len()) {
            Err(TransferError::PartOutOfBounds)
        } else if !self.with_part(offset, data).complete() {
            Ok(None)
        } else if sha256(self.with_part(offset, data).buffer)@ == id {
            Ok(Some(self.with_part(offset, data).buffer))
        } else {
            Err(TransferError::HashMismatch)
        }
    }
}

/// Nothing is missing exactly when every entry is set.
pub proof fn lemma_count_missing_zero(received: Seq<bool>)
    ensures
        count_missing(received) == 0 <==> forall|i: int| 0 <= i < received.len() ==> received[i],
        count_missing(received) <= received.len(),
    decreases received.len(),
{
    if received.len() > 0 {
        lemma_count_missing_zero(received.drop_last());
        if count_missing(received) == 0 {
            assert forall|i: int| 0 <= i < received.len() implies received[i] by {
                if i < received.len() - 1 {
                    assert(received.drop_last()[i] == received[i]);
                }
            }
        } else if received.last() {
            let i = choose|i: int| 0 <= i < received.len() - 1 && !received.drop_last()[i];
            assert(!received[i]);
        }
    }
}

/// Setting an entry that was clear lowers the count of missing entries by
/// one; setting an entry that was set leaves it.
pub proof fn lemma_count_missing_set(received: Seq<bool>, at: int)
    requires
        0 <= at < received.len(),
    ensures
        count_missing(received.update(at, true)) + (if received[at] {
            0nat
        } else {
            1nat
        }) == count_missing(received),
    decreases received.len(),
{
    let after = received.update(at, true);
    if at == received.len() - 1 {
        assert(after.drop_last() =~= received.drop_last());
    } else {
        lemma_count_missing_set(received.drop_last(), at);
        assert(after.drop_last() =~= received.drop_last().update(at, true));
    }
}

/// Whether `data` is the part of `body` at `offset`, no longer than a
/// packet's payload.
pub open spec fn is_part_of(body: Seq<u8>, offset: nat, data: Seq<u8>) -> bool {
    &&& offset + data.len() <= body.len()
    &&& data.len() <= MAX_ADNL_MESSAGE_SIZE
    &&& data == body.subrange(offset as int, (offset + data.len()) as int)
}

/// The transfer after parts were copied in, in order.
pub open spec fn after_parts(v: TransferView, parts: Seq<(nat, Seq<u8>)>) -> TransferView
    decreases parts.len(),
{
    if parts.len() == 0 {
        v
    } else {
        after_parts(v, parts.drop_last()).with_part(parts.last().0, parts.last().1)
    }
}

/// A part of a body, copied into a transfer that agrees with the body, leaves
/// a transfer that agrees with it.
pub proof fn lemma_part_keeps_agreement(v: TransferView, body: Seq<u8>, offset: nat, data: Seq<u8>)
    requires
        v.wf(),
        v.agrees_with(body),
        is_part_of(body, offset, data),
    ensures
        v.with_part(offset, data).wf(),
        v.with_part(offset, data).agrees_with(body),
{
}

/// A complete transfer that agrees with a body holds the body.
pub proof fn lemma_complete_is_body(v: TransferView, body: Seq<u8>)
    requires
        v.wf(),
        v.agrees_with(body),
        v.complete(),
    ensures
        v.buffer == body,
{
    assert(v.buffer =~= body);
}

/// Parts of a body, copied in any order and any number of times into a new
/// transfer of the body's size, leave a transfer that agrees with the body.
pub proof fn lemma_parts_agree(body: Seq<u8>, parts: Seq<(nat, Seq<u8>)>, now: u32)
    requires
        forall|i: int| 0 <= i < parts.len() ==> is_part_of(body, (#[trigger] parts[i]).0, parts[i].1),
    ensures
        after_parts(TransferView::empty(body.len(), now), parts).wf(),
        after_parts(TransferView::empty(body.len(), now), parts).agrees_with(body),
    decreases parts.len(),
{
    if parts.len() > 0 {
        let before = parts.drop_last();
        assert forall|i: int| 0 <= i < before.len() implies is_part_of(
            body,
            (#[trigger] before[i]).0,
            before[i].1,
        ) by {
            assert(before[i] == parts[i]);
        }
        lemma_parts_agree(body, before, now);
        let last = parts.last();
        assert(is_part_of(body, last.0, last.1));
        lemma_part_keeps_agreement(
            after_parts(TransferView::empty(body.len(), now), before),
            body,
            last.0,
            last.1,
        );
    }
}

/// Reassembly: a body is offered to a new transfer, named by the body's hash,
/// in parts that may come in any order and more than once. Each part yields
/// nothing while bytes are missing, and the part that brings the last
/// missing byte yields the body. No part yields an error or other bytes.
pub proof fn lemma_reassembly(
    body: Seq<u8>,
    earlier: Seq<(nat, Seq<u8>)>,
    offset: nat,
    data: Seq<u8>,
    now: u32,
)
    requires
        forall|i: int|
            0 <= i < earlier.len() ==> is_part_of(body, (#[trigger] earlier[i]).0, earlier[i].1),
        is_part_of(body, offset, data),
    ensures
        ({
            let before = after_parts(TransferView::empty(body.len(), now), earlier);
            match before.add_part(offset, data, sha256(body)@) {
                Ok(Some(out)) => out == body && before.with_part(offset, data).complete(),
                Ok(None) => !before.with_part(offset, data).complete(),
                Err(_) => false,
            }
        }),
{
    let before = after_parts(TransferView::empty(body.len(), now), earlier);
    lemma_parts_agree(body, earlier, now);
    lemma_part_keeps_agreement(before, body, offset, data);
    if before.with_part(offset, data).complete() {
        lemma_complete_is_body(before.with_part(offset, data), body);
    }
}

/// A part that completes a transfer whose bytes do not have the hash that
/// names it yields an error.
pub proof fn lemma_mismatch_fails(v: TransferView, offset: nat, data: Seq<u8>, id: Seq<u8>)
    requires
        v.part_fits(offset, data.len()),
        v.with_part(offset, data).complete(),
        sha256(v.with_part(offset, data).buffer)@ != id,
    ensures
        v.add_part(offset, data, id) matches Err(e) && e == TransferError::HashMismatch,
{
}

/// A part that was received before changes nothing when it comes again.
pub proof fn lemma_duplicate_part(v: TransferView, offset: nat, data: Seq<u8>)
    requires
        v.wf(),
        v.part_fits(offset, data.len()),
    ensures
        v.with_part(offset, data).with_part(offset, data) == v.with_part(offset, data),
{
    let once = v.with_part(offset, data);
    assert(once.with_part(offset, data).buffer =~= once.buffer);
    assert(once.with_part(offset, data).received =~= once.received);
}

/// The state of one incoming transfer.
#[derive(Debug, Clone)]
pub struct Transfer {
    buffer: Vec<u8>,
    received: Vec<bool>,
    missing: usize,
    last_update: u32,
}

impl View for Transfer {
    type V = TransferView;

    closed spec fn view(&self) -> TransferView {
        TransferView {
            buffer: self.buffer@,
            received: self.received@,
            last_update: self.last_update,
        }
    }
}

impl Transfer {
    /// The count of missing bytes is kept up to date.
    pub closed spec fn wf(&self) -> bool {
        &&& self.buffer@.len() == self.received@.len()
        &&& self.missing == count_missing(self.received@)
    }

    /// A transfer of the given size of which nothing was received yet.
    pub fn new(total_size: usize, now: u32) -> (transfer: Self)
        ensures
            transfer.wf(),
            transfer@ == TransferView::empty(total_size as nat, now),
    {
        let buffer = vec![0u8; total_size];
        let received = vec![false; total_size];
        proof {
            assert(buffer@ =~= Seq::new(total_size as nat, |i: int| 0u8));
            assert(received@ =~= Seq::new(total_size as nat, |i: int| false));
            lemma_count_all_missing(received@);
        }
        Self { buffer, received, missing: total_size, last_update: now }
    }

    /// The announced size of the message.
    pub fn total_size(&self) -> (size: usize)
        ensures
            size == self@.buffer.len(),
    {
        self.buffer.len()
    }

    /// Notes that a part arrived at `now`.
    pub fn refresh(&mut self, now: u32)
        requires
            old(self).wf(),
        ensures
            final(self).wf(),
            final(self)@ == (TransferView { last_update: now, ..old(self)@ }),
    {
        self.last_update = now;
    }

    /// Whether no part arrived for `timeout` seconds or more.
    pub fn is_expired(&self, now: u32, timeout: u64) -> (expired: bool)
        ensures
            expired == (now - self@.last_update >= timeout),
    {
        now >= self.last_update && (now - self.last_update) as u64 >= timeout
    }

    /// Copies a part in. Returns the assembled message once every byte was
    /// received and the bytes have the hash that names the transfer.
    pub fn add_part(&mut self, offset: usize, data: &[u8], transfer_id: &[u8; 32]) -> (r: Result<
        Option<Vec<u8>>,
        TransferError,
    >)
        requires
            old(self).wf(),
        ensures
            final(self).wf(),
            match old(self)@.add_part(offset as nat, data@, transfer_id@) {
                Ok(Some(body)) => r matches Ok(Some(out)) && out@ == body,
                Ok(None) => r matches Ok(None),
                Err(e) => r matches Err(got) && got == e,
            },
            final(self)@ == if old(self)@.part_fits(offset as nat, data@.len()) {
                old(self)@.with_part(offset as nat, data@)
            } else {
                old(self)@
            },
    {
        let len = data.len();
        let total = self.buffer.len();
        if len > MAX_ADNL_MESSAGE_SIZE || offset > total || len > total - offset {
            return Err(TransferError::PartOutOfBounds);
        }
        let mut i: usize = 0;
        while i < len
            invariant
                i <= len,
                len == data@.len(),
                offset + len <= total,
                total == self.buffer@.len(),
                self.wf(),
                self.last_update == old(self).last_update,
                forall|j: int|
                    0 <= j < total ==> self.buffer@[j] == if offset <= j < offset + i {
                        data@[j - offset]
                    } else {
                        old(self).buffer@[j]
                    },
                forall|j: int|
                    0 <= j < total ==> self.received@[j] == (offset <= j < offset + i || old(
                        self,
                    ).received@[j]),
            decreases len - i,
        {
            let at = offset + i;
            self.buffer.set(at, data[i]);
            if !self.received[at] {
                proof {
                    lemma_count_missing_set(self.received@, at as int);
                }
                self.received.set(at, true);
                self.missing -= 1;
            }
            i += 1;
        }
        assert(self@.buffer =~= old(self)@.with_part(offset as nat, data@).buffer);
        assert(self@.received =~= old(self)@.with_part(offset as nat, data@).received);
        proof {
            lemma_count_missing_zero(self.received@);
        }
        if self.missing != 0 {
            return Ok(None);
        }
        let digest = sha256_digest(self.buffer.as_slice());
        if !bytes32_eq(&digest, transfer_id) {
            return Err(TransferError::HashMismatch);
        }
        Ok(Some(self.buffer.clone()))
    }
}

/// Where nothing was received, every byte is missing.
proof fn lemma_count_all_missing(received: Seq<bool>)
    requires
        forall|i: int| 0 <= i < received.len() ==> !received[i],
    ensures
        count_missing(received) == received.len(),
    decreases received.len(),
{
    if received.len() > 0 {
        assert forall|i: int| 0 <= i < received.drop_last().len() implies !received.drop_last()[i] by {
            assert(received.drop_last()[i] == received[i]);
        }
        lemma_count_all_missing(received.drop_last());
    }
}

} // verus!
