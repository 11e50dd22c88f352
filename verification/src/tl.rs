//! The primitive encodings of the wire format: little-endian integers,
//! 256-bit values and length-prefixed, padded byte strings.

use vstd::prelude::*;

verus! {

/// The four bytes of a 32-bit value, lowest first.
#[verifier::opaque]
pub open spec fn u32_le(v: u32) -> Seq<u8> {
    seq![
        (v % 256) as u8,
        (v / 256 % 256) as u8,
        (v / 65536 % 256) as u8,
        (v / 16777216 % 256) as u8,
    ]
}

/// The value whose little-endian bytes start at `at`.
pub open spec fn u32_at(s: Seq<u8>, at: int) -> u32 {
    (s[at] + 256 * s[at + 1] + 65536 * s[at + 2] + 16777216 * s[at + 3]) as u32
}

/// The eight bytes of a 64-bit value, lowest first.
pub open spec fn u64_le(v: u64) -> Seq<u8> {
    u32_le((v % 0x1_0000_0000) as u32) + u32_le((v / 0x1_0000_0000) as u32)
}

/// The 64-bit value whose little-endian bytes start at `at`.
pub open spec fn u64_at(s: Seq<u8>, at: int) -> u64 {
    (u32_at(s, at) + 0x1_0000_0000 * u32_at(s, at + 4)) as u64
}

/// Zero bytes that bring a length up to a multiple of four.
pub open spec fn padding(len: int) -> Seq<u8> {
    Seq::new(((4 - len % 4) % 4) as nat, |i: int| 0u8)
}

/// The length prefix of a byte string: one byte below 254, else the marker
/// 254 and three bytes of length.
pub open spec fn bytes_prefix(len: int) -> Seq<u8> {
    if len < 254 {
        seq![len as u8]
    } else {
        seq![254u8, (len % 256) as u8, (len / 256 % 256) as u8, (len / 65536 % 256) as u8]
    }
}

/// The encoding of a byte string: prefix, content, padding to four bytes.
#[verifier::opaque]
pub open spec fn bytes_encoding(data: Seq<u8>) -> Seq<u8> {
    bytes_prefix(data.len() as int) + data + padding(
        (bytes_prefix(data.len() as int).len() + data.len()) as int,
    )
}

/// The longest byte string that the length prefix can describe.
pub const MAX_BYTES_LEN: usize = 0xff_ffff;

/// What reading a byte string at `at` yields: the content's start, its
/// length, and the offset just behind the padding. `None` where fewer than
/// four bytes are left or the string would run past the end.
pub open spec fn bytes_at(s: Seq<u8>, at: int) -> Option<(int, int, int)> {
    if at + 4 > s.len() {
        None
    } else {
        let (start, len) = if s[at] != 254 {
            (at + 1, s[at] as int)
        } else {
            (at + 4, s[at + 1] + 256 * s[at + 2] + 65536 * s[at + 3])
        };
        let end = start + len + (4 - (start - at + len) % 4) % 4;
        if end > s.len() {
            None
        } else {
            Some((start, len, end))
        }
    }
}

/// A 32-bit value is the sum of its four bytes, each with its weight.
proof fn lemma_u32_digits(v: u32)
    by (bit_vector)
    ensures
        (v % 256) + 256 * (v / 256 % 256) + 65536 * (v / 65536 % 256) + 16777216 * (v / 16777216
            % 256) == v,
        v % 256 < 256,
        v / 256 % 256 < 256,
        v / 65536 % 256 < 256,
        v / 16777216 % 256 < 256,
{
}

pub proof fn lemma_u32_round_trip(v: u32)
    ensures
        u32_le(v).len() == 4,
        u32_at(u32_le(v), 0) == v,
{
    reveal(u32_le);
    lemma_u32_digits(v);
}

pub proof fn lemma_u64_round_trip(v: u64)
    ensures
        u64_le(v).len() == 8,
        u64_at(u64_le(v), 0) == v,
{
    let lo = (v % 0x1_0000_0000) as u32;
    let hi = (v / 0x1_0000_0000) as u32;
    lemma_u32_round_trip(lo);
    lemma_u32_round_trip(hi);
    let s = u64_le(v);
    assert(s[0] == u32_le(lo)[0] && s[1] == u32_le(lo)[1] && s[2] == u32_le(lo)[2] && s[3]
        == u32_le(lo)[3]);
    assert(s[4] == u32_le(hi)[0] && s[5] == u32_le(hi)[1] && s[6] == u32_le(hi)[2] && s[7]
        == u32_le(hi)[3]);
}

/// A value read where it was written, whatever surrounds it, is the value.
pub proof fn lemma_u32_at_encoding(before: Seq<u8>, v: u32, after: Seq<u8>)
    ensures
        u32_le(v).len() == 4,
        u32_at(before + u32_le(v) + after, before.len() as int) == v,
{
    reveal(u32_le);
    lemma_u32_digits(v);
    let s = before + u32_le(v) + after;
    let at = before.len() as int;
    assert(s[at] == u32_le(v)[0]);
    assert(s[at + 1] == u32_le(v)[1]);
    assert(s[at + 2] == u32_le(v)[2]);
    assert(s[at + 3] == u32_le(v)[3]);
}

pub proof fn lemma_u64_at_encoding(before: Seq<u8>, v: u64, after: Seq<u8>)
    ensures
        u64_le(v).len() == 8,
        u64_at(before + u64_le(v) + after, before.len() as int) == v,
{
    let lo = (v % 0x1_0000_0000) as u32;
    let hi = (v / 0x1_0000_0000) as u32;
    let s = before + u64_le(v) + after;
    assert(s =~= before + u32_le(lo) + (u32_le(hi) + after));
    lemma_u32_at_encoding(before, lo, u32_le(hi) + after);
    assert(s =~= (before + u32_le(lo)) + u32_le(hi) + after);
    lemma_u32_at_encoding(before + u32_le(lo), hi, after);
}

/// A byte string read where it was written is found whole, and reading ends
/// where its encoding ends.
pub proof fn lemma_bytes_at_encoding(before: Seq<u8>, data: Seq<u8>, after: Seq<u8>)
    requires
        data.len() <= MAX_BYTES_LEN,
    ensures
        bytes_encoding(data).len() % 4 == 0,
        bytes_encoding(data).len() >= 4,
        bytes_at(before + bytes_encoding(data) + after, before.len() as int) matches Some(
            (start, len, end),
        ) && len == data.len() && end == before.len() + bytes_encoding(data).len() && (before
            + bytes_encoding(data) + after).subrange(start, start + len) == data,
{
    reveal(bytes_encoding);
    let enc = bytes_encoding(data);
    let s = before + enc + after;
    let at = before.len() as int;
    let n = data.len() as int;
    let prefix = bytes_prefix(n);
    assert(s[at] == enc[0]);
    assert(enc[0] == prefix[0]);
    if n >= 254 {
        assert(s[at + 1] == enc[1] && enc[1] == prefix[1]);
        assert(s[at + 2] == enc[2] && enc[2] == prefix[2]);
        assert(s[at + 3] == enc[3] && enc[3] == prefix[3]);
    }
    let start = at + prefix.len();
    assert(s.subrange(start, start + n) =~= data);
}

/// An encoded byte string is at most seven bytes longer than the string.
pub proof fn lemma_bytes_encoding_len(data: Seq<u8>)
    ensures
        data.len() + 1 <= bytes_encoding(data).len() <= data.len() + 7,
{
    reveal(bytes_encoding);
}

/// A byte string that is found is no longer than a length prefix can say.
pub proof fn lemma_bytes_at_bound(s: Seq<u8>, at: int)
    requires
        0 <= at,
    ensures
        bytes_at(s, at) matches Some((start, len, end)) ==> 0 <= len <= MAX_BYTES_LEN && at < start
            && start + len <= end <= s.len(),
{
}

/// Appends the little-endian bytes of a 32-bit value.
pub fn write_u32(buf: &mut Vec<u8>, v: u32)
    ensures
        final(buf)@ == old(buf)@ + u32_le(v),
{
    buf.push((v % 256) as u8);
    buf.push((v / 256 % 256) as u8);
    buf.push((v / 65536 % 256) as u8);
    buf.push((v / 16777216 % 256) as u8);
    proof {
        reveal(u32_le);
    }
    assert(buf@ =~= old(buf)@ + u32_le(v));
}

/// Appends the little-endian bytes of a 64-bit value.
pub fn write_u64(buf: &mut Vec<u8>, v: u64)
    ensures
        final(buf)@ == old(buf)@ + u64_le(v),
{
    write_u32(buf, (v % 0x1_0000_0000) as u32);
    write_u32(buf, (v / 0x1_0000_0000) as u32);
    assert(buf@ =~= old(buf)@ + u64_le(v));
}

/// Appends bytes as they are.
pub fn write_raw(buf: &mut Vec<u8>, data: &[u8])
    ensures
        final(buf)@ == old(buf)@ + data@,
{
    buf.extend_from_slice(data);
}

/// Appends a length-prefixed, padded byte string.
pub fn write_bytes(buf: &mut Vec<u8>, data: &[u8])
    requires
        data@.len() <= MAX_BYTES_LEN,
    ensures
        final(buf)@ == old(buf)@ + bytes_encoding(data@),
{
    let len = data.len();
    let written: usize;
    if len < 254 {
        buf.push(len as u8);
        written = 1 + len;
    } else {
        buf.push(254);
        buf.push((len % 256) as u8);
        buf.push((len / 256 % 256) as u8);
        buf.push((len / 65536 % 256) as u8);
        written = 4 + len;
    }
    assert(buf@ =~= old(buf)@ + bytes_prefix(len as int));
    buf.extend_from_slice(data);
    let ghost unpadded = buf@;
    let pad = (4 - written % 4) % 4;
    let mut i: usize = 0;
    while i < pad
        invariant
            i <= pad,
            buf@ =~= unpadded + Seq::new(i as nat, |j: int| 0u8),
        decreases pad - i,
    {
        buf.push(0);
        i += 1;
    }
    proof {
        reveal(bytes_encoding);
    }
    assert(buf@ =~= old(buf)@ + bytes_encoding(data@));
}

/// Reads a 32-bit value at an offset.
pub fn read_u32(data: &[u8], at: usize) -> (value: Option<u32>)
    ensures
        value == if at + 4 <= data@.len() {
            Some(u32_at(data@, at as int))
        } else {
            None
        },
        value.is_some() ==> at + 4 <= usize::MAX,
{
    if data.len() < 4 || at > data.len() - 4 {
        return None;
    }
    let b0 = data[at] as u32;
    let b1 = data[at + 1] as u32;
    let b2 = data[at + 2] as u32;
    let b3 = data[at + 3] as u32;
    Some(b0 + 256 * b1 + 65536 * b2 + 16777216 * b3)
}

/// Reads a 64-bit value at an offset.
pub fn read_u64(data: &[u8], at: usize) -> (value: Option<u64>)
    ensures
        value == if at + 8 <= data@.len() {
            Some(u64_at(data@, at as int))
        } else {
            None
        },
        value.is_some() ==> at + 8 <= usize::MAX,
{
    if data.len() < 8 || at > data.len() - 8 {
        return None;
    }
    let lo = read_u32(data, at).unwrap() as u64;
    let hi = read_u32(data, at + 4).unwrap() as u64;
    Some(lo + 0x1_0000_0000 * hi)
}

/// Reads 32 bytes at an offset.
pub fn read_int256(data: &[u8], at: usize) -> (value: Option<[u8; 32]>)
    ensures
        value.is_some() == (at + 32 <= data@.len()),
        value matches Some(bytes) ==> bytes@ == data@.subrange(at as int, at + 32),
{
    if data.len() < 32 || at > data.len() - 32 {
        return None;
    }
    let mut out = [0u8; 32];
    let mut i: usize = 0;
    while i < 32
        invariant
            i <= 32,
            at + 32 <= data@.len() <= usize::MAX,
            forall|j: int| 0 <= j < i ==> out@[j] == data@[at + j],
        decreases 32 - i,
    {
        out[i] = data[at + i];
        i += 1;
    }
    assert(out@ =~= data@.subrange(at as int, at + 32));
    Some(out)
}

/// Finds the byte string encoded at an offset: where its content starts, how
/// long it is, and where the next field begins.
pub fn read_bytes(data: &[u8], at: usize) -> (found: Option<(usize, usize, usize)>)
    ensures
        match (found, bytes_at(data@, at as int)) {
            (Some((start, len, end)), Some((s, l, e))) => start == s && len == l && end == e,
            (None, None) => true,
            _ => false,
        },
        found matches Some((start, len, end)) ==> at < start && start + len <= end && end
            <= data@.len(),
{
    if data.len() < 4 || at > data.len() - 4 {
        return None;
    }
    let (start, len): (usize, usize) = if data[at] != 254 {
        (at + 1, data[at] as usize)
    } else {
        (
            at + 4,
            data[at + 1] as usize + 256 * (data[at + 2] as usize) + 65536 * (data[at + 3] as usize),
        )
    };
    let used = start - at + len;
    let pad = (4 - used % 4) % 4;
    if len > data.len() - start || pad > data.len() - start - len {
        return None;
    }
    Some((start, len, start + len + pad))
}

/// Copies a range of a slice into a new vector.
pub fn copy_range(data: &[u8], start: usize, len: usize) -> (out: Vec<u8>)
    requires
        start + len <= data@.len(),
    ensures
        out@ == data@.subrange(start as int, start + len),
{
    let mut out: Vec<u8> = Vec::with_capacity(len);
    let total = data.len();
    let mut i: usize = 0;
    while i < len
        invariant
            i <= len,
            start + len <= data@.len() == total,
            out@ == data@.subrange(start as int, start + i),
        decreases len - i,
    {
        out.push(data[start + i]);
        i += 1;
        assert(out@ =~= data@.subrange(start as int, start + i));
    }
    out
}

} // verus!
