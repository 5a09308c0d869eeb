//! VarInt and VarLong, the protocol's LEB128-style variable-width integers.
//!
//! A value is cut into groups of seven bits, least significant group first.
//! Every byte but the last has its high bit set.

use vstd::prelude::*;

use crate::protocol::error::{ProtocolError, Result};
use crate::protocol::writer::ByteSink;

verus! {

/// A VarInt encodes at most 32 bits in 7-bit groups, so 5 bytes.
pub const MAX_VARINT_BYTES: usize = 5;

/// A VarLong encodes at most 64 bits in 7-bit groups, so 10 bytes.
pub const MAX_VARLONG_BYTES: usize = 10;

/// The groups of `v`, one byte each.
pub open spec fn leb128(v: u64) -> Seq<u8>
    decreases v,
{
    if v < 0x80 {
        seq![v as u8]
    } else {
        proof {
            lemma_group(v);
        }
        seq![(v & 0x7f) as u8 | 0x80] + leb128(v >> 7)
    }
}

/// The bytes of `value` as a VarInt.
pub open spec fn varint_bytes(value: i32) -> Seq<u8> {
    leb128(value as u32 as u64)
}

/// The bytes of `value` as a VarLong.
pub open spec fn varlong_bytes(value: i64) -> Seq<u8> {
    leb128(value as u64)
}

/// How many bytes the variable-width integer at the front of `buf` occupies:
/// up to and with the first byte whose high bit is clear. `None` where none of
/// the first `max` bytes is such a byte.
pub open spec fn group_count(buf: Seq<u8>, max: nat) -> Option<nat>
    decreases max,
{
    if max == 0 || buf.len() == 0 {
        None
    } else if buf[0] < 0x80 {
        Some(1)
    } else {
        match group_count(buf.skip(1), (max - 1) as nat) {
            Some(n) => Some(n + 1),
            None => None,
        }
    }
}

/// The value of groups of seven bits, least significant first. Bits past the
/// 64th are dropped.
pub open spec fn group_value(groups: Seq<u8>) -> u64
    decreases groups.len(),
{
    if groups.len() == 0 {
        0
    } else {
        (groups[0] & 0x7f) as u64 | (group_value(groups.skip(1)) << 7)
    }
}

/// The error for a front of `buf` that is no integer of at most `max` bytes:
/// truncated where more bytes could still complete it, else too long.
pub open spec fn incomplete(buf: Seq<u8>, max: usize) -> ProtocolError {
    if buf.len() < max {
        ProtocolError::UnexpectedEof { needed: 1, available: 0 }
    } else {
        ProtocolError::VarIntTooLong { max }
    }
}

/// The VarInt at the front of `buf`, with the number of bytes it occupies. Bits
/// past the 32nd are dropped.
pub open spec fn parse_varint(buf: Seq<u8>) -> Result<(i32, usize)> {
    match group_count(buf, MAX_VARINT_BYTES as nat) {
        Some(n) => Ok((group_value(buf.take(n as int)) as u32 as i32, n as usize)),
        None => Err(incomplete(buf, MAX_VARINT_BYTES)),
    }
}

/// The VarLong at the front of `buf`, with the number of bytes it occupies.
pub open spec fn parse_varlong(buf: Seq<u8>) -> Result<(i64, usize)> {
    match group_count(buf, MAX_VARLONG_BYTES as nat) {
        Some(n) => Ok((group_value(buf.take(n as int)) as i64, n as usize)),
        None => Err(incomplete(buf, MAX_VARLONG_BYTES)),
    }
}

/// Number of bytes `value` occupies when written as a VarInt.
///
/// Computed from the bit width rather than by trial encoding.
#[inline]
#[must_use]
pub fn varint_len(value: i32) -> (len: usize)
    ensures
        len == varint_bytes(value).len(),
        1 <= len <= MAX_VARINT_BYTES,
{
    let v: u32 = value as u32;
    let zeros: u32 = v.leading_zeros();
    proof {
        vstd::std_specs::bits::axiom_u32_leading_zeros(v);
        let b = (32 - zeros) as u32;
        assert((v as u64) >> b == 0) by (bit_vector)
            requires
                b <= 32,
                b == 32 || v >> b == 0,
        ;
        lemma_width(v as u64, b as u64);
    }
    let bits: u32 = 32 - zeros;
    (bits.saturating_sub(1) / 7 + 1) as usize
}

/// Number of bytes `value` occupies when written as a VarLong.
#[inline]
#[must_use]
pub fn varlong_len(value: i64) -> (len: usize)
    ensures
        len == varlong_bytes(value).len(),
        1 <= len <= MAX_VARLONG_BYTES,
{
    let v: u64 = value as u64;
    let zeros: u32 = v.leading_zeros();
    proof {
        vstd::std_specs::bits::axiom_u64_leading_zeros(v);
        lemma_width(v, (64 - zeros) as u64);
    }
    let bits: u32 = 64 - zeros;
    (bits.saturating_sub(1) / 7 + 1) as usize
}

/// Writes `value` as a VarInt.
#[inline]
pub fn write_varint<W: ByteSink>(out: &mut W, value: i32)
    ensures
        final(out).written() == old(out).written() + varint_bytes(value),
{
    let mut v: u32 = value as u32;
    let ghost start = out.written();
    loop
        invariant
            start == old(out).written(),
            out.written() + leb128(v as u64) == start + varint_bytes(value),
        decreases v,
    {
        proof {
            lemma_group(v as u64);
        }
        let ghost before = out.written();
        let ghost head = (v as u64 & 0x7f) as u8 | 0x80;
        if v & !0x7F == 0 {
            out.put_u8(v as u8);
            assert(out.written() =~= before + leb128(v as u64));
            return;
        }
        out.put_u8((v as u8 & 0x7F) | 0x80);
        assert(before + leb128(v as u64) =~= before.push(head) + leb128((v as u64) >> 7));
        v >>= 7;
    }
}

/// Writes `value` as a VarLong.
#[inline]
pub fn write_varlong<W: ByteSink>(out: &mut W, value: i64)
    ensures
        final(out).written() == old(out).written() + varlong_bytes(value),
{
    let mut v: u64 = value as u64;
    let ghost start = out.written();
    loop
        invariant
            start == old(out).written(),
            out.written() + leb128(v) == start + varlong_bytes(value),
        decreases v,
    {
        proof {
            lemma_group(v);
        }
        let ghost before = out.written();
        let ghost head = (v & 0x7f) as u8 | 0x80;
        if v & !0x7F == 0 {
            out.put_u8(v as u8);
            assert(out.written() =~= before + leb128(v));
            return;
        }
        out.put_u8((v as u8 & 0x7F) | 0x80);
        assert(before + leb128(v) =~= before.push(head) + leb128(v >> 7));
        v >>= 7;
    }
}

/// Reads a VarInt from the front of `buf`, returning it with the number of
/// bytes consumed.
#[inline]
pub fn read_varint(buf: &[u8]) -> (read: Result<(i32, usize)>)
    ensures
        read == parse_varint(buf@),
{
    let mut value: u32 = 0;
    let mut shift: u32 = 0;
    let limit: usize = if buf.len() < MAX_VARINT_BYTES {
        buf.len()
    } else {
        MAX_VARINT_BYTES
    };
    let mut i: usize = 0;
    while i < limit
        invariant
            limit == if buf@.len() < MAX_VARINT_BYTES { buf@.len() } else { MAX_VARINT_BYTES as nat },
            i <= limit,
            shift == 7 * i,
            value == group_value(buf@.take(i as int)) as u32,
            forall|k: int| 0 <= k < i ==> buf@[k] >= 0x80,
        decreases limit - i,
    {
        let byte: u8 = buf[i];
        proof {
            let read = group_value(buf@.take(i as int));
            assert((byte & 0x80 == 0 <==> byte < 0x80) && (read | (((byte & 0x7f) as u64)
                << shift)) as u32 == (read as u32) | (((byte & 0x7f) as u32) << shift))
                by (bit_vector)
                requires
                    shift <= 28,
            ;
            lemma_group_value_push(buf@.take(i as int), byte);
            assert(buf@.take(i + 1) =~= buf@.take(i as int).push(byte));
        }
        value |= ((byte & 0x7F) as u32) << shift;
        if byte & 0x80 == 0 {
            proof {
                lemma_group_count_at(buf@, i as nat, MAX_VARINT_BYTES as nat);
            }
            return Ok((value as i32, i + 1));
        }
        shift += 7;
        i += 1;
    }
    proof {
        lemma_group_count_none(buf@, MAX_VARINT_BYTES as nat);
    }
    if buf.len() < MAX_VARINT_BYTES {
        // Truncated rather than malformed: the caller may simply need to read
        // more before trying again.
        Err(ProtocolError::UnexpectedEof { needed: 1, available: 0 })
    } else {
        Err(ProtocolError::VarIntTooLong { max: MAX_VARINT_BYTES })
    }
}

/// Reads a VarLong from the front of `buf`, returning it with the number of
/// bytes consumed.
#[inline]
pub fn read_varlong(buf: &[u8]) -> (read: Result<(i64, usize)>)
    ensures
        read == parse_varlong(buf@),
{
    let mut value: u64 = 0;
    let mut shift: u32 = 0;
    let limit: usize = if buf.len() < MAX_VARLONG_BYTES {
        buf.len()
    } else {
        MAX_VARLONG_BYTES
    };
    let mut i: usize = 0;
    while i < limit
        invariant
            limit == if buf@.len() < MAX_VARLONG_BYTES { buf@.len() } else { MAX_VARLONG_BYTES as nat },
            i <= limit,
            shift == 7 * i,
            value == group_value(buf@.take(i as int)),
            forall|k: int| 0 <= k < i ==> buf@[k] >= 0x80,
        decreases limit - i,
    {
        let byte: u8 = buf[i];
        proof {
            assert(byte & 0x80 == 0 <==> byte < 0x80) by (bit_vector);
            lemma_group_value_push(buf@.take(i as int), byte);
            assert(buf@.take(i + 1) =~= buf@.take(i as int).push(byte));
        }
        value |= ((byte & 0x7F) as u64) << shift;
        if byte & 0x80 == 0 {
            proof {
                lemma_group_count_at(buf@, i as nat, MAX_VARLONG_BYTES as nat);
            }
            return Ok((value as i64, i + 1));
        }
        shift += 7;
        i += 1;
    }
    proof {
        lemma_group_count_none(buf@, MAX_VARLONG_BYTES as nat);
    }
    if buf.len() < MAX_VARLONG_BYTES {
        Err(ProtocolError::UnexpectedEof { needed: 1, available: 0 })
    } else {
        Err(ProtocolError::VarIntTooLong { max: MAX_VARLONG_BYTES })
    }
}

/// Reading gives back every VarInt that was written, whatever follows it, and
/// consumes exactly the bytes that were written.
pub proof fn law_varint_round_trip(value: i32, tail: Seq<u8>)
    ensures
        parse_varint(varint_bytes(value) + tail) == Ok::<(i32, usize), ProtocolError>(
            (value, varint_bytes(value).len() as usize),
        ),
        1 <= varint_bytes(value).len() <= MAX_VARINT_BYTES,
{
    let v = value as u32;
    assert(v as i32 == value && (v as u64) as u32 == v && (v as u64) >> 35 == 0) by (bit_vector)
        requires
            v == value as u32,
    ;
    lemma_leb128_len(v as u64, MAX_VARINT_BYTES as nat);
    lemma_leb128_reads_back(v as u64, tail, MAX_VARINT_BYTES as nat);
    assert((varint_bytes(value) + tail).take(varint_bytes(value).len() as int) =~= varint_bytes(
        value,
    ));
}

/// Reading gives back every VarLong that was written, whatever follows it, and
/// consumes exactly the bytes that were written.
pub proof fn law_varlong_round_trip(value: i64, tail: Seq<u8>)
    ensures
        parse_varlong(varlong_bytes(value) + tail) == Ok::<(i64, usize), ProtocolError>(
            (value, varlong_bytes(value).len() as usize),
        ),
        1 <= varlong_bytes(value).len() <= MAX_VARLONG_BYTES,
{
    let v = value as u64;
    assert(v as i64 == value) by (bit_vector)
        requires
            v == value as u64,
    ;
    lemma_leb128_len(v, MAX_VARLONG_BYTES as nat);
    lemma_leb128_reads_back(v, tail, MAX_VARLONG_BYTES as nat);
    assert((varlong_bytes(value) + tail).take(varlong_bytes(value).len() as int) =~= varlong_bytes(
        value,
    ));
}

/// A VarInt that is cut short reads as truncated, never as malformed or as
/// another value.
pub proof fn law_varint_prefix_is_truncated(value: i32, k: int)
    requires
        0 <= k < varint_bytes(value).len(),
    ensures
        parse_varint(varint_bytes(value).take(k)) == Err::<(i32, usize), ProtocolError>(
            ProtocolError::UnexpectedEof { needed: 1, available: 0 },
        ),
{
    law_varint_round_trip(value, Seq::empty());
    lemma_leb128_goes_on(value as u32 as u64);
    lemma_group_count_none(varint_bytes(value).take(k), MAX_VARINT_BYTES as nat);
}

/// Every byte but the last has its high bit set.
proof fn lemma_leb128_goes_on(v: u64)
    ensures
        forall|i: int| 0 <= i < leb128(v).len() - 1 ==> #[trigger] leb128(v)[i] >= 0x80,
    decreases v,
{
    lemma_group(v);
    if v >= 0x80 {
        let rest = leb128(v >> 7);
        lemma_leb128_goes_on(v >> 7);
        assert forall|i: int| 0 <= i < leb128(v).len() - 1 implies #[trigger] leb128(v)[i]
            >= 0x80 by {
            if i > 0 {
                assert(leb128(v)[i] == rest[i - 1]);
            }
        }
    }
}

/// What one step of the encoding relies on.
pub proof fn lemma_group(v: u64)
    by (bit_vector)
    ensures
        v & !0x7fu64 == 0 <==> v < 0x80,
        v as u32 as u64 == v ==> (v as u32 & !0x7fu32 == 0 <==> v < 0x80),
        v >= 0x80 ==> v >> 7 < v,
        v as u8 & 0x7f == (v & 0x7f) as u8,
        v as u32 as u8 & 0x7f == (v & 0x7f) as u8,
        v < 0x80 ==> (v as u8 & 0x7f) as u64 == v,
        ((v & 0x7f) as u8 | 0x80) >= 0x80,
        (((v & 0x7f) as u8 | 0x80) & 0x7f) as u64 | ((v >> 7) << 7) == v,
{
}

/// What was encoded is counted and valued as it was.
proof fn lemma_leb128_reads_back(v: u64, tail: Seq<u8>, max: nat)
    requires
        leb128(v).len() <= max,
    ensures
        group_count(leb128(v) + tail, max) == Some(leb128(v).len()),
        group_value(leb128(v)) == v,
    decreases v,
{
    lemma_group(v);
    let bytes = leb128(v);
    if v < 0x80 {
        assert(bytes.skip(1) =~= Seq::<u8>::empty());
        assert(group_value(bytes.skip(1)) == 0);
        let b = v as u8;
        let z = 0u64;
        assert((b & 0x7f) as u64 | (z << 7) == (b & 0x7f) as u64) by (bit_vector)
            requires
                z == 0,
        ;
    } else {
        assert(bytes.skip(1) =~= leb128(v >> 7));
        assert((bytes + tail).skip(1) =~= leb128(v >> 7) + tail);
        lemma_leb128_reads_back(v >> 7, tail, (max - 1) as nat);
    }
}

/// A value takes one byte for each started group of seven bits.
proof fn lemma_leb128_len(v: u64, max: nat)
    requires
        1 <= max <= 10,
        max < 10 ==> v >> ((7 * max) as u64) == 0,
    ensures
        1 <= leb128(v).len() <= max,
    decreases max,
{
    lemma_group(v);
    if v >= 0x80 {
        let s = (7 * max) as u64;
        let t = (7 * (max - 1)) as u64;
        assert(max > 1 && (max - 1 < 10 ==> (v >> 7) >> t == 0)) by {
            assert(s != 7 && (v >> 7) >> t == 0) by (bit_vector)
                requires
                    v >= 0x80,
                    s == t + 7,
                    7 <= s <= 70,
                    s < 70 ==> v >> s == 0,
            ;
        }
        lemma_leb128_len(v >> 7, (max - 1) as nat);
    }
}

/// One more group lands above those already read.
proof fn lemma_group_value_push(groups: Seq<u8>, byte: u8)
    requires
        groups.len() < MAX_VARLONG_BYTES,
    ensures
        group_value(groups.push(byte)) == group_value(groups) | (((byte & 0x7f) as u64) << ((7
            * groups.len()) as u32)),
    decreases groups.len(),
{
    let g = (byte & 0x7f) as u64;
    let rest = groups.push(byte).skip(1);
    if groups.len() == 0 {
        assert(rest =~= Seq::<u8>::empty());
        let z = group_value(rest);
        assert(g | (z << 7) == z | (g << 0)) by (bit_vector)
            requires
                z == 0,
        ;
    } else {
        let tail = groups.skip(1);
        assert(rest =~= tail.push(byte));
        lemma_group_value_push(tail, byte);
        let a = group_value(tail);
        let h = (groups[0] & 0x7f) as u64;
        let s = (7 * tail.len()) as u32;
        let t = (7 * groups.len()) as u32;
        assert(h | ((a | (g << s)) << 7) == (h | (a << 7)) | (g << t)) by (bit_vector)
            requires
                t == s + 7,
                t <= 63,
        ;
    }
}

/// The integer ends at its first byte without the high bit.
pub proof fn lemma_group_count_at(buf: Seq<u8>, i: nat, max: nat)
    requires
        i < buf.len(),
        i < max,
        buf[i as int] < 0x80,
        forall|k: int| 0 <= k < i ==> buf[k] >= 0x80,
    ensures
        group_count(buf, max) == Some((i + 1) as nat),
    decreases i,
{
    if i > 0 {
        lemma_group_count_at(buf.skip(1), (i - 1) as nat, (max - 1) as nat);
    }
}

/// There is no integer where every byte that may belong to it goes on.
pub proof fn lemma_group_count_none(buf: Seq<u8>, max: nat)
    requires
        forall|k: int| 0 <= k < buf.len() && k < max ==> buf[k] >= 0x80,
    ensures
        group_count(buf, max) is None,
    decreases max,
{
    if max > 0 && buf.len() > 0 {
        lemma_group_count_none(buf.skip(1), (max - 1) as nat);
    }
}

/// The count lies within the buffer and the limit.
pub proof fn lemma_group_count_bounds(buf: Seq<u8>, max: nat)
    ensures
        group_count(buf, max) matches Some(n) ==> 1 <= n <= max && n <= buf.len(),
    decreases max,
{
    if max > 0 && buf.len() > 0 {
        lemma_group_count_bounds(buf.skip(1), (max - 1) as nat);
    }
}

/// A value of `bits` bits takes one byte for each started group of seven.
proof fn lemma_width(v: u64, bits: u64)
    requires
        bits <= 64,
        bits < 64 ==> v >> bits == 0,
        bits > 0 ==> (v >> ((bits - 1) as u64)) & 1 != 0,
    ensures
        leb128(v).len() == (if bits == 0 { 0 } else { (bits - 1) / 7 }) + 1,
    decreases bits,
{
    lemma_group(v);
    if bits <= 7 {
        assert(v < 0x80) by (bit_vector)
            requires
                bits <= 7,
                bits < 64 ==> v >> bits == 0,
        ;
    } else {
        let c = (bits - 1) as u64;
        let w = v >> 7;
        let b = (bits - 7) as u64;
        let d = (b - 1) as u64;
        assert(v >= 0x80 && (w >> d) & 1 != 0 && w >> b == 0) by (bit_vector)
            requires
                w == v >> 7,
                c == d + 7,
                8 <= bits <= 64,
                bits == b + 7,
                bits == c + 1,
                bits < 64 ==> v >> bits == 0,
                (v >> c) & 1 != 0,
        ;
        lemma_width(w, b);
    }
}

} // verus!
