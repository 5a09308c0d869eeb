//! Fixed-width integers in network byte order: most significant byte first.

use vstd::prelude::*;

verus! {

/// The two bytes of `v`.
pub open spec fn be16(v: u16) -> Seq<u8> {
    seq![(v >> 8) as u8, v as u8]
}

/// The four bytes of `v`.
pub open spec fn be32(v: u32) -> Seq<u8> {
    seq![(v >> 24) as u8, (v >> 16) as u8, (v >> 8) as u8, v as u8]
}

/// The eight bytes of `v`.
pub open spec fn be64(v: u64) -> Seq<u8> {
    seq![
        (v >> 56) as u8,
        (v >> 48) as u8,
        (v >> 40) as u8,
        (v >> 32) as u8,
        (v >> 24) as u8,
        (v >> 16) as u8,
        (v >> 8) as u8,
        v as u8,
    ]
}

/// The sixteen bytes of `v`.
pub open spec fn be128(v: u128) -> Seq<u8> {
    be64((v >> 64) as u64) + be64(v as u64)
}

/// The number whose bytes are the first two of `b`.
pub open spec fn from_be16(b: Seq<u8>) -> u16 {
    ((b[0] as u16) << 8) | b[1] as u16
}

/// The number whose bytes are the first four of `b`.
pub open spec fn from_be32(b: Seq<u8>) -> u32 {
    ((b[0] as u32) << 24) | ((b[1] as u32) << 16) | ((b[2] as u32) << 8) | b[3] as u32
}

/// The number whose bytes are the first eight of `b`.
pub open spec fn from_be64(b: Seq<u8>) -> u64 {
    ((b[0] as u64) << 56) | ((b[1] as u64) << 48) | ((b[2] as u64) << 40) | ((b[3] as u64) << 32)
        | ((b[4] as u64) << 24) | ((b[5] as u64) << 16) | ((b[6] as u64) << 8) | b[7] as u64
}

/// The number whose bytes are the first sixteen of `b`.
pub open spec fn from_be128(b: Seq<u8>) -> u128 {
    ((from_be64(b) as u128) << 64) | from_be64(b.skip(8)) as u128
}

/// The number in the first two bytes of `b`.
#[inline]
pub fn read_be16(b: &[u8]) -> (v: u16)
    requires
        b@.len() >= 2,
    ensures
        v == from_be16(b@),
{
    ((b[0] as u16) << 8) | b[1] as u16
}

/// The number in the first four bytes of `b`.
#[inline]
pub fn read_be32(b: &[u8]) -> (v: u32)
    requires
        b@.len() >= 4,
    ensures
        v == from_be32(b@),
{
    ((b[0] as u32) << 24) | ((b[1] as u32) << 16) | ((b[2] as u32) << 8) | b[3] as u32
}

/// The number in the first eight bytes of `b`.
#[inline]
pub fn read_be64(b: &[u8]) -> (v: u64)
    requires
        b@.len() >= 8,
    ensures
        v == from_be64(b@),
{
    ((b[0] as u64) << 56) | ((b[1] as u64) << 48) | ((b[2] as u64) << 40) | ((b[3] as u64) << 32)
        | ((b[4] as u64) << 24) | ((b[5] as u64) << 16) | ((b[6] as u64) << 8) | b[7] as u64
}

/// The number in the first sixteen bytes of `b`.
#[inline]
pub fn read_be128(b: &[u8]) -> (v: u128)
    requires
        b@.len() >= 16,
    ensures
        v == from_be128(b@),
{
    let low = &b[8..b.len()];
    assert(low@ =~= b@.skip(8));
    ((read_be64(b) as u128) << 64) | read_be64(low) as u128
}

/// A copy of some bytes.
pub fn copy_bytes(bytes: &[u8]) -> (copy: Vec<u8>)
    ensures
        copy@ == bytes@,
{
    let mut copy: Vec<u8> = Vec::with_capacity(bytes.len());
    copy.extend_from_slice(bytes);
    assert(copy@ =~= bytes@);
    copy
}

/// Every number is read back from its bytes, whatever follows them.
pub proof fn law_be_round_trip(a: u16, b: u32, c: u64, d: u128, tail: Seq<u8>)
    ensures
        from_be16(be16(a) + tail) == a,
        from_be32(be32(b) + tail) == b,
        from_be64(be64(c) + tail) == c,
        from_be128(be128(d) + tail) == d,
{
    assert(((((a >> 8) as u8) as u16) << 8) | (a as u8) as u16 == a) by (bit_vector);
    assert(((((b >> 24) as u8) as u32) << 24) | ((((b >> 16) as u8) as u32) << 16) | ((((b
        >> 8) as u8) as u32) << 8) | (b as u8) as u32 == b) by (bit_vector);
    let (hi, lo) = ((d >> 64) as u64, d as u64);
    assert(((hi as u128) << 64) | lo as u128 == d) by (bit_vector)
        requires
            hi == (d >> 64) as u64,
            lo == d as u64,
    ;
    lemma_be64(c, tail);
    lemma_be64(hi, be64(lo) + tail);
    lemma_be64(lo, tail);
    assert(be128(d) + tail =~= be64(hi) + (be64(lo) + tail));
    assert((be128(d) + tail).skip(8) =~= be64(lo) + tail);
}

proof fn lemma_be64(c: u64, tail: Seq<u8>)
    ensures
        from_be64(be64(c) + tail) == c,
{
    assert(((((c >> 56) as u8) as u64) << 56) | ((((c >> 48) as u8) as u64) << 48) | ((((c
        >> 40) as u8) as u64) << 40) | ((((c >> 32) as u8) as u64) << 32) | ((((c
        >> 24) as u8) as u64)
        << 24) | ((((c >> 16) as u8) as u64) << 16) | ((((c >> 8) as u8) as u64) << 8) | (
    c as u8) as u64 == c) by (bit_vector);
}

/// A signed number survives the trip through its unsigned bit pattern.
pub proof fn lemma_signed(a: i8, b: i16, c: i32, d: i64)
    by (bit_vector)
    ensures
        (a as u8) as i8 == a,
        (b as u16) as i16 == b,
        (c as u32) as i32 == c,
        (d as u64) as i64 == d,
{
}

/// The place of an item in a list, counted from zero.
pub open spec fn counted(k: int) -> bool {
    0 <= k
}

} // verus!
