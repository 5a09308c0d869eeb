//! Zero-copy reader over a decoded packet body.
//!
//! A [`PacketReader`] borrows the frame buffer and walks it with a cursor, so
//! decoding a packet allocates only for the fields that need to own their data.
//! Every read is bounds-checked and returns an error rather than panicking: the
//! bytes come from the network.
//!
//! What a read does is stated as a function of the bytes not yet consumed: it
//! gives the result and the bytes that are left afterwards.

use vstd::prelude::*;
use vstd::utf8;

use crate::protocol::error::{ProtocolError, Result};
use crate::protocol::types::{BlockPos, ChunkPos, Float32, Float64, Uuid};
use crate::protocol::types;
use crate::protocol::varint;
use crate::protocol::wire::{read_be128, read_be16, read_be32, read_be64};
use crate::protocol::wire;
use crate::protocol::writer;

verus! {

/// The cap on strings with no explicit limit.
pub const DEFAULT_MAX_STRING_LEN: usize = 32767;

/// Upper bound applied to every length-prefixed collection that has no tighter
/// limit of its own.
pub const DEFAULT_MAX_COLLECTION_LEN: usize = 0x10_0000;

/// What a read gives: its result, and the bytes left after it.
pub type Parse<T> = (Result<T>, Seq<u8>);

/// The error of a read of `n` bytes where only `s` is left.
pub open spec fn eof(s: Seq<u8>, n: usize) -> ProtocolError {
    ProtocolError::UnexpectedEof { needed: n, available: s.len() as usize }
}

/// The first `n` bytes.
pub open spec fn parse_bytes(s: Seq<u8>, n: usize) -> Parse<Seq<u8>> {
    if s.len() < n {
        (Err(eof(s, n)), s)
    } else {
        (Ok(s.take(n as int)), s.skip(n as int))
    }
}

pub open spec fn parse_u8(s: Seq<u8>) -> Parse<u8> {
    if s.len() < 1 {
        (Err(eof(s, 1)), s)
    } else {
        (Ok(s[0]), s.skip(1))
    }
}

/// A boolean: any byte but zero is true.
pub open spec fn parse_bool(s: Seq<u8>) -> Parse<bool> {
    if s.len() < 1 {
        (Err(eof(s, 1)), s)
    } else {
        (Ok(s[0] != 0), s.skip(1))
    }
}

pub open spec fn parse_u16(s: Seq<u8>) -> Parse<u16> {
    if s.len() < 2 {
        (Err(eof(s, 2)), s)
    } else {
        (Ok(wire::from_be16(s)), s.skip(2))
    }
}

pub open spec fn parse_u32(s: Seq<u8>) -> Parse<u32> {
    if s.len() < 4 {
        (Err(eof(s, 4)), s)
    } else {
        (Ok(wire::from_be32(s)), s.skip(4))
    }
}

pub open spec fn parse_u64(s: Seq<u8>) -> Parse<u64> {
    if s.len() < 8 {
        (Err(eof(s, 8)), s)
    } else {
        (Ok(wire::from_be64(s)), s.skip(8))
    }
}

pub open spec fn parse_i8(s: Seq<u8>) -> Parse<i8> {
    match parse_u8(s) {
        (Ok(v), t) => (Ok(v as i8), t),
        (Err(e), t) => (Err(e), t),
    }
}

pub open spec fn parse_i16(s: Seq<u8>) -> Parse<i16> {
    match parse_u16(s) {
        (Ok(v), t) => (Ok(v as i16), t),
        (Err(e), t) => (Err(e), t),
    }
}

pub open spec fn parse_i32(s: Seq<u8>) -> Parse<i32> {
    match parse_u32(s) {
        (Ok(v), t) => (Ok(v as i32), t),
        (Err(e), t) => (Err(e), t),
    }
}

pub open spec fn parse_i64(s: Seq<u8>) -> Parse<i64> {
    match parse_u64(s) {
        (Ok(v), t) => (Ok(v as i64), t),
        (Err(e), t) => (Err(e), t),
    }
}

#[verifier::opaque]
pub open spec fn parse_f32(s: Seq<u8>) -> Parse<Float32> {
    match parse_u32(s) {
        (Ok(bits), t) => (Ok(Float32 { bits }), t),
        (Err(e), t) => (Err(e), t),
    }
}

#[verifier::opaque]
pub open spec fn parse_f64(s: Seq<u8>) -> Parse<Float64> {
    match parse_u64(s) {
        (Ok(bits), t) => (Ok(Float64 { bits }), t),
        (Err(e), t) => (Err(e), t),
    }
}

/// A UUID, most significant half first.
#[verifier::opaque]
pub open spec fn parse_uuid(s: Seq<u8>) -> Parse<Uuid> {
    if s.len() < 16 {
        (Err(eof(s, 16)), s)
    } else {
        (Ok(Uuid { value: wire::from_be128(s) }), s.skip(16))
    }
}

/// The VarInt at the front. Nothing is consumed where there is none.
#[verifier::opaque]
pub open spec fn take_varint(s: Seq<u8>) -> Parse<i32> {
    match varint::parse_varint(s) {
        Ok((value, used)) => (Ok(value), s.skip(used as int)),
        Err(e) => (Err(e), s),
    }
}

/// The VarLong at the front. Nothing is consumed where there is none.
#[verifier::opaque]
pub open spec fn take_varlong(s: Seq<u8>) -> Parse<i64> {
    match varint::parse_varlong(s) {
        Ok((value, used)) => (Ok(value), s.skip(used as int)),
        Err(e) => (Err(e), s),
    }
}

/// A count that is neither negative nor over `max`.
pub open spec fn parse_length(s: Seq<u8>, max: usize) -> Parse<usize> {
    match take_varint(s) {
        (Err(e), t) => (Err(e), t),
        (Ok(raw), t) => if raw < 0 {
            (Err(ProtocolError::NegativeLength(raw)), t)
        } else if raw > max {
            (Err(ProtocolError::LengthLimitExceeded { len: raw as usize, max }), t)
        } else {
            (Ok(raw as usize), t)
        },
    }
}

/// Three bytes for each permitted character.
pub open spec fn max_string_bytes(max_chars: usize) -> usize {
    if max_chars * 3 > usize::MAX {
        usize::MAX
    } else {
        (max_chars * 3) as usize
    }
}

/// The characters of `bytes`, where they are UTF-8 and at most `max_chars`.
pub open spec fn string_content(bytes: Seq<u8>, max_chars: usize) -> Result<Seq<char>> {
    if !utf8::valid_utf8(bytes) {
        Err(ProtocolError::InvalidUtf8)
    } else if utf8::decode_utf8(bytes).len() > max_chars {
        Err(
            ProtocolError::StringTooManyChars {
                len: utf8::decode_utf8(bytes).len() as usize,
                max: max_chars,
            },
        )
    } else {
        Ok(utf8::decode_utf8(bytes))
    }
}

/// A string of at most `max_chars` characters behind its length in bytes.
#[verifier::opaque]
pub open spec fn parse_string(s: Seq<u8>, max_chars: usize) -> Parse<Seq<char>> {
    match parse_byte_array(s, max_string_bytes(max_chars)) {
        (Err(e), t) => (Err(e), t),
        (Ok(bytes), t) => (string_content(bytes, max_chars), t),
    }
}

/// A namespaced identifier.
pub open spec fn parse_identifier(s: Seq<u8>) -> Parse<Seq<char>> {
    parse_string(s, DEFAULT_MAX_STRING_LEN)
}

/// A byte array of at most `max` bytes behind its length.
#[verifier::opaque]
pub open spec fn parse_byte_array(s: Seq<u8>, max: usize) -> Parse<Seq<u8>> {
    match parse_length(s, max) {
        (Err(e), t) => (Err(e), t),
        (Ok(len), t) => parse_bytes(t, len),
    }
}

pub open spec fn parse_position(s: Seq<u8>) -> Parse<BlockPos> {
    match parse_i64(s) {
        (Ok(v), t) => (Ok(types::unpacked_block_pos(v)), t),
        (Err(e), t) => (Err(e), t),
    }
}

pub open spec fn parse_chunk_pos(s: Seq<u8>) -> Parse<ChunkPos> {
    match parse_i64(s) {
        (Ok(v), t) => (Ok(types::unpacked_chunk_pos(v)), t),
        (Err(e), t) => (Err(e), t),
    }
}

/// `n` items, each read by `item`.
pub open spec fn parse_items<T>(
    s: Seq<u8>,
    n: nat,
    item: spec_fn(Seq<u8>) -> Parse<T>,
) -> Parse<Seq<T>>
    decreases n,
{
    if n == 0 {
        (Ok(Seq::empty()), s)
    } else {
        match parse_items(s, (n - 1) as nat, item) {
            (Err(e), t) => (Err(e), t),
            (Ok(items), t) => match item(t) {
                (Err(e), u) => (Err(e), u),
                (Ok(last), u) => (Ok(items.push(last)), u),
            },
        }
    }
}

/// A list of at most `max` items behind its count.
pub open spec fn parse_array<T>(
    s: Seq<u8>,
    max: usize,
    item: spec_fn(Seq<u8>) -> Parse<T>,
) -> Parse<Seq<T>> {
    match parse_length(s, max) {
        (Err(e), t) => (Err(e), t),
        (Ok(len), t) => parse_items(t, len as nat, item),
    }
}

/// A presence boolean, with the value behind it where it is set.
pub open spec fn parse_option<T>(
    s: Seq<u8>,
    value: spec_fn(Seq<u8>) -> Parse<T>,
) -> Parse<Option<T>> {
    match parse_bool(s) {
        (Err(e), t) => (Err(e), t),
        (Ok(false), t) => (Ok(None), t),
        (Ok(true), t) => match value(t) {
            (Err(e), u) => (Err(e), u),
            (Ok(v), u) => (Ok(Some(v)), u),
        },
    }
}

/// A read that took the cursor from `before` to `after` gave `parse`.
pub open spec fn reads<T>(
    before: PacketReader<'_>,
    after: PacketReader<'_>,
    read: Result<T>,
    parse: Parse<T>,
) -> bool {
    after.input() == before.input() && (read, after.rest()) == parse
}

/// A result with what it holds replaced by its view.
pub open spec fn viewed<T: View>(r: Result<T>) -> Result<T::V> {
    match r {
        Ok(v) => Ok(v@),
        Err(e) => Err(e),
    }
}

/// Calls `std::str::from_utf8`, which gives the text of bytes that are UTF-8
/// and an error for any other bytes.
#[verifier::external_body]
pub(crate) fn utf8_text(bytes: &[u8]) -> (text: Option<&str>)
    ensures
        text is Some <==> utf8::valid_utf8(bytes@),
        text matches Some(s) ==> s@ == utf8::decode_utf8(bytes@),
{
    std::str::from_utf8(bytes).ok()
}

/// A cursor over the bytes of one packet.
#[derive(Debug)]
pub struct PacketReader<'a> {
    buf: &'a [u8],
    pos: usize,
}

impl<'a> PacketReader<'a> {
    /// Every byte of the packet, consumed or not.
    pub closed spec fn input(&self) -> Seq<u8> {
        self.buf@
    }

    /// The bytes not yet consumed.
    pub closed spec fn rest(&self) -> Seq<u8> {
        self.buf@.skip(self.pos as int)
    }

    #[verifier::type_invariant]
    spec fn in_bounds(self) -> bool {
        self.pos <= self.buf@.len()
    }

    #[inline]
    #[must_use]
    pub fn new(buf: &'a [u8]) -> (reader: Self)
        ensures
            reader.input() == buf@,
            reader.rest() == buf@,
    {
        let reader = Self { buf, pos: 0 };
        assert(reader.rest() =~= buf@);
        reader
    }

    /// Bytes not yet consumed.
    #[inline]
    #[must_use]
    pub fn remaining(&self) -> (n: usize)
        ensures
            n == self.rest().len(),
    {
        proof {
            use_type_invariant(self);
        }
        self.buf.len() - self.pos
    }

    #[inline]
    #[must_use]
    pub fn is_empty(&self) -> (empty: bool)
        ensures
            empty == (self.rest().len() == 0),
    {
        self.remaining() == 0
    }

    /// The not-yet-consumed tail, without advancing.
    #[inline]
    #[must_use]
    pub fn peek_rest(&self) -> (tail: &'a [u8])
        ensures
            tail@ == self.rest(),
    {
        proof {
            use_type_invariant(self);
        }
        let tail = &self.buf[self.pos..self.buf.len()];
        assert(tail@ =~= self.rest());
        tail
    }

    #[inline]
    fn take(&mut self, n: usize) -> (bytes: Result<&'a [u8]>)
        ensures
            final(self).input() == old(self).input(),
            (viewed(bytes), final(self).rest()) == parse_bytes(old(self).rest(), n),
    {
        proof {
            use_type_invariant(&*self);
        }
        let available: usize = self.remaining();
        if n > available {
            return Err(ProtocolError::UnexpectedEof { needed: n, available });
        }
        let end: usize = self.buf.len() - (available - n);
        let slice = &self.buf[self.pos..end];
        self.pos = end;
        assert(slice@ =~= old(self).rest().take(n as int));
        assert(self.rest() =~= old(self).rest().skip(n as int));
        Ok(slice)
    }

    #[inline]
    pub fn read_u8(&mut self) -> (value: Result<u8>)
        ensures
            final(self).input() == old(self).input(),
            (value, final(self).rest()) == parse_u8(old(self).rest()),
    {
        let bytes = self.take(1)?;
        Ok(bytes[0])
    }

    #[inline]
    pub fn read_i8(&mut self) -> (value: Result<i8>)
        ensures
            final(self).input() == old(self).input(),
            (value, final(self).rest()) == parse_i8(old(self).rest()),
    {
        let byte: u8 = self.read_u8()?;
        Ok(byte as i8)
    }

    /// Reads a boolean. Any non-zero byte is `true`.
    #[inline]
    pub fn read_bool(&mut self) -> (value: Result<bool>)
        ensures
            final(self).input() == old(self).input(),
            (value, final(self).rest()) == parse_bool(old(self).rest()),
    {
        let byte: u8 = self.read_u8()?;
        Ok(byte != 0)
    }

    #[inline]
    pub fn read_u16(&mut self) -> (value: Result<u16>)
        ensures
            final(self).input() == old(self).input(),
            (value, final(self).rest()) == parse_u16(old(self).rest()),
    {
        let bytes = self.take(2)?;
        Ok(read_be16(bytes))
    }

    #[inline]
    pub fn read_i16(&mut self) -> (value: Result<i16>)
        ensures
            final(self).input() == old(self).input(),
            (value, final(self).rest()) == parse_i16(old(self).rest()),
    {
        let value: u16 = self.read_u16()?;
        Ok(value as i16)
    }

    #[inline]
    pub fn read_u32(&mut self) -> (value: Result<u32>)
        ensures
            final(self).input() == old(self).input(),
            (value, final(self).rest()) == parse_u32(old(self).rest()),
    {
        let bytes = self.take(4)?;
        Ok(read_be32(bytes))
    }

    #[inline]
    pub fn read_i32(&mut self) -> (value: Result<i32>)
        ensures
            final(self).input() == old(self).input(),
            (value, final(self).rest()) == parse_i32(old(self).rest()),
    {
        let value: u32 = self.read_u32()?;
        Ok(value as i32)
    }

    #[inline]
    pub fn read_i64(&mut self) -> (value: Result<i64>)
        ensures
            final(self).input() == old(self).input(),
            (value, final(self).rest()) == parse_i64(old(self).rest()),
    {
        let value: u64 = self.read_u64()?;
        Ok(value as i64)
    }

    #[inline]
    pub fn read_u64(&mut self) -> (value: Result<u64>)
        ensures
            final(self).input() == old(self).input(),
            (value, final(self).rest()) == parse_u64(old(self).rest()),
    {
        let bytes = self.take(8)?;
        Ok(read_be64(bytes))
    }

    #[inline]
    pub fn read_f32(&mut self) -> (value: Result<Float32>)
        ensures
            final(self).input() == old(self).input(),
            (value, final(self).rest()) == parse_f32(old(self).rest()),
    {
        proof {
            reveal(parse_f32);
        }
        let bits: u32 = self.read_u32()?;
        Ok(Float32 { bits })
    }

    #[inline]
    pub fn read_f64(&mut self) -> (value: Result<Float64>)
        ensures
            final(self).input() == old(self).input(),
            (value, final(self).rest()) == parse_f64(old(self).rest()),
    {
        proof {
            reveal(parse_f64);
        }
        let bits: u64 = self.read_u64()?;
        Ok(Float64 { bits })
    }

    #[inline]
    pub fn read_varint(&mut self) -> (value: Result<i32>)
        ensures
            final(self).input() == old(self).input(),
            (value, final(self).rest()) == take_varint(old(self).rest()),
    {
        proof {
            reveal(take_varint);
            use_type_invariant(&*self);
            varint::lemma_group_count_bounds(self.rest(), varint::MAX_VARINT_BYTES as nat);
        }
        let left: usize = self.remaining();
        let (value, used) = varint::read_varint(self.peek_rest())?;
        self.pos = self.buf.len() - (left - used);
        assert(self.rest() =~= old(self).rest().skip(used as int));
        Ok(value)
    }

    #[inline]
    pub fn read_varlong(&mut self) -> (value: Result<i64>)
        ensures
            final(self).input() == old(self).input(),
            (value, final(self).rest()) == take_varlong(old(self).rest()),
    {
        proof {
            reveal(take_varlong);
            use_type_invariant(&*self);
            varint::lemma_group_count_bounds(self.rest(), varint::MAX_VARLONG_BYTES as nat);
        }
        let left: usize = self.remaining();
        let (value, used) = varint::read_varlong(self.peek_rest())?;
        self.pos = self.buf.len() - (left - used);
        assert(self.rest() =~= old(self).rest().skip(used as int));
        Ok(value)
    }

    /// Reads a length prefix that must be a non-negative count no larger than
    /// `max`.
    #[inline]
    pub fn read_length(&mut self, max: usize) -> (len: Result<usize>)
        ensures
            final(self).input() == old(self).input(),
            (len, final(self).rest()) == parse_length(old(self).rest(), max),
    {
        let raw: i32 = self.read_varint()?;
        if raw < 0 {
            return Err(ProtocolError::NegativeLength(raw));
        }
        let len: usize = raw as usize;
        if len > max {
            return Err(ProtocolError::LengthLimitExceeded { len, max });
        }
        Ok(len)
    }

    /// Reads a UTF-8 string with a maximum length in characters.
    ///
    /// Two checks: the byte prefix may not exceed three bytes per permitted
    /// character, and the decoded string may not exceed `max_chars` characters.
    pub fn read_string(&mut self, max_chars: usize) -> (text: Result<String>)
        ensures
            final(self).input() == old(self).input(),
            (viewed(text), final(self).rest()) == parse_string(old(self).rest(), max_chars),
    {
        proof {
            reveal(parse_string);
            reveal(parse_byte_array);
        }
        let max_bytes: usize = if max_chars > usize::MAX / 3 { usize::MAX } else { max_chars * 3 };
        let len: usize = self.read_length(max_bytes)?;
        let bytes = self.take(len)?;
        match utf8_text(bytes) {
            None => Err(ProtocolError::InvalidUtf8),
            Some(s) => {
                let chars: usize = s.unicode_len();
                if chars > max_chars {
                    return Err(ProtocolError::StringTooManyChars { len: chars, max: max_chars });
                }
                Ok(s.to_owned())
            },
        }
    }

    /// Reads a namespaced identifier such as `minecraft:stone`.
    #[inline]
    pub fn read_identifier(&mut self) -> (text: Result<String>)
        ensures
            final(self).input() == old(self).input(),
            (viewed(text), final(self).rest()) == parse_identifier(old(self).rest()),
    {
        self.read_string(DEFAULT_MAX_STRING_LEN)
    }

    /// Reads a 128-bit UUID, most significant half first.
    #[inline]
    pub fn read_uuid(&mut self) -> (uuid: Result<Uuid>)
        ensures
            final(self).input() == old(self).input(),
            (uuid, final(self).rest()) == parse_uuid(old(self).rest()),
    {
        proof {
            reveal(parse_uuid);
        }
        let bytes = self.take(16)?;
        assert(bytes@.skip(8) =~= old(self).rest().skip(8).take(8));
        Ok(Uuid { value: read_be128(bytes) })
    }

    /// Borrows exactly `n` bytes.
    #[inline]
    pub fn read_bytes(&mut self, n: usize) -> (bytes: Result<&'a [u8]>)
        ensures
            final(self).input() == old(self).input(),
            (viewed(bytes), final(self).rest()) == parse_bytes(old(self).rest(), n),
    {
        self.take(n)
    }

    /// Reads a VarInt-prefixed byte array.
    #[inline]
    pub fn read_byte_array(&mut self, max: usize) -> (bytes: Result<&'a [u8]>)
        ensures
            final(self).input() == old(self).input(),
            (viewed(bytes), final(self).rest()) == parse_byte_array(old(self).rest(), max),
    {
        proof {
            reveal(parse_byte_array);
        }
        let len: usize = self.read_length(max)?;
        self.take(len)
    }

    /// Consumes and returns everything left in the packet.
    #[inline]
    pub fn read_remaining(&mut self) -> (bytes: &'a [u8])
        ensures
            final(self).input() == old(self).input(),
            bytes@ == old(self).rest(),
            final(self).rest() == Seq::<u8>::empty(),
    {
        let rest = self.peek_rest();
        self.pos = self.buf.len();
        assert(self.rest() =~= Seq::<u8>::empty());
        rest
    }

    #[inline]
    pub fn read_position(&mut self) -> (pos: Result<BlockPos>)
        ensures
            final(self).input() == old(self).input(),
            (pos, final(self).rest()) == parse_position(old(self).rest()),
    {
        let packed: i64 = self.read_i64()?;
        Ok(BlockPos::decode(packed))
    }

    #[inline]
    pub fn read_chunk_pos(&mut self) -> (pos: Result<ChunkPos>)
        ensures
            final(self).input() == old(self).input(),
            (pos, final(self).rest()) == parse_chunk_pos(old(self).rest()),
    {
        let packed: i64 = self.read_i64()?;
        Ok(ChunkPos::from_long(packed))
    }

    /// Reads an `Option<T>`, encoded as a presence boolean followed by the
    /// value when present, which `f` reads. Where `f` reads what `value`
    /// describes, the whole is what [`parse_option`] makes of it.
    #[inline]
    pub fn read_option<T, F: FnOnce(&mut Self) -> Result<T>>(&mut self, f: F) -> (read: Result<
        Option<T>,
    >)
        requires
            forall|s: &mut Self| call_requires(f, (s,)),
        ensures
            match parse_bool(old(self).rest()) {
                (Err(e), t) => {
                    &&& read == Err::<Option<T>, ProtocolError>(e)
                    &&& final(self).input() == old(self).input()
                    &&& final(self).rest() == t
                },
                (Ok(false), t) => {
                    &&& read == Ok::<Option<T>, ProtocolError>(None)
                    &&& final(self).input() == old(self).input()
                    &&& final(self).rest() == t
                },
                (Ok(true), t) => exists|s: &mut Self, value: Result<T>|
                    {
                        &&& #[trigger] call_ensures(f, (s,), value)
                        &&& s.input() == old(self).input()
                        &&& s.rest() == t
                        &&& *final(s) == *final(self)
                        &&& read == match value {
                            Ok(v) => Ok::<Option<T>, ProtocolError>(Some(v)),
                            Err(e) => Err(e),
                        }
                    },
            },
            forall|value: spec_fn(Seq<u8>) -> Parse<T>|
                #![trigger parse_option(old(self).rest(), value)]
                (forall|s: &mut Self, r: Result<T>| #[trigger]
                    call_ensures(f, (s,), r) ==> reads(*s, *final(s), r, value(s.rest())))
                    ==> reads(
                    *old(self),
                    *final(self),
                    read,
                    parse_option(old(self).rest(), value),
                ),
    {
        let present: bool = self.read_bool()?;
        if present {
            let value = f(self)?;
            Ok(Some(value))
        } else {
            Ok(None)
        }
    }

    /// Reads a VarInt-prefixed list, each item of it by a call of `f`. A count
    /// that is negative or over `max` is refused before any call. The calls
    /// follow one another on this reader, and the first error ends them.
    ///
    /// Where `f` reads what `item` describes, the whole is what [`parse_array`]
    /// makes of it.
    ///
    /// Memory is reserved only after the length has been checked against `max`,
    /// and never for more items than there are bytes left.
    pub fn read_array<T, F: FnMut(&mut Self) -> Result<T>>(
        &mut self,
        max: usize,
        f: F,
    ) -> (read: Result<Vec<T>>)
        requires
            forall|s: &mut Self| call_requires(f, (s,)),
        ensures
            match parse_length(old(self).rest(), max) {
                (Err(e), t) => {
                    &&& read == Err::<Vec<T>, ProtocolError>(e)
                    &&& final(self).input() == old(self).input()
                    &&& final(self).rest() == t
                },
                (Ok(n), t) => exists|stops: Seq<Self>, given: Seq<T>|
                    #![trigger stops.len(), given.len()]
                    {
                        &&& stops.len() == given.len() + 1
                        &&& stops[0].input() == old(self).input()
                        &&& stops[0].rest() == t
                        &&& forall|k: int|
                            #[trigger] wire::counted(k) && k < given.len() ==> exists|s: &mut Self|
                                {
                                    &&& #[trigger] call_ensures(
                                        f,
                                        (s,),
                                        Ok::<T, ProtocolError>(given[k]),
                                    )
                                    &&& *s == stops[k]
                                    &&& *final(s) == stops[k + 1]
                                }
                        &&& match read {
                            Ok(v) => given == v@ && given.len() == n && stops[n as int]
                                == *final(self),
                            Err(e) => given.len() < n && exists|s: &mut Self|
                                {
                                    &&& #[trigger] call_ensures(
                                        f,
                                        (s,),
                                        Err::<T, ProtocolError>(e),
                                    )
                                    &&& *s == stops[given.len() as int]
                                    &&& *final(s) == *final(self)
                                },
                        }
                    },
            },
            forall|item: spec_fn(Seq<u8>) -> Parse<T>|
                #![trigger parse_array(old(self).rest(), max, item)]
                (forall|s: &mut Self, r: Result<T>| #[trigger]
                    call_ensures(f, (s,), r) ==> reads(*s, *final(s), r, item(s.rest())))
                    ==> reads(
                    *old(self),
                    *final(self),
                    viewed(read),
                    parse_array(old(self).rest(), max, item),
                ),
    {
        let mut read_item = f;
        let len: usize = self.read_length(max)?;
        let left: usize = self.remaining();
        let ghost start = self.rest();
        let mut out: Vec<T> = Vec::with_capacity(if len < left { len } else { left });
        let ghost mut stops: Seq<Self> = seq![*self];
        let mut i: usize = 0;
        while i < len
            invariant
                i <= len,
                read_item == f,
                out@.len() == i,
                stops.len() == i + 1,
                stops[0].input() == old(self).input(),
                stops[0].rest() == start,
                stops[i as int] == *self,
                forall|k: int|
                    #[trigger] wire::counted(k) && k < i ==> exists|s: &mut Self|
                        {
                            &&& #[trigger] call_ensures(f, (s,), Ok::<T, ProtocolError>(out@[k]))
                            &&& *s == stops[k]
                            &&& *final(s) == stops[k + 1]
                        },
                parse_length(old(self).rest(), max) == (Ok::<usize, ProtocolError>(len), start),
                forall|s: &mut Self| call_requires(f, (s,)),
                forall|item: spec_fn(Seq<u8>) -> Parse<T>|
                    #![trigger parse_items(start, i as nat, item)]
                    (forall|s: &mut Self, r: Result<T>| #[trigger]
                        call_ensures(f, (s,), r) ==> reads(*s, *final(s), r, item(s.rest())))
                        ==> reads(
                        *old(self),
                        *self,
                        Ok::<Seq<T>, ProtocolError>(out@),
                        parse_items(start, i as nat, item),
                    ),
            decreases len - i,
        {
            let ghost before = *self;
            let ghost items = out@;
            let ghost passed = stops;
            let read = read_item(self);
            assert(exists|s: &mut Self|
                {
                    &&& #[trigger] call_ensures(f, (s,), read)
                    &&& *s == before
                    &&& *final(s) == *self
                });
            proof {
                assert forall|item: spec_fn(Seq<u8>) -> Parse<T>|
                    #![trigger parse_items(start, (i + 1) as nat, item)]
                    #![trigger parse_items(start, len as nat, item)]
                    (forall|s: &mut Self, r: Result<T>| #[trigger]
                        call_ensures(f, (s,), r) ==> reads(
                            *s,
                            *final(s),
                            r,
                            item(s.rest()),
                        )) implies match read {
                    Ok(value) => reads(
                        *old(self),
                        *self,
                        Ok::<Seq<T>, ProtocolError>(items.push(value)),
                        parse_items(start, (i + 1) as nat, item),
                    ),
                    Err(e) => reads(
                        *old(self),
                        *self,
                        Err::<Seq<T>, ProtocolError>(e),
                        parse_items(start, len as nat, item),
                    ),
                } by {
                    assert(parse_items(start, i as nat, item).1 == before.rest());
                    if read is Err {
                        lemma_parse_items_stops(start, (i + 1) as nat, len as nat, item);
                    }
                }
            }
            match read {
                Ok(value) => {
                    out.push(value);
                    proof {
                        stops = passed.push(*self);
                        assert forall|k: int|
                            #[trigger] wire::counted(k) && k < i + 1 implies exists|s: &mut Self|
                            {
                                &&& #[trigger] call_ensures(
                                    f,
                                    (s,),
                                    Ok::<T, ProtocolError>(out@[k]),
                                )
                                &&& *s == stops[k]
                                &&& *final(s) == stops[k + 1]
                            } by {
                            if k < i {
                                assert(out@[k] == items[k]);
                                assert(stops[k] == passed[k]);
                                assert(stops[k + 1] == passed[k + 1]);
                            } else {
                                assert(out@[k] == value);
                            }
                        }
                    }
                    i += 1;
                },
                Err(e) => {
                    assert(stops.len() == out@.len() + 1);
                    return Err(e);
                },
            }
        }
        assert(stops.len() == out@.len() + 1);
        Ok(out)
    }

    /// Errors unless the packet has been fully consumed.
    ///
    /// Leftover bytes are a decoding fault: they almost always mean that the
    /// packet layout drifted from the client's.
    #[inline]
    pub fn expect_finished(&self, state: &'static str, id: i32) -> (finished: Result<()>)
        ensures
            finished == finished_or(self.rest(), state, id),
    {
        let trailing: usize = self.remaining();
        if trailing != 0 {
            return Err(ProtocolError::TrailingBytes { state, id, trailing });
        }
        Ok(())
    }
}

/// What each of some values stands for.
pub open spec fn views<T: View>(values: Seq<T>) -> Seq<T::V> {
    Seq::new(values.len(), |i: int| values[i]@)
}

/// Reads a VarInt-prefixed list, each item of it by a call of `f`. Where `f`
/// reads what `item` describes, up to what the values stand for, the whole is
/// what [`parse_array`] makes of it.
pub fn read_list<'a, T: View, F: FnMut(&mut PacketReader<'a>) -> Result<T>>(
    r: &mut PacketReader<'a>,
    max: usize,
    f: F,
) -> (read: Result<Vec<T>>)
    requires
        forall|s: &mut PacketReader<'a>| call_requires(f, (s,)),
    ensures
        forall|item: spec_fn(Seq<u8>) -> Parse<T::V>|
            #![trigger parse_array(old(r).rest(), max, item)]
            (forall|s: &mut PacketReader<'a>, one: Result<T>| #[trigger]
                call_ensures(f, (s,), one) ==> reads(*s, *final(s), viewed(one), item(s.rest())))
                ==> reads(
                *old(r),
                *final(r),
                match read {
                    Ok(v) => Ok::<Seq<T::V>, ProtocolError>(views(v@)),
                    Err(e) => Err(e),
                },
                parse_array(old(r).rest(), max, item),
            ),
{
    let read = r.read_array(max, f);
    proof {
        assert forall|item: spec_fn(Seq<u8>) -> Parse<T::V>|
            #![trigger parse_array(old(r).rest(), max, item)]
            (forall|s: &mut PacketReader<'a>, one: Result<T>| #[trigger]
                call_ensures(f, (s,), one) ==> reads(
                    *s,
                    *final(s),
                    viewed(one),
                    item(s.rest()),
                )) implies reads(
            *old(r),
            *r,
            match read {
                Ok(v) => Ok::<Seq<T::V>, ProtocolError>(views(v@)),
                Err(e) => Err(e),
            },
            parse_array(old(r).rest(), max, item),
        ) by {
            if let (Ok(n), t) = parse_length(old(r).rest(), max) {
                let (stops, given) = choose|stops: Seq<PacketReader<'a>>, given: Seq<T>|
                    #![trigger stops.len(), given.len()]
                    {
                        &&& stops.len() == given.len() + 1
                        &&& stops[0].input() == old(r).input()
                        &&& stops[0].rest() == t
                        &&& forall|k: int|
                            #[trigger] wire::counted(k) && k < given.len() ==> exists|
                                s: &mut PacketReader<'a>,
                            |
                                {
                                    &&& #[trigger] call_ensures(
                                        f,
                                        (s,),
                                        Ok::<T, ProtocolError>(given[k]),
                                    )
                                    &&& *s == stops[k]
                                    &&& *final(s) == stops[k + 1]
                                }
                        &&& match read {
                            Ok(v) => given == v@ && given.len() == n && stops[n as int] == *r,
                            Err(e) => given.len() < n && exists|s: &mut PacketReader<'a>|
                                {
                                    &&& #[trigger] call_ensures(
                                        f,
                                        (s,),
                                        Err::<T, ProtocolError>(e),
                                    )
                                    &&& *s == stops[given.len() as int]
                                    &&& *final(s) == *r
                                },
                        }
                    };
                let rests = Seq::new(stops.len(), |i: int| stops[i].rest());
                let values = views(given);
                assert forall|k: int| 0 <= k < values.len() implies item(#[trigger] rests[k]) == (
                    Ok::<T::V, ProtocolError>(values[k]),
                    rests[k + 1],
                ) by {
                    assert(wire::counted(k));
                }
                assert forall|k: int| 0 <= k < stops.len() - 1 implies stops[k + 1].input() == (
                #[trigger] stops[k]).input() by {
                    assert(wire::counted(k));
                }
                lemma_run_of_items(rests, values, item);
                lemma_same_input(stops);
                if read is Err {
                    lemma_parse_items_stops(t, given.len() + 1, n as nat, item);
                }
            }
        }
    }
    read
}

/// Readers that follow one another over one packet are all over that packet.
proof fn lemma_same_input<'a>(stops: Seq<PacketReader<'a>>)
    requires
        stops.len() > 0,
        forall|k: int|
            0 <= k < stops.len() - 1 ==> stops[k + 1].input() == (#[trigger] stops[k]).input(),
    ensures
        stops[stops.len() - 1].input() == stops[0].input(),
    decreases stops.len(),
{
    if stops.len() > 1 {
        lemma_same_input(stops.drop_last());
        let k = stops.len() - 2;
        assert(stops[k + 1].input() == stops[k].input());
    }
}

/// Success where no byte is left.
pub open spec fn finished_or(rest: Seq<u8>, state: &'static str, id: i32) -> Result<()> {
    if rest.len() == 0 {
        Ok(())
    } else {
        Err(ProtocolError::TrailingBytes { state, id, trailing: rest.len() as usize })
    }
}

impl<'a> Clone for PacketReader<'a> {
    fn clone(&self) -> (reader: Self)
        ensures
            reader == *self,
    {
        proof {
            use_type_invariant(self);
        }
        PacketReader { buf: self.buf, pos: self.pos }
    }
}

/// Every fixed-width value is read back as it was written, and exactly its
/// bytes are consumed.
pub proof fn law_fixed_width_round_trip(
    flag: bool,
    small: i8,
    short: u16,
    signed_short: i16,
    word: i32,
    long: i64,
    raw: u64,
    single: Float32,
    double: Float64,
    uuid: Uuid,
    tail: Seq<u8>,
)
    ensures
        parse_bool(seq![writer::bool_byte(flag)] + tail) == (Ok::<bool, ProtocolError>(flag), tail),
        parse_i8(seq![small as u8] + tail) == (Ok::<i8, ProtocolError>(small), tail),
        parse_u16(wire::be16(short) + tail) == (Ok::<u16, ProtocolError>(short), tail),
        parse_i16(wire::be16(signed_short as u16) + tail) == (
            Ok::<i16, ProtocolError>(signed_short),
            tail,
        ),
        parse_i32(wire::be32(word as u32) + tail) == (Ok::<i32, ProtocolError>(word), tail),
        parse_i64(wire::be64(long as u64) + tail) == (Ok::<i64, ProtocolError>(long), tail),
        parse_u64(wire::be64(raw) + tail) == (Ok::<u64, ProtocolError>(raw), tail),
        parse_f32(wire::be32(single.bits) + tail) == (Ok::<Float32, ProtocolError>(single), tail),
        parse_f64(wire::be64(double.bits) + tail) == (Ok::<Float64, ProtocolError>(double), tail),
        parse_uuid(wire::be128(uuid.value) + tail) == (Ok::<Uuid, ProtocolError>(uuid), tail),
{
    reveal(parse_f32);
    reveal(parse_f64);
    reveal(parse_uuid);
    wire::lemma_signed(small, signed_short, word, long);
    wire::law_be_round_trip(short, word as u32, long as u64, uuid.value, tail);
    wire::law_be_round_trip(signed_short as u16, single.bits, raw, uuid.value, tail);
    wire::law_be_round_trip(short, single.bits, double.bits, uuid.value, tail);
    assert((seq![writer::bool_byte(flag)] + tail).skip(1) =~= tail);
    assert((seq![small as u8] + tail).skip(1) =~= tail);
    assert((wire::be16(short) + tail).skip(2) =~= tail);
    assert((wire::be16(signed_short as u16) + tail).skip(2) =~= tail);
    assert((wire::be32(word as u32) + tail).skip(4) =~= tail);
    assert((wire::be32(single.bits) + tail).skip(4) =~= tail);
    assert((wire::be64(long as u64) + tail).skip(8) =~= tail);
    assert((wire::be64(raw) + tail).skip(8) =~= tail);
    assert((wire::be64(double.bits) + tail).skip(8) =~= tail);
    assert((wire::be128(uuid.value) + tail).skip(16) =~= tail);
}

/// Every VarInt and VarLong is read back as it was written, and exactly its
/// bytes are consumed.
pub proof fn law_variable_width_round_trip(value: i32, long: i64, tail: Seq<u8>)
    ensures
        take_varint(varint::varint_bytes(value) + tail) == (Ok::<i32, ProtocolError>(value), tail),
        take_varlong(varint::varlong_bytes(long) + tail) == (Ok::<i64, ProtocolError>(long), tail),
{
    reveal(take_varint);
    reveal(take_varlong);
    varint::law_varint_round_trip(value, tail);
    varint::law_varlong_round_trip(long, tail);
    assert((varint::varint_bytes(value) + tail).skip(varint::varint_bytes(value).len() as int)
        =~= tail);
    assert((varint::varlong_bytes(long) + tail).skip(varint::varlong_bytes(long).len() as int)
        =~= tail);
}

/// A byte array within the limit is read back as it was written.
pub proof fn law_byte_array_round_trip(value: Seq<u8>, max: usize, tail: Seq<u8>)
    requires
        value.len() <= i32::MAX,
        value.len() <= max,
    ensures
        parse_byte_array(writer::byte_array_bytes(value) + tail, max) == (
            Ok::<Seq<u8>, ProtocolError>(value),
            tail,
        ),
{
    reveal(parse_byte_array);
    law_variable_width_round_trip(value.len() as i32, 0, value + tail);
    assert(writer::byte_array_bytes(value) + tail =~= varint::varint_bytes(value.len() as i32)
        + (value + tail));
    assert((value + tail).take(value.len() as int) =~= value);
    assert((value + tail).skip(value.len() as int) =~= tail);
}

/// A string within both limits, of characters and of bytes, is read back as it
/// was written.
pub proof fn law_string_round_trip(text: Seq<char>, max_chars: usize, tail: Seq<u8>)
    requires
        utf8::encode_utf8(text).len() <= i32::MAX,
        utf8::encode_utf8(text).len() <= max_string_bytes(max_chars),
        text.len() <= max_chars,
    ensures
        parse_string(writer::string_bytes(text) + tail, max_chars) == (
            Ok::<Seq<char>, ProtocolError>(text),
            tail,
        ),
{
    reveal(parse_string);
    law_byte_array_round_trip(utf8::encode_utf8(text), max_string_bytes(max_chars), tail);
    vstd::utf8::encode_utf8_valid_utf8(text);
    vstd::utf8::encode_utf8_decode_utf8(text);
}

pub proof fn lemma_reads_bool(v: bool, tail: Seq<u8>)
    ensures
        parse_bool(seq![writer::bool_byte(v)] + tail) == (Ok::<bool, ProtocolError>(v), tail),
{
    law_fixed_width_round_trip(
        v,
        0,
        0,
        0,
        0,
        0,
        0,
        Float32 { bits: 0 },
        Float64 { bits: 0 },
        Uuid { value: 0 },
        tail,
    );
}

pub proof fn lemma_reads_i8(v: i8, tail: Seq<u8>)
    ensures
        parse_i8(seq![v as u8] + tail) == (Ok::<i8, ProtocolError>(v), tail),
{
    law_fixed_width_round_trip(
        false,
        v,
        0,
        0,
        0,
        0,
        0,
        Float32 { bits: 0 },
        Float64 { bits: 0 },
        Uuid { value: 0 },
        tail,
    );
}

pub proof fn lemma_reads_i32(v: i32, tail: Seq<u8>)
    ensures
        parse_i32(wire::be32(v as u32) + tail) == (Ok::<i32, ProtocolError>(v), tail),
{
    law_fixed_width_round_trip(
        false,
        0,
        0,
        0,
        v,
        0,
        0,
        Float32 { bits: 0 },
        Float64 { bits: 0 },
        Uuid { value: 0 },
        tail,
    );
}

pub proof fn lemma_reads_i64(v: i64, tail: Seq<u8>)
    ensures
        parse_i64(wire::be64(v as u64) + tail) == (Ok::<i64, ProtocolError>(v), tail),
{
    law_fixed_width_round_trip(
        false,
        0,
        0,
        0,
        0,
        v,
        0,
        Float32 { bits: 0 },
        Float64 { bits: 0 },
        Uuid { value: 0 },
        tail,
    );
}

pub proof fn lemma_reads_single(v: Float32, tail: Seq<u8>)
    ensures
        parse_f32(wire::be32(v.bits) + tail) == (Ok::<Float32, ProtocolError>(v), tail),
{
    law_fixed_width_round_trip(
        false,
        0,
        0,
        0,
        0,
        0,
        0,
        v,
        Float64 { bits: 0 },
        Uuid { value: 0 },
        tail,
    );
}

pub proof fn lemma_reads_double(v: Float64, tail: Seq<u8>)
    ensures
        parse_f64(wire::be64(v.bits) + tail) == (Ok::<Float64, ProtocolError>(v), tail),
{
    law_fixed_width_round_trip(
        false,
        0,
        0,
        0,
        0,
        0,
        0,
        Float32 { bits: 0 },
        v,
        Uuid { value: 0 },
        tail,
    );
}

pub proof fn lemma_reads_uuid(v: Uuid, tail: Seq<u8>)
    ensures
        parse_uuid(wire::be128(v.value) + tail) == (Ok::<Uuid, ProtocolError>(v), tail),
{
    law_fixed_width_round_trip(
        false,
        0,
        0,
        0,
        0,
        0,
        0,
        Float32 { bits: 0 },
        Float64 { bits: 0 },
        v,
        tail,
    );
}

pub proof fn lemma_reads_u8(v: u8, tail: Seq<u8>)
    ensures
        parse_u8(seq![v] + tail) == (Ok::<u8, ProtocolError>(v), tail),
{
    assert((seq![v] + tail).skip(1) =~= tail);
}

pub proof fn lemma_reads_varint(v: i32, tail: Seq<u8>)
    ensures
        take_varint(varint::varint_bytes(v) + tail) == (Ok::<i32, ProtocolError>(v), tail),
{
    law_variable_width_round_trip(v, 0, tail);
}

/// A block position whose fields fit their widths, and every chunk position, is
/// read back as it was written.
pub proof fn law_position_round_trip(pos: BlockPos, chunk: ChunkPos, tail: Seq<u8>)
    requires
        -0x200_0000 <= pos.x < 0x200_0000,
        -0x800 <= pos.y < 0x800,
        -0x200_0000 <= pos.z < 0x200_0000,
    ensures
        parse_position(wire::be64(types::packed_block_pos(pos) as u64) + tail) == (
            Ok::<BlockPos, ProtocolError>(pos),
            tail,
        ),
        parse_chunk_pos(wire::be64(types::packed_chunk_pos(chunk) as u64) + tail) == (
            Ok::<ChunkPos, ProtocolError>(chunk),
            tail,
        ),
{
    let (single, double) = (Float32 { bits: 0 }, Float64 { bits: 0 });
    let uuid = Uuid { value: 0 };
    types::law_block_pos_round_trip(pos);
    types::law_chunk_pos_round_trip(chunk, 0);
    law_fixed_width_round_trip(
        false,
        0,
        0,
        0,
        0,
        types::packed_block_pos(pos),
        0,
        single,
        double,
        uuid,
        tail,
    );
    law_fixed_width_round_trip(
        false,
        0,
        0,
        0,
        0,
        types::packed_chunk_pos(chunk),
        0,
        single,
        double,
        uuid,
        tail,
    );
}

/// Where every item is read back from its encoding, so is a list of them.
pub proof fn law_array_round_trip<T>(
    items: Seq<T>,
    max: usize,
    encoding: spec_fn(T) -> Seq<u8>,
    item: spec_fn(Seq<u8>) -> Parse<T>,
    tail: Seq<u8>,
)
    requires
        items.len() <= i32::MAX,
        items.len() <= max,
        forall|i: int, rest: Seq<u8>|
            0 <= i < items.len() ==> #[trigger] item(encoding(items[i]) + rest) == (
                Ok::<T, ProtocolError>(items[i]),
                rest,
            ),
    ensures
        parse_array(
            varint::varint_bytes(items.len() as i32) + writer::concat_bytes(items, encoding) + tail,
            max,
            item,
        ) == (Ok::<Seq<T>, ProtocolError>(items), tail),
{
    let body = writer::concat_bytes(items, encoding) + tail;
    law_variable_width_round_trip(items.len() as i32, 0, body);
    assert(varint::varint_bytes(items.len() as i32) + writer::concat_bytes(items, encoding)
        + tail =~= varint::varint_bytes(
        items.len() as i32,
    ) + body);
    lemma_items_round_trip(items, encoding, item, tail);
}

proof fn lemma_items_round_trip<T>(
    items: Seq<T>,
    encoding: spec_fn(T) -> Seq<u8>,
    item: spec_fn(Seq<u8>) -> Parse<T>,
    tail: Seq<u8>,
)
    requires
        forall|i: int, rest: Seq<u8>|
            0 <= i < items.len() ==> #[trigger] item(encoding(items[i]) + rest) == (
                Ok::<T, ProtocolError>(items[i]),
                rest,
            ),
    ensures
        parse_items(writer::concat_bytes(items, encoding) + tail, items.len(), item) == (
            Ok::<Seq<T>, ProtocolError>(items),
            tail,
        ),
    decreases items.len(),
{
    if items.len() == 0 {
        assert(writer::concat_bytes(items, encoding) + tail =~= tail);
        assert(items =~= Seq::<T>::empty());
    } else {
        let front = items.drop_last();
        let last = encoding(items.last()) + tail;
        assert(writer::concat_bytes(items, encoding) + tail
            =~= writer::concat_bytes(front, encoding) + last);
        assert forall|i: int, rest: Seq<u8>| 0 <= i < front.len() implies #[trigger] item(
            encoding(front[i]) + rest,
        ) == (Ok::<T, ProtocolError>(front[i]), rest) by {
            assert(front[i] == items[i]);
        }
        lemma_items_round_trip(front, encoding, item, last);
        assert(item(encoding(items[items.len() - 1]) + tail) == (
            Ok::<T, ProtocolError>(items.last()),
            tail,
        ));
        assert(front.push(items.last()) =~= items);
    }
}

/// A list whose first items already fail, fails with their error.
pub proof fn lemma_parse_items_stops<T>(
    s: Seq<u8>,
    n: nat,
    m: nat,
    item: spec_fn(Seq<u8>) -> Parse<T>,
)
    requires
        n <= m,
        parse_items(s, n, item).0 is Err,
    ensures
        parse_items(s, m, item) == parse_items(s, n, item),
    decreases m - n,
{
    if n < m {
        lemma_parse_items_stops(s, n, (m - 1) as nat, item);
    }
}

/// Items that are each at the front of what the one before leaves are the items
/// at the front of the whole.
pub proof fn lemma_run_of_items<T>(
    rests: Seq<Seq<u8>>,
    values: Seq<T>,
    item: spec_fn(Seq<u8>) -> Parse<T>,
)
    requires
        rests.len() == values.len() + 1,
        forall|k: int|
            0 <= k < values.len() ==> item(#[trigger] rests[k]) == (
                Ok::<T, ProtocolError>(values[k]),
                rests[k + 1],
            ),
    ensures
        parse_items(rests[0], values.len(), item) == (
            Ok::<Seq<T>, ProtocolError>(values),
            rests[values.len() as int],
        ),
    decreases values.len(),
{
    if values.len() == 0 {
        assert(values =~= Seq::<T>::empty());
    } else {
        let last = values.len() - 1;
        lemma_run_of_items(rests.drop_last(), values.drop_last(), item);
        assert(item(rests[last]) == (Ok::<T, ProtocolError>(values[last]), rests[last + 1]));
        assert(values.drop_last().push(values[last]) =~= values);
    }
}

} // verus!
