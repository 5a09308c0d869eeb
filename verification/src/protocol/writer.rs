//! Encoding half of the wire format.
//!
//! An extension trait over growing byte buffers, so the same code writes into a
//! `Vec<u8>` and into a `BytesMut`.

use bytes::BytesMut;
use vstd::prelude::*;
use vstd::utf8;

use crate::protocol::buffer::bytes_mut_put;
use crate::protocol::buffer;
use crate::protocol::types::{BlockPos, ChunkPos, Float32, Float64, Uuid};
use crate::protocol::types;
use crate::protocol::varint;
use crate::protocol::wire;

verus! {

/// The byte of a boolean.
pub open spec fn bool_byte(value: bool) -> u8 {
    if value {
        1
    } else {
        0
    }
}

/// A byte array behind its length.
pub open spec fn byte_array_bytes(value: Seq<u8>) -> Seq<u8> {
    varint::varint_bytes(value.len() as i32) + value
}

/// The UTF-8 bytes of a string behind their number.
pub open spec fn string_bytes(value: Seq<char>) -> Seq<u8> {
    byte_array_bytes(utf8::encode_utf8(value))
}

/// 64-bit numbers one after the other.
pub open spec fn longs_bytes(values: Seq<i64>) -> Seq<u8>
    decreases values.len(),
{
    if values.len() == 0 {
        Seq::empty()
    } else {
        longs_bytes(values.drop_last()) + wire::be64(values.last() as u64)
    }
}

/// 64-bit numbers behind their count.
pub open spec fn long_array_bytes(values: Seq<i64>) -> Seq<u8> {
    varint::varint_bytes(values.len() as i32) + longs_bytes(values)
}

/// The encodings of `items` one after the other.
pub open spec fn concat_bytes<T>(items: Seq<T>, encoding: spec_fn(T) -> Seq<u8>) -> Seq<u8>
    decreases items.len(),
{
    if items.len() == 0 {
        Seq::empty()
    } else {
        concat_bytes(items.drop_last(), encoding) + encoding(items.last())
    }
}

/// A growing byte buffer. Nothing written is ever changed.
pub trait ByteSink: Sized {
    /// The bytes in the buffer.
    spec fn written(&self) -> Seq<u8>;

    fn put_u8(&mut self, value: u8)
        ensures
            final(self).written() == old(self).written().push(value),
    ;

    fn put_slice(&mut self, value: &[u8])
        ensures
            final(self).written() == old(self).written() + value@,
    ;
}

/// The primitives that packets are made of, for every byte buffer.
pub trait PacketWrite: ByteSink {
    #[inline]
    fn write_u8(&mut self, value: u8)
        ensures
            final(self).written() == old(self).written().push(value),
    {
        self.put_u8(value);
    }

    #[inline]
    fn write_i8(&mut self, value: i8)
        ensures
            final(self).written() == old(self).written().push(value as u8),
    {
        self.put_u8(value as u8);
    }

    #[inline]
    fn write_bool(&mut self, value: bool)
        ensures
            final(self).written() == old(self).written().push(bool_byte(value)),
    {
        self.put_u8(if value { 1 } else { 0 });
    }

    #[inline]
    fn write_u16(&mut self, value: u16)
        ensures
            final(self).written() == old(self).written() + wire::be16(value),
    {
        self.put_u8((value >> 8) as u8);
        self.put_u8(value as u8);
        assert(self.written() =~= old(self).written() + wire::be16(value));
    }

    #[inline]
    fn write_i16(&mut self, value: i16)
        ensures
            final(self).written() == old(self).written() + wire::be16(value as u16),
    {
        self.write_u16(value as u16);
    }

    #[inline]
    fn write_u32(&mut self, value: u32)
        ensures
            final(self).written() == old(self).written() + wire::be32(value),
    {
        self.put_u8((value >> 24) as u8);
        self.put_u8((value >> 16) as u8);
        self.put_u8((value >> 8) as u8);
        self.put_u8(value as u8);
        assert(self.written() =~= old(self).written() + wire::be32(value));
    }

    #[inline]
    fn write_i32(&mut self, value: i32)
        ensures
            final(self).written() == old(self).written() + wire::be32(value as u32),
    {
        self.write_u32(value as u32);
    }

    #[inline]
    fn write_i64(&mut self, value: i64)
        ensures
            final(self).written() == old(self).written() + wire::be64(value as u64),
    {
        self.write_u64(value as u64);
    }

    #[inline]
    fn write_u64(&mut self, value: u64)
        ensures
            final(self).written() == old(self).written() + wire::be64(value),
    {
        self.put_u8((value >> 56) as u8);
        self.put_u8((value >> 48) as u8);
        self.put_u8((value >> 40) as u8);
        self.put_u8((value >> 32) as u8);
        self.put_u8((value >> 24) as u8);
        self.put_u8((value >> 16) as u8);
        self.put_u8((value >> 8) as u8);
        self.put_u8(value as u8);
        assert(self.written() =~= old(self).written() + wire::be64(value));
    }

    #[inline]
    fn write_f32(&mut self, value: Float32)
        ensures
            final(self).written() == old(self).written() + wire::be32(value.bits),
    {
        self.write_u32(value.bits);
    }

    #[inline]
    fn write_f64(&mut self, value: Float64)
        ensures
            final(self).written() == old(self).written() + wire::be64(value.bits),
    {
        self.write_u64(value.bits);
    }

    #[inline]
    fn write_varint(&mut self, value: i32)
        ensures
            final(self).written() == old(self).written() + varint::varint_bytes(value),
    {
        varint::write_varint(self, value);
    }

    #[inline]
    fn write_varlong(&mut self, value: i64)
        ensures
            final(self).written() == old(self).written() + varint::varlong_bytes(value),
    {
        varint::write_varlong(self, value);
    }

    /// Writes a length-prefixed UTF-8 string.
    #[inline]
    fn write_string(&mut self, value: &str)
        ensures
            final(self).written() == old(self).written() + string_bytes(value@),
    {
        self.write_byte_array(value.as_bytes());
    }

    /// Writes a namespaced identifier. Identical on the wire to a string; the
    /// separate name keeps packet definitions self-documenting.
    #[inline]
    fn write_identifier(&mut self, value: &str)
        ensures
            final(self).written() == old(self).written() + string_bytes(value@),
    {
        self.write_string(value);
    }

    /// Writes a 128-bit UUID, most significant half first.
    #[inline]
    fn write_uuid(&mut self, value: Uuid)
        ensures
            final(self).written() == old(self).written() + wire::be128(value.value),
    {
        self.write_u64((value.value >> 64) as u64);
        self.write_u64(value.value as u64);
        assert(self.written() =~= old(self).written() + wire::be128(value.value));
    }

    /// Writes raw bytes with no length prefix.
    #[inline]
    fn write_bytes(&mut self, value: &[u8])
        ensures
            final(self).written() == old(self).written() + value@,
    {
        self.put_slice(value);
    }

    /// Writes a VarInt-prefixed byte array.
    #[inline]
    fn write_byte_array(&mut self, value: &[u8])
        ensures
            final(self).written() == old(self).written() + byte_array_bytes(value@),
    {
        self.write_varint(value.len() as i32);
        self.put_slice(value);
        assert(self.written() =~= old(self).written() + byte_array_bytes(value@));
    }

    #[inline]
    fn write_position(&mut self, value: BlockPos)
        ensures
            final(self).written() == old(self).written()
                + wire::be64(types::packed_block_pos(value) as u64),
    {
        self.write_i64(value.encode());
    }

    #[inline]
    fn write_chunk_pos(&mut self, value: ChunkPos)
        ensures
            final(self).written() == old(self).written()
                + wire::be64(types::packed_chunk_pos(value) as u64),
    {
        self.write_i64(value.to_long());
    }

    /// Writes an optional value as a presence boolean plus the payload, which
    /// `f` writes.
    #[inline]
    fn write_option<T, F: FnOnce(&mut Self, T)>(&mut self, value: Option<T>, f: F)
        requires
            value matches Some(v) ==> forall|s: &mut Self| call_requires(f, (s, v)),
        ensures
            value is None ==> final(self).written() == old(self).written().push(0),
            value matches Some(v) ==> exists|s: &mut Self|
                #![trigger call_ensures(f, (s, v), ())]
                s.written() == old(self).written().push(1) && call_ensures(f, (s, v), ())
                    && *final(s) == *final(self),
    {
        match value {
            Some(v) => {
                self.write_bool(true);
                f(self, v);
            },
            None => self.write_bool(false),
        }
    }

    /// Writes a VarInt-prefixed list: the count, and then every item by a call of
    /// `f`, in order. Where `f` appends the encoding of the item it is given,
    /// what is appended is the count and then every encoding.
    #[inline]
    fn write_array<T, F: FnMut(&mut Self, &T)>(&mut self, items: &[T], f: F)
        requires
            forall|s: &mut Self, i: int|
                0 <= i < items@.len() ==> #[trigger] call_requires(f, (s, &items@[i])),
        ensures
            exists|stops: Seq<Self>|
                #![trigger stops.len()]
                {
                    &&& stops.len() == items@.len() + 1
                    &&& stops[0].written() == old(self).written() + varint::varint_bytes(
                        items@.len() as i32,
                    )
                    &&& stops[items@.len() as int] == *final(self)
                    &&& forall|k: int|
                        #[trigger] wire::counted(k) && k < items@.len() ==> exists|s: &mut Self|
                            {
                                &&& #[trigger] call_ensures(f, (s, &items@[k]), ())
                                &&& *s == stops[k]
                                &&& *final(s) == stops[k + 1]
                            }
                },
            forall|encoding: spec_fn(T) -> Seq<u8>|
                #![trigger concat_bytes(items@, encoding)]
                (forall|s: &mut Self, i: int|
                    0 <= i < items@.len() && #[trigger] call_ensures(f, (s, &items@[i]), ())
                        ==> final(s).written() == s.written() + encoding(items@[i]))
                    ==> final(self).written() == old(self).written() + (varint::varint_bytes(
                    items@.len() as i32,
                ) + concat_bytes(items@, encoding)),
    {
        self.write_varint(items.len() as i32);
        let ghost counted = self.written();
        let mut write_item = f;
        let ghost mut stops: Seq<Self> = seq![*self];
        let mut i: usize = 0;
        assert(forall|encoding: spec_fn(T) -> Seq<u8>|
            counted + concat_bytes(#[trigger] items@.take(0), encoding) == counted) by {
            assert(items@.take(0) =~= Seq::<T>::empty());
            assert(forall|encoding: spec_fn(T) -> Seq<u8>|
                counted + concat_bytes(Seq::<T>::empty(), encoding) =~= counted);
        }
        while i < items.len()
            invariant
                i <= items@.len(),
                write_item == f,
                stops.len() == i + 1,
                stops[0].written() == counted,
                stops[i as int] == *self,
                forall|k: int|
                    #[trigger] wire::counted(k) && k < i ==> exists|s: &mut Self|
                        {
                            &&& #[trigger] call_ensures(f, (s, &items@[k]), ())
                            &&& *s == stops[k]
                            &&& *final(s) == stops[k + 1]
                        },
                counted == old(self).written() + varint::varint_bytes(items@.len() as i32),
                forall|encoding: spec_fn(T) -> Seq<u8>|
                    #![trigger concat_bytes(items@.take(i as int), encoding)]
                    (forall|s: &mut Self, k: int|
                        0 <= k < items@.len() && #[trigger] call_ensures(f, (s, &items@[k]), ())
                            ==> final(s).written() == s.written() + encoding(items@[k]))
                        ==> self.written() == counted + concat_bytes(
                        items@.take(i as int),
                        encoding,
                    ),
                forall|s: &mut Self, k: int|
                    0 <= k < items@.len() ==> #[trigger] call_requires(f, (s, &items@[k])),
            decreases items@.len() - i,
        {
            let ghost before = self.written();
            let ghost passed = stops;
            write_item(self, &items[i]);
            proof {
                assert(exists|s: &mut Self|
                    {
                        &&& #[trigger] call_ensures(f, (s, &items@[i as int]), ())
                        &&& *s == passed[i as int]
                        &&& *final(s) == *self
                    });
                stops = passed.push(*self);
                assert forall|k: int|
                    #[trigger] wire::counted(k) && k < i + 1 implies exists|s: &mut Self|
                    {
                        &&& #[trigger] call_ensures(f, (s, &items@[k]), ())
                        &&& *s == stops[k]
                        &&& *final(s) == stops[k + 1]
                    } by {
                    if k < i {
                        assert(stops[k] == passed[k]);
                        assert(stops[k + 1] == passed[k + 1]);
                    }
                }
            }
            assert forall|encoding: spec_fn(T) -> Seq<u8>|
                #![trigger concat_bytes(items@.take(i + 1), encoding)]
                (forall|s: &mut Self, k: int|
                    0 <= k < items@.len() && #[trigger] call_ensures(f, (s, &items@[k]), ())
                        ==> final(s).written() == s.written() + encoding(
                        items@[k],
                    )) implies self.written() == counted + concat_bytes(
                items@.take(i + 1),
                encoding,
            ) by {
                assert(items@.take(i + 1).drop_last() =~= items@.take(i as int));
                assert(before == counted + concat_bytes(items@.take(i as int), encoding));
                assert(self.written() =~= counted + concat_bytes(items@.take(i + 1), encoding));
            }
            i += 1;
        }
        assert(items@.take(i as int) =~= items@);
        assert(stops.len() == items@.len() + 1);
        assert forall|encoding: spec_fn(T) -> Seq<u8>|
            #![trigger concat_bytes(items@, encoding)]
            counted + concat_bytes(items@, encoding) == old(self).written() + (varint::varint_bytes(
                items@.len() as i32,
            ) + concat_bytes(items@, encoding)) by {
            assert(counted + concat_bytes(items@, encoding) =~= old(self).written()
                + (varint::varint_bytes(
                items@.len() as i32,
            ) + concat_bytes(items@, encoding)));
        }
    }

    /// Writes a bitset as a VarInt-prefixed array of longs, the encoding used
    /// for chunk section masks and similar fields.
    #[inline]
    fn write_long_array(&mut self, values: &[i64])
        ensures
            final(self).written() == old(self).written() + long_array_bytes(values@),
    {
        self.write_varint(values.len() as i32);
        let ghost counted = self.written();
        let mut i: usize = 0;
        while i < values.len()
            invariant
                i <= values@.len(),
                counted == old(self).written() + varint::varint_bytes(values@.len() as i32),
                self.written() == counted + longs_bytes(values@.take(i as int)),
            decreases values@.len() - i,
        {
            let ghost next = values@.take(i + 1);
            self.write_i64(values[i]);
            assert(next.drop_last() =~= values@.take(i as int));
            assert(self.written() =~= counted + longs_bytes(next));
            i += 1;
        }
        assert(values@.take(i as int) =~= values@);
        assert(self.written() =~= old(self).written() + long_array_bytes(values@));
    }
}

impl ByteSink for Vec<u8> {
    open spec fn written(&self) -> Seq<u8> {
        self@
    }

    #[inline]
    fn put_u8(&mut self, value: u8) {
        self.push(value);
    }

    #[inline]
    fn put_slice(&mut self, value: &[u8]) {
        self.extend_from_slice(value);
        assert(self@ =~= old(self)@ + value@);
    }
}

impl<S: ByteSink> PacketWrite for S {
}

impl ByteSink for BytesMut {
    open spec fn written(&self) -> Seq<u8> {
        buffer::bytes_mut_content(*self)
    }

    #[inline]
    fn put_u8(&mut self, value: u8) {
        let one: [u8; 1] = [value];
        bytes_mut_put(self, one.as_slice());
        assert(self.written() =~= old(self).written().push(value));
    }

    #[inline]
    fn put_slice(&mut self, value: &[u8]) {
        bytes_mut_put(self, value);
    }
}

} // verus!
