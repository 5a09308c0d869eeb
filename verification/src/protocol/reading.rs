//! How bytes are read, and when they are not.

use vstd::prelude::*;
use vstd::utf8;

use crate::protocol::error::ProtocolError;
use crate::protocol::layout;
use crate::protocol::packets;
use crate::protocol::packets::ServerboundPacket;
use crate::protocol::reader;
use crate::protocol::reader::Parse;
use crate::protocol::types;
use crate::protocol::types::{BlockPos, ChunkPos, Float32, Float64, Uuid};
use crate::protocol::varint;
use crate::protocol::wire;

verus! {

/// Up to five groups of seven bits are read as the VarInt that they add up to,
/// as few of them as there are or more, and what follows is left. Bits past the
/// 32nd are dropped.
pub proof fn law_varint_reads(groups: Seq<u8>, tail: Seq<u8>, v: i32)
    requires
        1 <= groups.len() <= 5,
        forall|i: int| 0 <= i < groups.len() - 1 ==> #[trigger] groups[i] >= 128,
        groups.last() < 128,
        v as int % 0x1_0000_0000 == layout::groups_number(groups) % 0x1_0000_0000,
    ensures
        varint::parse_varint(groups + tail) == Ok::<(i32, usize), ProtocolError>(
            (v, groups.len() as usize),
        ),
        reader::take_varint(groups + tail) == (Ok::<i32, ProtocolError>(v), tail),
{
    reveal(reader::take_varint);
    let s = groups + tail;
    let last = (groups.len() - 1) as nat;
    assert forall|k: int| 0 <= k < last implies s[k] >= 128 by {
        assert(s[k] == groups[k]);
    }
    varint::lemma_group_count_at(s, last, 5);
    assert(s.take(groups.len() as int) =~= groups);
    assert(s.skip(groups.len() as int) =~= tail);
    layout::lemma_group_value(groups);
    let c = varint::group_value(groups);
    layout::lemma_bytes_divide(0, 0, c, 0);
    layout::lemma_unsigned(0, v, 0);
    wire::lemma_signed(0, 0, v, 0);
    assert(c as u32 == v as u32);
}

/// Bytes that all have their high bit set are no VarInt: five of them are too
/// many, and after fewer of them more is needed.
pub proof fn law_endless_varint(s: Seq<u8>)
    requires
        forall|i: int| 0 <= i < s.len() && i < 5 ==> #[trigger] s[i] >= 128,
    ensures
        s.len() >= 5 ==> varint::parse_varint(s) == Err::<(i32, usize), ProtocolError>(
            ProtocolError::VarIntTooLong { max: 5 },
        ),
        s.len() < 5 ==> varint::parse_varint(s) == Err::<(i32, usize), ProtocolError>(
            ProtocolError::UnexpectedEof { needed: 1, available: 0 },
        ),
{
    varint::lemma_group_count_none(s, 5);
}

/// Bytes are read as the number that they add up to, the first of them weighing
/// most, with or without a sign; what follows is left.
pub proof fn law_numbers_read(s: Seq<u8>, tail: Seq<u8>, a: i16, b: i32, c: i64)
    ensures
        s.len() == 2 && layout::number(s) == a as int % 0x1_0000 ==> reader::parse_i16(s + tail)
            == (Ok::<i16, ProtocolError>(a), tail),
        s.len() == 4 && layout::number(s) == b as int % 0x1_0000_0000 ==> reader::parse_i32(
            s + tail,
        ) == (Ok::<i32, ProtocolError>(b), tail),
        s.len() == 8 && layout::number(s) == c as int % 0x1_0000_0000_0000_0000
            ==> reader::parse_i64(s + tail) == (Ok::<i64, ProtocolError>(c), tail),
{
    layout::lemma_unsigned(0, b, c);
    layout::lemma_unsigned_short(a);
    layout::law_fixed_width_bytes(a as u16, b as u32, c as u64, 0);
    reader::law_fixed_width_round_trip(
        false,
        0,
        0,
        a,
        b,
        c,
        0,
        Float32 { bits: 0 },
        Float64 { bits: 0 },
        Uuid { value: 0 },
        tail,
    );
    if s.len() == 2 && layout::number(s) == a as int % 0x1_0000 {
        layout::lemma_number_injective(s, wire::be16(a as u16));
    }
    if s.len() == 4 && layout::number(s) == b as int % 0x1_0000_0000 {
        layout::lemma_number_injective(s, wire::be32(b as u32));
    }
    if s.len() == 8 && layout::number(s) == c as int % 0x1_0000_0000_0000_0000 {
        layout::lemma_number_injective(s, wire::be64(c as u64));
    }
}

/// Bytes are read as the unsigned number, the pattern of a fraction or the UUID
/// that they add up to, the first of them weighing most.
pub proof fn law_patterns_read(s: Seq<u8>, tail: Seq<u8>)
    ensures
        s.len() == 1 ==> reader::parse_u8(s + tail) == (Ok::<u8, ProtocolError>(s[0]), tail),
        s.len() == 2 ==> reader::parse_u16(s + tail) == (
            Ok::<u16, ProtocolError>(layout::number(s) as u16),
            tail,
        ) && 0 <= layout::number(s) <= u16::MAX,
        s.len() == 4 ==> reader::parse_f32(s + tail) == (
            Ok::<Float32, ProtocolError>(Float32 { bits: layout::number(s) as u32 }),
            tail,
        ) && 0 <= layout::number(s) <= u32::MAX,
        s.len() == 8 ==> reader::parse_u64(s + tail) == (
            Ok::<u64, ProtocolError>(layout::number(s) as u64),
            tail,
        ) && reader::parse_f64(s + tail) == (
            Ok::<Float64, ProtocolError>(Float64 { bits: layout::number(s) as u64 }),
            tail,
        ) && 0 <= layout::number(s) <= u64::MAX,
        s.len() == 16 ==> reader::parse_uuid(s + tail) == (
            Ok::<Uuid, ProtocolError>(Uuid { value: layout::number(s) as u128 }),
            tail,
        ) && 0 <= layout::number(s) <= u128::MAX,
{
    if s.len() == 1 {
        assert((s + tail).skip(1) =~= tail);
    }
    if s.len() == 2 || s.len() == 4 || s.len() == 8 || s.len() == 16 {
        lemma_number_range(s);
        let n = layout::number(s);
        layout::law_fixed_width_bytes(n as u16, n as u32, n as u64, n as u128);
        reader::law_fixed_width_round_trip(
            false,
            0,
            n as u16,
            0,
            0,
            0,
            n as u64,
            Float32 { bits: n as u32 },
            Float64 { bits: n as u64 },
            Uuid { value: n as u128 },
            tail,
        );
        if s.len() == 2 {
            layout::lemma_number_injective(s, wire::be16(n as u16));
        } else if s.len() == 4 {
            layout::lemma_number_injective(s, wire::be32(n as u32));
        } else if s.len() == 8 {
            layout::lemma_number_injective(s, wire::be64(n as u64));
        } else {
            layout::lemma_number_injective(s, wire::be128(n as u128));
        }
    }
}

/// How far some bytes can count.
spec fn scale256(n: nat) -> int
    decreases n,
{
    if n == 0 {
        1
    } else {
        scale256((n - 1) as nat) * 256
    }
}

proof fn lemma_number_below(s: Seq<u8>)
    ensures
        0 <= layout::number(s) < scale256(s.len()),
    decreases s.len(),
{
    if s.len() > 0 {
        lemma_number_below(s.drop_last());
    }
}

proof fn lemma_number_range(s: Seq<u8>)
    ensures
        0 <= layout::number(s),
        s.len() == 2 ==> layout::number(s) <= u16::MAX,
        s.len() == 4 ==> layout::number(s) <= u32::MAX,
        s.len() == 8 ==> layout::number(s) <= u64::MAX,
        s.len() == 16 ==> layout::number(s) <= u128::MAX,
{
    lemma_number_below(s);
    reveal_with_fuel(scale256, 17);
}

/// Eight bytes are read as a block position: the highest 26 bits are X, the next
/// 26 are Z and the lowest 12 are Y, each with a sign. As a chunk position the
/// higher half is Z and the lower half is X.
pub proof fn law_positions_read(s: Seq<u8>, tail: Seq<u8>, pos: BlockPos, chunk: ChunkPos)
    requires
        s.len() == 8,
        -0x200_0000 <= pos.x < 0x200_0000,
        -0x800 <= pos.y < 0x800,
        -0x200_0000 <= pos.z < 0x200_0000,
    ensures
        layout::number(s) == (pos.x * 0x40_0000_0000 + (pos.z as int % 0x400_0000) * 0x1000
            + pos.y as int % 0x1000) % 0x1_0000_0000_0000_0000 ==> reader::parse_position(s + tail)
            == (Ok::<BlockPos, ProtocolError>(pos), tail),
        layout::number(s) == (chunk.z * 0x1_0000_0000 + chunk.x as int % 0x1_0000_0000)
            % 0x1_0000_0000_0000_0000 ==> reader::parse_chunk_pos(s + tail) == (
            Ok::<ChunkPos, ProtocolError>(chunk),
            tail,
        ),
{
    types::law_block_pos_round_trip(pos);
    types::law_chunk_pos_round_trip(chunk, 0);
    law_numbers_read(s, tail, 0, 0, types::packed_block_pos(pos));
    law_numbers_read(s, tail, 0, 0, types::packed_chunk_pos(chunk));
}

/// A value that may be missing is read behind a boolean that says whether it is
/// there, and only where it is.
pub proof fn law_optional_reads<T>(
    there: u8,
    s: Seq<u8>,
    item: spec_fn(Seq<u8>) -> Parse<T>,
    value: T,
    tail: Seq<u8>,
)
    requires
        item(s) == (Ok::<T, ProtocolError>(value), tail),
    ensures
        there == 0 ==> reader::parse_option(seq![there] + s, item) == (
            Ok::<Option<T>, ProtocolError>(None),
            s,
        ),
        there != 0 ==> reader::parse_option(seq![there] + s, item) == (
            Ok::<Option<T>, ProtocolError>(Some(value)),
            tail,
        ),
{
    law_bool_reads(there, s);
}

/// A list is read item after item, each where the one before it ended; the first
/// that cannot be read is the error of the list.
pub proof fn law_items_read<T>(
    s: Seq<u8>,
    n: nat,
    item: spec_fn(Seq<u8>) -> Parse<T>,
    first: Parse<T>,
)
    requires
        n > 0,
        item(s) == first,
    ensures
        match first.0 {
            Err(e) => reader::parse_items(s, n, item) == (Err::<Seq<T>, ProtocolError>(e), first.1),
            Ok(v) => {
                let others = reader::parse_items(first.1, (n - 1) as nat, item);
                let all = reader::parse_items(s, n, item);
                &&& all.1 == others.1
                &&& match others.0 {
                    Err(e) => all.0 == Err::<Seq<T>, ProtocolError>(e),
                    Ok(rest) => all.0 == Ok::<Seq<T>, ProtocolError>(seq![v] + rest),
                }
            },
        },
    decreases n,
{
    if n == 1 {
        reveal_with_fuel(reader::parse_items, 2);
        if let Ok(v) = first.0 {
            assert(Seq::<T>::empty().push(v) =~= seq![v] + Seq::<T>::empty());
        }
    } else {
        law_items_read(s, (n - 1) as nat, item, first);
        if let Ok(v) = first.0 {
            let fewer = reader::parse_items(first.1, (n - 2) as nat, item);
            if let Ok(rest) = fewer.0 {
                if let Ok(last) = item(fewer.1).0 {
                    assert((seq![v] + rest).push(last) =~= seq![v] + rest.push(last));
                }
            }
        }
    }
}

/// The bytes behind a length are taken, where that many are there and as many are
/// allowed.
pub proof fn law_byte_arrays_read(bytes: Seq<u8>, max: usize, tail: Seq<u8>)
    requires
        bytes.len() <= i32::MAX,
    ensures
        ({
            let s = varint::varint_bytes(bytes.len() as i32) + bytes + tail;
            let read = reader::parse_byte_array(s, max);
            &&& bytes.len() <= max ==> read == (Ok::<Seq<u8>, ProtocolError>(bytes), tail)
            &&& bytes.len() > max ==> read.0 == Err::<Seq<u8>, ProtocolError>(
                ProtocolError::LengthLimitExceeded { len: bytes.len() as usize, max },
            )
        }),
{
    reveal(reader::parse_byte_array);
    let s = varint::varint_bytes(bytes.len() as i32) + bytes + tail;
    assert(s =~= varint::varint_bytes(bytes.len() as i32) + (bytes + tail));
    law_lengths_are_limited(bytes.len() as i32, max, bytes + tail);
    assert((bytes + tail).take(bytes.len() as int) =~= bytes);
    assert((bytes + tail).skip(bytes.len() as int) =~= tail);
}

/// Ten bytes that all have their high bit set are no VarLong, and after fewer of
/// them more is needed.
pub proof fn law_endless_varlong(s: Seq<u8>)
    requires
        forall|i: int| 0 <= i < s.len() && i < 10 ==> #[trigger] s[i] >= 128,
    ensures
        s.len() >= 10 ==> varint::parse_varlong(s) == Err::<(i64, usize), ProtocolError>(
            ProtocolError::VarIntTooLong { max: 10 },
        ),
        s.len() < 10 ==> varint::parse_varlong(s) == Err::<(i64, usize), ProtocolError>(
            ProtocolError::UnexpectedEof { needed: 1, available: 0 },
        ),
{
    varint::lemma_group_count_none(s, 10);
}

/// A byte is read as a boolean: as false just where it is zero.
pub proof fn law_bool_reads(b: u8, tail: Seq<u8>)
    ensures
        reader::parse_bool(seq![b] + tail) == (Ok::<bool, ProtocolError>(b != 0), tail),
{
    assert((seq![b] + tail).skip(1) =~= tail);
}

/// Where there are too few bytes for a number, it is told how many are needed and
/// how many there are, and none is taken.
pub proof fn law_short_input(s: Seq<u8>)
    requires
        s.len() <= usize::MAX,
    ensures
        s.len() < 1 ==> reader::parse_u8(s) == (
            Err::<u8, ProtocolError>(
                ProtocolError::UnexpectedEof { needed: 1, available: s.len() as usize },
            ),
            s,
        ),
        s.len() < 1 ==> reader::parse_bool(s) == (
            Err::<bool, ProtocolError>(
                ProtocolError::UnexpectedEof { needed: 1, available: s.len() as usize },
            ),
            s,
        ),
        s.len() < 2 ==> reader::parse_u16(s) == (
            Err::<u16, ProtocolError>(
                ProtocolError::UnexpectedEof { needed: 2, available: s.len() as usize },
            ),
            s,
        ),
        s.len() < 4 ==> reader::parse_i32(s) == (
            Err::<i32, ProtocolError>(
                ProtocolError::UnexpectedEof { needed: 4, available: s.len() as usize },
            ),
            s,
        ),
        s.len() < 8 ==> reader::parse_i64(s) == (
            Err::<i64, ProtocolError>(
                ProtocolError::UnexpectedEof { needed: 8, available: s.len() as usize },
            ),
            s,
        ),
{
}

/// A length is taken where it is not negative and not over the limit; otherwise
/// it is refused, and which of the two it is is told.
pub proof fn law_lengths_are_limited(v: i32, max: usize, tail: Seq<u8>)
    ensures
        ({
            let read = reader::parse_length(varint::varint_bytes(v) + tail, max);
            &&& read.1 == tail
            &&& v < 0 ==> read.0 == Err::<usize, ProtocolError>(ProtocolError::NegativeLength(v))
            &&& v > max ==> read.0 == Err::<usize, ProtocolError>(
                ProtocolError::LengthLimitExceeded { len: v as usize, max },
            )
            &&& 0 <= v <= max ==> read.0 == Ok::<usize, ProtocolError>(v as usize)
        }),
{
    reader::lemma_reads_varint(v, tail);
}

/// A string is refused where it has more characters than it may, and the bytes
/// of a string where they are no UTF-8.
pub proof fn law_strings_are_limited(text: Seq<char>, bytes: Seq<u8>, max: usize)
    requires
        text.len() <= usize::MAX,
    ensures
        text.len() > max ==> reader::string_content(utf8::encode_utf8(text), max) == Err::<
            Seq<char>,
            ProtocolError,
        >(ProtocolError::StringTooManyChars { len: text.len() as usize, max }),
        text.len() <= max ==> reader::string_content(utf8::encode_utf8(text), max) == Ok::<
            Seq<char>,
            ProtocolError,
        >(text),
        !utf8::valid_utf8(bytes) ==> reader::string_content(bytes, max) == Err::<
            Seq<char>,
            ProtocolError,
        >(ProtocolError::InvalidUtf8),
{
    utf8::encode_utf8_valid_utf8(text);
    utf8::encode_utf8_decode_utf8(text);
}

/// A string may take up three bytes for each character that it may have, and is
/// refused by its length where it takes up more.
pub proof fn law_long_strings_are_refused(bytes: Seq<u8>, max: usize, tail: Seq<u8>)
    requires
        bytes.len() <= i32::MAX,
        bytes.len() > 3 * max,
    ensures
        reader::parse_string(varint::varint_bytes(bytes.len() as i32) + bytes + tail, max).0
            == Err::<Seq<char>, ProtocolError>(
            ProtocolError::LengthLimitExceeded {
                len: bytes.len() as usize,
                max: (3 * max) as usize,
            },
        ),
{
    reveal(reader::parse_string);
    law_byte_arrays_read(bytes, (3 * max) as usize, tail);
}

/// A packet is read just where its body takes up all of the bytes. What is left
/// over is counted, and told with the state and the id.
pub proof fn law_nothing_may_be_left<P: ServerboundPacket>(
    s: Seq<u8>,
    rest: Seq<u8>,
    fields: P::Fields,
    state: &'static str,
)
    requires
        P::parse_body(s) == (Ok::<P::Fields, ProtocolError>(fields), rest),
    ensures
        rest.len() == 0 ==> packets::parse_exact::<P>(s, state) == Ok::<P::Fields, ProtocolError>(
            fields,
        ),
        rest.len() > 0 ==> packets::parse_exact::<P>(s, state) == Err::<P::Fields, ProtocolError>(
            ProtocolError::TrailingBytes {
                state,
                id: P::packet_id(),
                trailing: rest.len() as usize,
            },
        ),
{
}

} // verus!
