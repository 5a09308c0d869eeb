//! How tags and their strings are read, and when they are refused.

use vstd::prelude::*;

use crate::protocol::error::ProtocolError;
use crate::protocol::layout;
use crate::protocol::mutf8;
use crate::protocol::nbt;
use crate::protocol::nbt::NbtValue;
use crate::protocol::reading;
use crate::protocol::wire;

verus! {

// ---------------------------------------------------------------------------
// Strings
// ---------------------------------------------------------------------------

/// A byte that carries six more bits of a character.
pub open spec fn carries_on(bytes: Seq<u8>, i: int) -> bool {
    i < bytes.len() && 128 <= bytes[i] < 192
}

/// The sixteen bits that three bytes carry, four in the first and six in each of
/// the others.
pub open spec fn sixteen_bits(bytes: Seq<u8>, i: int) -> int {
    bytes[i] as int % 16 * 4096 + bytes[i + 1] as int % 64 * 64 + bytes[i + 2] as int % 64
}

proof fn lemma_bits(b: u8, m: u8, l: u8, h: u32)
    ensures
        b & 0xE0 == 0xC0 <==> 192 <= b < 224,
        b & 0xF0 == 0xE0 <==> 224 <= b < 240,
        m & 0xC0 == 0x80 <==> 128 <= m < 192,
        (((b & 0x1F) as u32) << 6) | ((l & 0x3F) as u32) == b as int % 32 * 64 + l as int % 64,
        (((b & 0x0F) as u32) << 12) | (((m & 0x3F) as u32) << 6) | ((l & 0x3F) as u32) == b as int
            % 16 * 4096 + m as int % 64 * 64 + l as int % 64,
        h < 1024 ==> h << 10 == h * 1024,
{
    assert((b & 0xE0 == 0xC0 <==> 192 <= b < 224) && (b & 0xF0 == 0xE0 <==> 224 <= b < 240) && (m
        & 0xC0 == 0x80 <==> 128 <= m < 192) && (((b & 0x1F) as u32) << 6) | ((l & 0x3F) as u32)
        == (b % 32) as u32 * 64 + (l % 64) as u32 && (((b & 0x0F) as u32) << 12) | (((m
        & 0x3F) as u32) << 6) | ((l & 0x3F) as u32) == (b % 16) as u32 * 4096 + (m % 64) as u32 * 64
        + (l % 64) as u32 && (h < 1024 ==> h << 10 == h * 1024)) by (bit_vector);
}

/// The character at the front of a string. One byte below 128 is itself. Two
/// bytes carry eleven bits. Three carry sixteen, which are a character unless
/// they are half of one above the sixteen bits: then three more must follow with
/// the other half. Anything else is refused.
pub proof fn law_first_char_reads(bytes: Seq<u8>)
    requires
        bytes.len() > 0,
    ensures
        ({
            let read = mutf8::first_char(bytes);
            let b = bytes[0];
            let two = carries_on(bytes, 1);
            let three = two && carries_on(bytes, 2);
            let unit = sixteen_bits(bytes, 0);
            let next = bytes.len() > 3 && 224 <= bytes[3] < 240 && carries_on(bytes, 4)
                && carries_on(bytes, 5);
            let other = sixteen_bits(bytes, 3);
            if b < 128 {
                read matches Ok((c, n)) && c as int == b && n == 1
            } else if 192 <= b < 224 && two {
                read matches Ok((c, n)) && c as int == b as int % 32 * 64 + bytes[1] as int % 64
                    && n == 2
            } else if 224 <= b < 240 && three && !(0xD800 <= unit < 0xE000) {
                read matches Ok((c, n)) && c as int == unit && n == 3
            } else if 224 <= b < 240 && three && unit < 0xDC00 && next && 0xDC00 <= other
                < 0xE000 {
                read matches Ok((c, n)) && c as int == 0x1_0000 + (unit - 0xD800) * 1024 + (other
                    - 0xDC00) && n == 6
            } else {
                read matches Err(e) && e is Nbt
            }
        }),
{
    let b = bytes[0];
    let (m, l) = (bytes[1], bytes[2]);
    lemma_bits(b, m, l, 0);
    lemma_bits(b, m, m, 0);
    lemma_bits(b, l, l, 0);
    lemma_bits(bytes[3], bytes[4], bytes[5], 0);
    lemma_bits(bytes[3], bytes[5], bytes[5], 0);
    let unit = sixteen_bits(bytes, 0);
    if 0xD800 <= unit < 0xDC00 {
        lemma_bits(0, 0, 0, (unit - 0xD800) as u32);
    }
}

/// A string is read behind its length in bytes, which are all there must be.
pub proof fn law_string_reads(head: Seq<u8>, bytes: Seq<u8>, tail: Seq<u8>)
    requires
        head.len() == 2,
        layout::number(head) == bytes.len(),
    ensures
        mutf8::parse_nbt_string(head + bytes + tail) == (mutf8::text_of(bytes), tail),
{
    let s = head + bytes + tail;
    let len = bytes.len() as u16;
    reveal_with_fuel(layout::number, 3);
    assert(bytes.len() < 0x1_0000);
    layout::law_fixed_width_bytes(len, 0, 0, 0);
    layout::lemma_number_injective(head, wire::be16(len));
    wire::law_be_round_trip(len, 0, 0, 0, bytes + tail);
    assert(s.skip(2) =~= bytes + tail);
    assert(s.take(2) =~= head);
    assert((bytes + tail).take(bytes.len() as int) =~= bytes);
    assert((bytes + tail).skip(bytes.len() as int) =~= tail);
    assert((bytes + tail).subrange(0, bytes.len() as int) =~= bytes);
}

// ---------------------------------------------------------------------------
// Limits
// ---------------------------------------------------------------------------

/// The length of an array or a list is a number of four bytes. It must not be
/// negative, nor above sixteen million and some.
pub proof fn law_array_lengths_are_limited(head: Seq<u8>, tail: Seq<u8>, len: i32)
    requires
        head.len() == 4,
        layout::number(head) == len as int % 0x1_0000_0000,
    ensures
        ({
            let read = nbt::parse_len(head + tail);
            &&& read.1 == tail
            &&& len < 0 ==> read.0 == Err::<usize, ProtocolError>(
                ProtocolError::NegativeLength(len),
            )
            &&& len > 16_777_216 ==> read.0 == Err::<usize, ProtocolError>(
                ProtocolError::LengthLimitExceeded { len: len as usize, max: 16_777_216 },
            )
            &&& 0 <= len <= 16_777_216 ==> read.0 == Ok::<usize, ProtocolError>(len as usize)
        }),
{
    reading::law_numbers_read(head, tail, 0, len, 0);
}

/// A list without a type is read only where it is empty.
pub proof fn law_untyped_lists_are_empty(head: Seq<u8>, tail: Seq<u8>, len: i32)
    requires
        head.len() == 4,
        layout::number(head) == len,
        0 <= len <= 16_777_216,
    ensures
        ({
            let read = nbt::parse_list_head(seq![0u8] + head + tail);
            &&& len == 0 ==> read == (Ok::<(u8, usize), ProtocolError>((0, 0)), tail)
            &&& len > 0 ==> read.0 == Err::<(u8, usize), ProtocolError>(
                ProtocolError::Nbt("non-empty list of TAG_End"),
            )
        }),
{
    law_array_lengths_are_limited(head, tail, len);
    let s = seq![0u8] + head + tail;
    assert(s.skip(1) =~= head + tail);
}

/// The heads of `n` lists, each of which holds one list, inside each other.
pub open spec fn open_lists(n: nat) -> Seq<u8>
    decreases n,
{
    if n == 0 {
        Seq::empty()
    } else {
        seq![9u8, 0, 0, 0, 1] + open_lists((n - 1) as nat)
    }
}

proof fn lemma_open_lists(n: nat, levels: nat, tail: Seq<u8>)
    requires
        n >= levels,
    ensures
        nbt::parse_payload(open_lists(n) + tail, 9, levels).0 == Err::<NbtValue, ProtocolError>(
            ProtocolError::NbtTooDeep { max: 512 },
        ),
    decreases levels,
{
    if levels > 0 {
        let inner = open_lists((n - 1) as nat) + tail;
        let s = open_lists(n) + tail;
        let head = seq![0u8, 0, 0, 1];
        assert(s.skip(1) =~= head + inner);
        layout::lemma_number4(head);
        law_array_lengths_are_limited(head, inner, 1);
        lemma_open_lists((n - 1) as nat, (levels - 1) as nat, tail);
        assert(s[0] == 9);
    }
}

/// Tags nested more than 512 deep are refused before they are read any deeper.
pub proof fn law_deep_tags_are_refused(n: nat, tail: Seq<u8>)
    requires
        n > 512,
    ensures
        nbt::parse_network(seq![9u8] + open_lists(n) + tail).0 == Err::<NbtValue, ProtocolError>(
            ProtocolError::NbtTooDeep { max: 512 },
        ),
{
    lemma_open_lists(n, 513, tail);
    let s = seq![9u8] + open_lists(n) + tail;
    assert(s.skip(1) =~= open_lists(n) + tail);
}

/// A tag inside `n` lists.
pub open spec fn wrapped(n: nat, value: NbtValue) -> NbtValue
    decreases n,
{
    if n == 0 {
        value
    } else {
        let inner = wrapped((n - 1) as nat, value);
        NbtValue::List(inner.type_id(), seq![inner])
    }
}

proof fn lemma_wrapped(n: nat, levels: nat, v: i8)
    requires
        n < levels,
    ensures
        nbt::representable(wrapped(n, NbtValue::Byte(v)), levels),
    decreases n,
{
    if n > 0 {
        lemma_wrapped((n - 1) as nat, (levels - 1) as nat, v);
    }
}

/// Tags nested up to 512 deep are read.
pub proof fn law_tags_may_be_nested(n: nat, v: i8, tail: Seq<u8>)
    requires
        n <= 512,
    ensures
        ({
            let value = wrapped(n, NbtValue::Byte(v));
            nbt::parse_network(nbt::network_bytes(value) + tail) == (
                Ok::<NbtValue, ProtocolError>(value),
                tail,
            )
        }),
{
    lemma_wrapped(n, 513, v);
    nbt::law_network_round_trip(wrapped(n, NbtValue::Byte(v)), tail);
}

// ---------------------------------------------------------------------------
// Keys
// ---------------------------------------------------------------------------

proof fn lemma_first_place(entries: Seq<(Seq<char>, NbtValue)>, key: Seq<char>)
    ensures
        ({
            let i = nbt::key_index(entries, key) as int;
            &&& i <= entries.len()
            &&& i < entries.len() ==> entries[i].0 == key
            &&& forall|j: int| 0 <= j < i ==> (#[trigger] entries[j]).0 != key
        }),
    decreases entries.len(),
{
    if entries.len() > 0 && entries[0].0 != key {
        let rest = entries.skip(1);
        lemma_first_place(rest, key);
        assert forall|j: int|
            0 <= j < nbt::key_index(entries, key) implies (#[trigger] entries[j]).0 != key by {
            if j > 0 {
                assert(rest[j - 1] == entries[j]);
            }
        }
    }
}

/// Setting a key keeps every key in its place and every other value as it was.
/// A key that is there gets the value; one that is not comes last.
pub proof fn law_keys_keep_their_places(
    entries: Seq<(Seq<char>, NbtValue)>,
    key: Seq<char>,
    value: NbtValue,
    i: int,
)
    requires
        nbt::distinct_keys(entries),
    ensures
        ({
            let after = nbt::entries_with(entries, key, value);
            let known = exists|j: int| 0 <= j < entries.len() && (#[trigger] entries[j]).0 == key;
            &&& after.len() == entries.len() + if known {
                0int
            } else {
                1int
            }
            &&& 0 <= i < entries.len() ==> after[i].0 == entries[i].0
            &&& 0 <= i < entries.len() && entries[i].0 != key ==> after[i].1 == entries[i].1
            &&& 0 <= i < entries.len() && entries[i].0 == key ==> after[i].1 == value
            &&& !known ==> after.last() == (key, value)
        }),
{
    lemma_first_place(entries, key);
}

/// An entry of a compound that is read after others comes last, unless its name
/// came before: then it takes the place of the value there. The end marker ends
/// the compound.
pub proof fn law_repeated_names_replace(
    name: Seq<char>,
    v: NbtValue,
    levels: nat,
    rest: Seq<u8>,
    read: Seq<(Seq<char>, NbtValue)>,
    i: int,
)
    requires
        mutf8::text_bytes(name).len() <= 65535,
        nbt::representable(v, levels),
        nbt::distinct_keys(read),
    ensures
        ({
            let entry = seq![v.type_id()] + mutf8::nbt_string_bytes(name) + nbt::payload_bytes(v);
            let known = exists|j: int| 0 <= j < read.len() && (#[trigger] read[j]).0 == name;
            &&& 0 <= i < read.len() && read[i].0 == name ==> nbt::parse_entries(
                entry + rest,
                levels,
                read,
            ) == nbt::parse_entries(rest, levels, read.update(i, (name, v)))
            &&& !known ==> nbt::parse_entries(entry + rest, levels, read) == nbt::parse_entries(
                rest,
                levels,
                read.push((name, v)),
            )
        }),
        nbt::parse_entries(seq![0u8] + rest, levels, read) == (
            Ok::<Seq<(Seq<char>, NbtValue)>, ProtocolError>(read),
            rest,
        ),
{
    let entry = seq![v.type_id()] + mutf8::nbt_string_bytes(name) + nbt::payload_bytes(v);
    let s = entry + rest;
    nbt::law_payload_round_trip(v, levels, rest);
    mutf8::law_nbt_string_round_trip(name, nbt::payload_bytes(v) + rest);
    assert(s.skip(1) =~= mutf8::nbt_string_bytes(name) + (nbt::payload_bytes(v) + rest));
    assert((seq![0u8] + rest).skip(1) =~= rest);
    lemma_first_place(read, name);
    let k = nbt::key_index(read, name) as int;
    if 0 <= i < read.len() && read[i].0 == name {
        assert(k == i);
    }
}

} // verus!
