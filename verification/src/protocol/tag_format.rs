//! The binary form of tags, byte by byte.

use vstd::prelude::*;

use crate::protocol::error::ProtocolError;
use crate::protocol::layout::Field;
use crate::protocol::layout;
use crate::protocol::mutf8;
use crate::protocol::nbt;
use crate::protocol::nbt::{NbtTag, NbtValue};
use crate::protocol::wire;
use crate::protocol::writer;

verus! {

/// The number that stands for the type of a tag.
pub proof fn law_type_numbers(value: NbtValue)
    ensures
        1 <= value.type_id() <= 12,
        value is Byte <==> value.type_id() == 1,
        value is Short <==> value.type_id() == 2,
        value is Int <==> value.type_id() == 3,
        value is Long <==> value.type_id() == 4,
        value is Float <==> value.type_id() == 5,
        value is Double <==> value.type_id() == 6,
        value is ByteArray <==> value.type_id() == 7,
        value is Text <==> value.type_id() == 8,
        value is List <==> value.type_id() == 9,
        value is Compound <==> value.type_id() == 10,
        value is IntArray <==> value.type_id() == 11,
        value is LongArray <==> value.type_id() == 12,
{
}

/// The fields of a tag of one number in the network form.
pub open spec fn scalar_layout(tag: NbtTag) -> Seq<Field> {
    match tag {
        NbtTag::Byte(v) => seq![Field::Byte(1), Field::SignedByte(v)],
        NbtTag::Short(v) => seq![Field::Byte(2), Field::Short(v as u16)],
        NbtTag::Int(v) => seq![Field::Byte(3), Field::Int(v)],
        NbtTag::Long(v) => seq![Field::Byte(4), Field::Long(v)],
        NbtTag::Float(v) => seq![Field::Byte(5), Field::Single(v.bits)],
        NbtTag::Double(v) => seq![Field::Byte(6), Field::Double(v.bits)],
        _ => seq![],
    }
}

/// A tag of one number is the byte of its type and the number, most significant
/// byte first: in one, two, four or eight bytes.
pub proof fn law_scalar_format(tag: NbtTag)
    requires
        tag is Byte || tag is Short || tag is Int || tag is Long || tag is Float
            || tag is Double,
    ensures
        layout::spells(nbt::network_bytes(tag@), scalar_layout(tag)),
        nbt::network_bytes(tag@).len() == (match tag {
            NbtTag::Byte(_) => 2nat,
            NbtTag::Short(_) => 3,
            NbtTag::Int(_) | NbtTag::Float(_) => 5,
            _ => 9,
        }),
{
    let id = tag@.type_id();
    layout::lemma_front(seq![id]);
    let (s, f) = layout::begin();
    let (s, f) = layout::then_byte(s, f, id);
    match tag {
        NbtTag::Byte(v) => {
            let (s, f) = layout::then_signed_byte(s, f, v);
            assert(f =~= scalar_layout(tag));
        },
        NbtTag::Short(v) => {
            let (s, f) = layout::then_short(s, f, v as u16);
            assert(f =~= scalar_layout(tag));
        },
        NbtTag::Int(v) => {
            let (s, f) = layout::then_int(s, f, v);
            assert(f =~= scalar_layout(tag));
        },
        NbtTag::Long(v) => {
            let (s, f) = layout::then_long(s, f, v);
            assert(f =~= scalar_layout(tag));
        },
        NbtTag::Float(v) => {
            let (s, f) = layout::then_single(s, f, v.bits);
            assert(f =~= scalar_layout(tag));
        },
        NbtTag::Double(v) => {
            let (s, f) = layout::then_double(s, f, v.bits);
            assert(f =~= scalar_layout(tag));
        },
        _ => {},
    }
}

/// Bytes that stand for a tag of one number are read as that tag, and what
/// follows them is left.
pub proof fn law_scalar_reads(s: Seq<u8>, tag: NbtTag, tail: Seq<u8>)
    requires
        tag is Byte || tag is Short || tag is Int || tag is Long || tag is Float
            || tag is Double,
        layout::spells(s, scalar_layout(tag)),
    ensures
        nbt::parse_network(s + tail) == (Ok::<NbtValue, ProtocolError>(tag@), tail),
{
    law_scalar_format(tag);
    layout::law_spelling_is_unique(s, nbt::network_bytes(tag@), scalar_layout(tag));
    nbt::law_network_round_trip(tag@, tail);
}

/// An int tag is five bytes: 3, and the bytes of the number from the most
/// significant one down.
pub proof fn law_int_bytes(v: i32)
    ensures
        nbt::network_bytes(NbtTag::Int(v)@).len() == 5,
        nbt::network_bytes(NbtTag::Int(v)@)[0] == 3,
        ({
            let b = nbt::network_bytes(NbtTag::Int(v)@);
            b[1] * 0x100_0000 + b[2] * 0x1_0000 + b[3] * 0x100 + b[4] == v as int % 0x1_0000_0000
        }),
{
    let u = v as u32;
    layout::lemma_unsigned(0, v, 0);
    layout::law_fixed_width_bytes(0, u, 0, 0);
    let b = nbt::network_bytes(NbtTag::Int(v)@);
    layout::lemma_number4(wire::be32(u));
    assert(b[1] == wire::be32(u)[0] && b[2] == wire::be32(u)[1] && b[3] == wire::be32(u)[2] && b[4]
        == wire::be32(u)[3]);
}

/// Five bytes of which the first is 3 are read as an int tag of the number that
/// the other four add up to.
pub proof fn law_int_reads(a: u8, b: u8, c: u8, d: u8, v: i32, tail: Seq<u8>)
    requires
        a * 0x100_0000 + b * 0x1_0000 + c * 0x100 + d == v as int % 0x1_0000_0000,
    ensures
        nbt::parse_network(seq![3u8, a, b, c, d] + tail) == (
            Ok::<NbtValue, ProtocolError>(NbtValue::Int(v)),
            tail,
        ),
{
    let s = seq![3u8, a, b, c, d];
    let word = seq![a, b, c, d];
    layout::lemma_number4(word);
    let (t, f) = layout::begin();
    layout::lemma_front(seq![3u8]);
    let (t, f) = layout::then_byte(t, f, 3);
    layout::lemma_then(t, f, word, Field::Int(v));
    assert(t + word =~= s);
    assert(f.push(Field::Int(v)) =~= scalar_layout(NbtTag::Int(v)));
    law_scalar_reads(s, NbtTag::Int(v), tail);
}

/// A string is the number of its bytes, in two bytes, and these bytes. What
/// would not fit is cut off.
pub open spec fn string_layout(text: Seq<char>) -> Seq<Field> {
    let kept = mutf8::text_bytes(mutf8::fitting(text, 65535));
    seq![Field::Short(kept.len() as u16), Field::Raw(kept)]
}

/// A string of a tag is the number of its bytes, in two bytes, and these bytes: as
/// many whole characters of it as that number can count.
pub proof fn law_string_format(text: Seq<char>)
    ensures
        layout::spells(mutf8::nbt_string_bytes(text), string_layout(text)),
        mutf8::text_bytes(mutf8::fitting(text, 65535)).len() <= 65535,
        nbt::payload_bytes(NbtValue::Text(text)) == mutf8::nbt_string_bytes(text),
{
    let kept = mutf8::text_bytes(mutf8::fitting(text, 65535));
    law_fitting_is_longest(text, 65535);
    layout::lemma_front(wire::be16(kept.len() as u16));
    let (s, f) = layout::begin();
    let (s, f) = layout::then_short(s, f, kept.len() as u16);
    let (s, f) = layout::then_raw(s, f, kept);
    assert(f =~= string_layout(text));
}

/// What is kept of a text is its longest front that has room: it is a front, it
/// has room, and with one character more it would not have.
pub proof fn law_fitting_is_longest(text: Seq<char>, room: int)
    requires
        room >= 0,
    ensures
        ({
            let n = mutf8::fitting(text, room).len() as int;
            &&& n <= text.len()
            &&& mutf8::fitting(text, room) == text.take(n)
            &&& mutf8::text_bytes(text.take(n)).len() <= room
            &&& n < text.len() ==> mutf8::text_bytes(text.take(n + 1)).len() > room
        }),
    decreases text.len(),
{
    let kept = mutf8::fitting(text, room);
    let n = kept.len() as int;
    if text.len() == 0 {
        assert(kept =~= text.take(0));
    } else {
        let size = mutf8::char_bytes(text[0]).len() as int;
        let rest = text.skip(1);
        if size > room {
            assert(kept =~= text.take(0));
            let one = text.take(1);
            assert(mutf8::text_bytes(one) =~= mutf8::char_bytes(text[0])) by {
                reveal_with_fuel(mutf8::text_bytes, 2);
            }
        } else {
            law_fitting_is_longest(rest, room - size);
            let m = mutf8::fitting(rest, room - size).len() as int;
            assert(n == m + 1);
            assert(kept =~= text.take(n));
            assert(text.take(n).skip(1) =~= rest.take(m));
            if n < text.len() {
                assert(text.take(n + 1).skip(1) =~= rest.take(m + 1));
            }
        }
    }
}

/// The bytes of a character: one for `U+0001` to `U+007F`, two up to `U+07FF` and
/// for `U+0000`, three up to `U+FFFF`, and beyond it three for each of two
/// surrogates.
pub proof fn law_char_bytes(c: char)
    ensures
        ({
            let cp = c as int;
            let (high, low) = (0xD800 + (cp - 0x1_0000) / 1024, 0xDC00 + (cp - 0x1_0000) % 1024);
            let b = mutf8::char_bytes(c);
            if 1 <= cp <= 0x7F {
                b.len() == 1 && b[0] == cp
            } else if cp <= 0x7FF {
                b.len() == 2 && b[0] == 0xC0 + cp / 64 && b[1] == 0x80 + cp % 64
            } else if cp <= 0xFFFF {
                &&& b.len() == 3
                &&& b[0] == 0xE0 + cp / 4096 && b[1] == 0x80 + cp / 64 % 64 && b[2] == 0x80 + cp
                    % 64
            } else {
                &&& b.len() == 6
                &&& b[0] == 0xE0 + high / 4096 && b[1] == 0x80 + high / 64 % 64 && b[2] == 0x80
                    + high % 64
                &&& b[3] == 0xE0 + low / 4096 && b[4] == 0x80 + low / 64 % 64 && b[5] == 0x80 + low
                    % 64
            }
        }),
{
    let cp = c as u32;
    if cp >= 0x1_0000 {
        let v = (cp - 0x1_0000) as u32;
        lemma_unit(v);
        lemma_unit(mutf8::high_surrogate(cp));
        lemma_unit(mutf8::low_surrogate(cp));
    } else {
        lemma_unit(cp);
    }
}

proof fn lemma_unit(u: u32)
    ensures
        u < 0x80 ==> u as u8 == u,
        u < 0x800 ==> 0xC0 | (u >> 6) as u8 == 0xC0 + u / 64,
        u < 0x800 ==> 0x80 | (u & 0x3F) as u8 == 0x80 + u % 64,
        u < 0x1_0000 ==> 0xE0 | (u >> 12) as u8 == 0xE0 + u / 4096,
        u < 0x1_0000 ==> 0x80 | ((u >> 6) & 0x3F) as u8 == 0x80 + u / 64 % 64,
        u < 0x1_0000 ==> 0x80 | (u & 0x3F) as u8 == 0x80 + u % 64,
        u >> 10 == u / 1024,
        u & 0x3FF == u % 1024,
{
    assert((u < 0x80 ==> (u as u8) as u32 == u) && (u < 0x800 ==> (0xC0u8 | (u >> 6) as u8) as u32
        == 0xC0 + u / 64) && (u < 0x1_0000 ==> (0xE0u8 | (u >> 12) as u8) as u32 == 0xE0 + u / 4096)
        && (u < 0x1_0000 ==> (0x80u8 | ((u >> 6) & 0x3F) as u8) as u32 == 0x80 + u / 64 % 64) && (
    0x80u8 | (u & 0x3F) as u8) as u32 == 0x80 + u % 64 && u >> 10 == u / 1024 && u & 0x3FF == u
        % 1024) by (bit_vector);
}

/// A text is its characters, one after another.
pub proof fn law_text_bytes(a: Seq<char>, b: Seq<char>, c: char)
    ensures
        mutf8::text_bytes(Seq::empty()) == Seq::<u8>::empty(),
        mutf8::text_bytes(seq![c]) == mutf8::char_bytes(c),
        mutf8::text_bytes(a + b) == mutf8::text_bytes(a) + mutf8::text_bytes(b),
    decreases a.len(),
{
    assert(mutf8::text_bytes(seq![c]) =~= mutf8::char_bytes(c)) by {
        reveal_with_fuel(mutf8::text_bytes, 2);
    }
    if a.len() == 0 {
        assert(a + b =~= b);
        assert(mutf8::text_bytes(a + b) =~= mutf8::text_bytes(a) + mutf8::text_bytes(b));
    } else {
        assert((a + b).skip(1) =~= a.skip(1) + b);
        law_text_bytes(a.skip(1), b, c);
        assert(mutf8::text_bytes(a + b) =~= mutf8::text_bytes(a) + mutf8::text_bytes(b));
    }
}

/// An array is its length, in four bytes, and its elements: signed bytes, or
/// numbers of four or of eight bytes.
pub proof fn law_array_format(bytes: Seq<i8>, ints: Seq<i32>, longs: Seq<i64>)
    ensures
        layout::spells(
            nbt::payload_bytes(NbtValue::ByteArray(bytes)),
            seq![Field::Int(bytes.len() as i32)] + Seq::new(
                bytes.len(),
                |i: int| Field::SignedByte(bytes[i]),
            ),
        ),
        layout::spells(
            nbt::payload_bytes(NbtValue::IntArray(ints)),
            seq![Field::Int(ints.len() as i32)] + Seq::new(
                ints.len(),
                |i: int| Field::Int(ints[i]),
            ),
        ),
        layout::spells(
            nbt::payload_bytes(NbtValue::LongArray(longs)),
            seq![Field::Int(longs.len() as i32)] + Seq::new(
                longs.len(),
                |i: int| Field::Long(longs[i]),
            ),
        ),
{
    lemma_bytes(bytes);
    lemma_ints(ints);
    lemma_longs(longs);
    lemma_counted(
        bytes.len() as i32,
        nbt::signed_bytes(bytes),
        Seq::new(bytes.len(), |i: int| Field::SignedByte(bytes[i])),
    );
    lemma_counted(
        ints.len() as i32,
        nbt::ints_bytes(ints),
        Seq::new(ints.len(), |i: int| Field::Int(ints[i])),
    );
    lemma_counted(
        longs.len() as i32,
        writer::longs_bytes(longs),
        Seq::new(longs.len(), |i: int| Field::Long(longs[i])),
    );
}

proof fn lemma_counted(count: i32, content: Seq<u8>, fields: Seq<Field>)
    requires
        layout::spells(content, fields),
    ensures
        layout::spells(wire::be32(count as u32) + content, seq![Field::Int(count)] + fields),
{
    layout::lemma_front(wire::be32(count as u32));
    let (s, f) = layout::begin();
    let (s, f) = layout::then_int(s, f, count);
    layout::lemma_append(s, f, content, fields);
}

proof fn lemma_bytes(v: Seq<i8>)
    ensures
        layout::spells(
            nbt::signed_bytes(v),
            Seq::new(v.len(), |i: int| Field::SignedByte(v[i])),
        ),
    decreases v.len(),
{
    let (s, f) = layout::begin();
    let all = Seq::new(v.len(), |i: int| Field::SignedByte(v[i]));
    if v.len() == 0 {
        assert(nbt::signed_bytes(v) =~= s);
        assert(all =~= f);
    } else {
        let w = v.drop_last();
        lemma_bytes(w);
        let fields = Seq::new(w.len(), |i: int| Field::SignedByte(w[i]));
        let (s, f) = layout::then_signed_byte(nbt::signed_bytes(w), fields, v.last());
        assert(s =~= nbt::signed_bytes(v));
        assert(f =~= all);
    }
}

proof fn lemma_ints(v: Seq<i32>)
    ensures
        layout::spells(nbt::ints_bytes(v), Seq::new(v.len(), |i: int| Field::Int(v[i]))),
    decreases v.len(),
{
    let (s, f) = layout::begin();
    let all = Seq::new(v.len(), |i: int| Field::Int(v[i]));
    if v.len() == 0 {
        assert(all =~= f);
    } else {
        let w = v.drop_last();
        lemma_ints(w);
        let fields = Seq::new(w.len(), |i: int| Field::Int(w[i]));
        let (s, f) = layout::then_int(nbt::ints_bytes(w), fields, v.last());
        assert(f =~= all);
    }
}

/// Numbers of eight bytes, one after another.
pub proof fn lemma_longs(v: Seq<i64>)
    ensures
        layout::spells(writer::longs_bytes(v), Seq::new(v.len(), |i: int| Field::Long(v[i]))),
    decreases v.len(),
{
    let (s, f) = layout::begin();
    let all = Seq::new(v.len(), |i: int| Field::Long(v[i]));
    if v.len() == 0 {
        assert(all =~= f);
    } else {
        let w = v.drop_last();
        lemma_longs(w);
        let fields = Seq::new(w.len(), |i: int| Field::Long(w[i]));
        let (s, f) = layout::then_long(writer::longs_bytes(w), fields, v.last());
        assert(f =~= all);
    }
}

/// A list is the type of its elements, their number, in four bytes, and their
/// payloads, without types or names of their own.
pub proof fn law_list_format(element_type: u8, items: Seq<NbtValue>)
    ensures
        layout::spells(
            nbt::payload_bytes(NbtValue::List(element_type, items)),
            seq![Field::Byte(element_type), Field::Int(items.len() as i32)] + Seq::new(
                items.len(),
                |i: int| Field::Raw(nbt::payload_bytes(items[i])),
            ),
        ),
{
    let count = items.len() as i32;
    let all = Seq::new(items.len(), |i: int| Field::Raw(nbt::payload_bytes(items[i])));
    lemma_items(items);
    layout::lemma_front(seq![element_type]);
    let (s, f) = layout::begin();
    let (s, f) = layout::then_byte(s, f, element_type);
    let (s, f) = layout::then_int(s, f, count);
    layout::lemma_append(s, f, nbt::items_bytes(items), all);
    assert(f + all =~= seq![Field::Byte(element_type), Field::Int(count)] + all);
    let list = NbtValue::List(element_type, items);
    assert(nbt::payload_bytes(list) == s + nbt::items_bytes(items));
}

proof fn lemma_items(items: Seq<NbtValue>)
    ensures
        layout::spells(
            nbt::items_bytes(items),
            Seq::new(items.len(), |i: int| Field::Raw(nbt::payload_bytes(items[i]))),
        ),
    decreases items.len(),
{
    let (s, f) = layout::begin();
    let all = Seq::new(items.len(), |i: int| Field::Raw(nbt::payload_bytes(items[i])));
    if items.len() == 0 {
        assert(all =~= f);
    } else {
        let rest = items.skip(1);
        lemma_items(rest);
        let first = nbt::payload_bytes(items[0]);
        layout::lemma_front(first);
        let (s, f) = layout::then_raw(s, f, first);
        let fields = Seq::new(rest.len(), |i: int| Field::Raw(nbt::payload_bytes(rest[i])));
        layout::lemma_append(s, f, nbt::items_bytes(rest), fields);
        assert(f + fields =~= all);
    }
}

/// The fields of an entry of a compound: the type of the value, the name, and
/// the payload.
pub open spec fn entry_layout(entry: (Seq<char>, NbtValue)) -> Seq<Field> {
    seq![
        Field::Byte(entry.1.type_id()),
        Field::Raw(mutf8::nbt_string_bytes(entry.0)),
        Field::Raw(nbt::payload_bytes(entry.1)),
    ]
}

/// A compound is its entries, in order, each with its type, name and payload,
/// and a zero byte after the last one.
pub proof fn law_compound_format(entries: Seq<(Seq<char>, NbtValue)>)
    ensures
        layout::spells(
            nbt::payload_bytes(NbtValue::Compound(entries)),
            layout::fields_of_each(entries, |e: (Seq<char>, NbtValue)| entry_layout(e)).push(
                Field::Byte(0),
            ),
        ),
{
    lemma_entries(entries);
    let compound = NbtValue::Compound(entries);
    assert(nbt::payload_bytes(compound) == nbt::entries_bytes(entries));
}

proof fn lemma_entries(entries: Seq<(Seq<char>, NbtValue)>)
    ensures
        layout::spells(
            nbt::entries_bytes(entries),
            layout::fields_of_each(entries, |e: (Seq<char>, NbtValue)| entry_layout(e)).push(
                Field::Byte(0),
            ),
        ),
    decreases entries.len(),
{
    let each = |e: (Seq<char>, NbtValue)| entry_layout(e);
    let (s, f) = layout::begin();
    if entries.len() == 0 {
        layout::lemma_front(seq![0u8]);
        let (s, f) = layout::then_byte(s, f, 0);
    } else {
        let rest = entries.skip(1);
        let e = entries[0];
        lemma_entries(rest);
        let id = e.1.type_id();
        layout::lemma_front(seq![id]);
        let (s, f) = layout::then_byte(s, f, id);
        let (s, f) = layout::then_raw(s, f, mutf8::nbt_string_bytes(e.0));
        let (s, f) = layout::then_raw(s, f, nbt::payload_bytes(e.1));
        assert(f =~= entry_layout(e));
        let fields = layout::fields_of_each(rest, each);
        layout::lemma_append(s, f, nbt::entries_bytes(rest), fields.push(Field::Byte(0)));
        lemma_fields_front(entries);
        assert(f + fields.push(Field::Byte(0)) =~= layout::fields_of_each(entries, each).push(
            Field::Byte(0),
        ));
    }
}

proof fn lemma_fields_front(entries: Seq<(Seq<char>, NbtValue)>)
    requires
        entries.len() > 0,
    ensures
        layout::fields_of_each(entries, |e: (Seq<char>, NbtValue)| entry_layout(e))
            == entry_layout(entries[0]) + layout::fields_of_each(
            entries.skip(1),
            |e: (Seq<char>, NbtValue)| entry_layout(e),
        ),
    decreases entries.len(),
{
    let each = |e: (Seq<char>, NbtValue)| entry_layout(e);
    if entries.len() == 1 {
        let none = entries.drop_last();
        assert(layout::fields_of_each(none, each) =~= Seq::<Field>::empty());
        assert(layout::fields_of_each(entries.skip(1), each) =~= Seq::<Field>::empty());
        assert(layout::fields_of_each(entries, each) =~= entry_layout(entries[0]));
        assert(entry_layout(entries[0]) + Seq::<Field>::empty() =~= entry_layout(entries[0]));
    } else {
        lemma_fields_front(entries.drop_last());
        assert(entries.drop_last().skip(1) =~= entries.skip(1).drop_last());
        assert(layout::fields_of_each(entries, each) =~= entry_layout(entries[0])
            + layout::fields_of_each(entries.skip(1), each));
    }
}

/// The network form of a tag is the byte of its type and its payload; the file
/// form has the name, as a string, between the two.
pub proof fn law_root_forms(name: Seq<char>, value: NbtValue)
    ensures
        layout::spells(
            nbt::network_bytes(value),
            seq![Field::Byte(value.type_id()), Field::Raw(nbt::payload_bytes(value))],
        ),
        layout::spells(
            nbt::named_bytes(name, value),
            seq![
                Field::Byte(value.type_id()),
                Field::Raw(mutf8::nbt_string_bytes(name)),
                Field::Raw(nbt::payload_bytes(value)),
            ],
        ),
{
    layout::lemma_front(seq![value.type_id()]);
    let (s, f) = layout::begin();
    let (s, f) = layout::then_byte(s, f, value.type_id());
    let (t, g) = layout::then_raw(s, f, nbt::payload_bytes(value));
    assert(g =~= seq![Field::Byte(value.type_id()), Field::Raw(nbt::payload_bytes(value))]);
    let (s, f) = layout::then_raw(s, f, mutf8::nbt_string_bytes(name));
    let (s, f) = layout::then_raw(s, f, nbt::payload_bytes(value));
    assert(f =~= seq![
        Field::Byte(value.type_id()),
        Field::Raw(mutf8::nbt_string_bytes(name)),
        Field::Raw(nbt::payload_bytes(value)),
    ]);
}

/// What is no tag is refused: nothing at all, an end marker in place of a tag,
/// and a type that there is not.
pub proof fn law_no_tag_is_refused(id: u8, tail: Seq<u8>)
    ensures
        nbt::parse_network(Seq::empty()).0 is Err,
        nbt::parse_network(seq![0u8] + tail).0 == Err::<NbtValue, ProtocolError>(
            ProtocolError::Nbt("root tag is TAG_End"),
        ),
        id > 12 ==> nbt::parse_network(seq![id] + tail).0 == Err::<NbtValue, ProtocolError>(
            ProtocolError::InvalidEnum { kind: "NBT tag type", value: id as i64 },
        ),
{
    reveal(nbt::parse_leaf);
    assert((seq![id] + tail).skip(1) =~= tail);
}

/// Whole numbers of every width are read as the number that they are; of any
/// other tag there is none.
pub proof fn law_whole_numbers_widen(a: i8, b: i16, c: i32, d: i64, value: NbtValue)
    ensures
        nbt::whole(NbtValue::Byte(a)) matches Some(n) && n == a,
        nbt::whole(NbtValue::Short(b)) matches Some(n) && n == b,
        nbt::whole(NbtValue::Int(c)) matches Some(n) && n == c,
        nbt::whole(NbtValue::Long(d)) matches Some(n) && n == d,
        value.type_id() > 4 ==> nbt::whole(value) is None,
{
}

} // verus!
