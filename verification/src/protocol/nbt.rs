//! Binary NBT, in both the file and network encodings.
//!
//! Two details need care:
//!
//! * **Network NBT has no root name.** A network root is written as a bare type
//!   byte followed by its payload, where the file format writes a type byte, a
//!   name, and then the payload.
//! * **Strings are Java's "modified UTF-8", not UTF-8.** See
//!   [`mutf8`](crate::protocol::mutf8).

use vstd::prelude::*;

pub use crate::protocol::mutf8::{decode_modified_utf8, modified_utf8_len};
use crate::protocol::error::{ProtocolError, Result};
use crate::protocol::mutf8::{read_modified_utf8, write_modified_utf8, MAX_TEXT_BYTES};
use crate::protocol::mutf8;
use crate::protocol::reader::{PacketReader, Parse};
use crate::protocol::reader;
use crate::protocol::types::{Float32, Float64, Uuid};
use crate::protocol::wire;
use crate::protocol::writer::PacketWrite;
use crate::protocol::writer;

verus! {

pub const TAG_END: u8 = 0;

pub const TAG_BYTE: u8 = 1;

pub const TAG_SHORT: u8 = 2;

pub const TAG_INT: u8 = 3;

pub const TAG_LONG: u8 = 4;

pub const TAG_FLOAT: u8 = 5;

pub const TAG_DOUBLE: u8 = 6;

pub const TAG_BYTE_ARRAY: u8 = 7;

pub const TAG_STRING: u8 = 8;

pub const TAG_LIST: u8 = 9;

pub const TAG_COMPOUND: u8 = 10;

pub const TAG_INT_ARRAY: u8 = 11;

pub const TAG_LONG_ARRAY: u8 = 12;

/// Nesting limit. Decoding is recursive, so without this a few kilobytes of
/// nested lists would overflow the stack.
pub const MAX_DEPTH: usize = 512;

/// Cap on any single array payload, to bound allocation from a bad length.
pub const MAX_ARRAY_LEN: usize = 0x100_0000;

/// What a tag holds.
pub enum NbtValue {
    Byte(i8),
    Short(i16),
    Int(i32),
    Long(i64),
    Float(Float32),
    Double(Float64),
    ByteArray(Seq<i8>),
    Text(Seq<char>),
    /// An element type and the elements.
    List(u8, Seq<NbtValue>),
    /// Names and values, in order.
    Compound(Seq<(Seq<char>, NbtValue)>),
    IntArray(Seq<i32>),
    LongArray(Seq<i64>),
}

impl NbtValue {
    pub open spec fn type_id(self) -> u8 {
        match self {
            NbtValue::Byte(_) => TAG_BYTE,
            NbtValue::Short(_) => TAG_SHORT,
            NbtValue::Int(_) => TAG_INT,
            NbtValue::Long(_) => TAG_LONG,
            NbtValue::Float(_) => TAG_FLOAT,
            NbtValue::Double(_) => TAG_DOUBLE,
            NbtValue::ByteArray(_) => TAG_BYTE_ARRAY,
            NbtValue::Text(_) => TAG_STRING,
            NbtValue::List(_, _) => TAG_LIST,
            NbtValue::Compound(_) => TAG_COMPOUND,
            NbtValue::IntArray(_) => TAG_INT_ARRAY,
            NbtValue::LongArray(_) => TAG_LONG_ARRAY,
        }
    }
}

#[derive(Debug, PartialEq)]
pub enum NbtTag {
    Byte(i8),
    Short(i16),
    Int(i32),
    Long(i64),
    Float(Float32),
    Double(Float64),
    ByteArray(Vec<i8>),
    String(String),
    List(NbtList),
    Compound(NbtCompound),
    IntArray(Vec<i32>),
    LongArray(Vec<i64>),
}

/// A homogeneous NBT list.
///
/// The element type is stored rather than derived, because an empty list still
/// carries one on the wire and round-tripping must preserve it.
#[derive(Debug, PartialEq)]
pub struct NbtList {
    element_type: u8,
    items: Vec<NbtTag>,
}

/// An NBT compound.
///
/// Backed by an insertion-ordered `Vec` rather than a hash map: compounds in
/// practice hold a handful of keys, and preserving order keeps encodings
/// reproducible.
#[derive(Debug, PartialEq)]
pub struct NbtCompound {
    entries: Vec<(String, NbtTag)>,
}

/// What a tag holds.
pub open spec fn tag_value(tag: NbtTag) -> NbtValue
    decreases tag,
{
    match tag {
        NbtTag::Byte(v) => NbtValue::Byte(v),
        NbtTag::Short(v) => NbtValue::Short(v),
        NbtTag::Int(v) => NbtValue::Int(v),
        NbtTag::Long(v) => NbtValue::Long(v),
        NbtTag::Float(v) => NbtValue::Float(v),
        NbtTag::Double(v) => NbtValue::Double(v),
        NbtTag::ByteArray(v) => NbtValue::ByteArray(v@),
        NbtTag::String(v) => NbtValue::Text(v@),
        NbtTag::List(list) => NbtValue::List(list_value(list).0, list_value(list).1),
        NbtTag::Compound(compound) => NbtValue::Compound(compound_value(compound)),
        NbtTag::IntArray(v) => NbtValue::IntArray(v@),
        NbtTag::LongArray(v) => NbtValue::LongArray(v@),
    }
}

/// The element type of a list, and what its elements hold.
pub closed spec fn list_value(list: NbtList) -> (u8, Seq<NbtValue>)
    decreases list,
{
    (
        list.element_type,
        Seq::new(
            list.items@.len(),
            |i: int|
                if 0 <= i < list.items@.len() {
                    tag_value(list.items@[i])
                } else {
                    NbtValue::Byte(0)
                },
        ),
    )
}

/// The names in a compound with what their values hold, in order.
pub closed spec fn compound_value(compound: NbtCompound) -> Seq<(Seq<char>, NbtValue)>
    decreases compound,
{
    Seq::new(
        compound.entries@.len(),
        |i: int|
            if 0 <= i < compound.entries@.len() {
                (compound.entries@[i].0@, tag_value(compound.entries@[i].1))
            } else {
                (Seq::empty(), NbtValue::Byte(0))
            },
    )
}

impl View for NbtTag {
    type V = NbtValue;

    open spec fn view(&self) -> NbtValue {
        tag_value(*self)
    }
}

impl View for NbtList {
    type V = (u8, Seq<NbtValue>);

    open spec fn view(&self) -> (u8, Seq<NbtValue>) {
        list_value(*self)
    }
}

impl View for NbtCompound {
    type V = Seq<(Seq<char>, NbtValue)>;

    open spec fn view(&self) -> Seq<(Seq<char>, NbtValue)> {
        compound_value(*self)
    }
}

// ---------------------------------------------------------------------------
// The format
// ---------------------------------------------------------------------------

/// Signed bytes one after the other.
pub open spec fn signed_bytes(values: Seq<i8>) -> Seq<u8> {
    Seq::new(values.len(), |i: int| values[i] as u8)
}

/// 32-bit numbers one after the other.
pub open spec fn ints_bytes(values: Seq<i32>) -> Seq<u8>
    decreases values.len(),
{
    if values.len() == 0 {
        Seq::empty()
    } else {
        ints_bytes(values.drop_last()) + wire::be32(values.last() as u32)
    }
}

/// The length of an array or a list.
pub open spec fn len_bytes(len: nat) -> Seq<u8> {
    wire::be32(len as i32 as u32)
}

/// The payload of a tag: everything but its type and name.
pub open spec fn payload_bytes(value: NbtValue) -> Seq<u8>
    decreases value,
{
    match value {
        NbtValue::Byte(v) => seq![v as u8],
        NbtValue::Short(v) => wire::be16(v as u16),
        NbtValue::Int(v) => wire::be32(v as u32),
        NbtValue::Long(v) => wire::be64(v as u64),
        NbtValue::Float(v) => wire::be32(v.bits),
        NbtValue::Double(v) => wire::be64(v.bits),
        NbtValue::ByteArray(v) => len_bytes(v.len()) + signed_bytes(v),
        NbtValue::Text(v) => mutf8::nbt_string_bytes(v),
        NbtValue::List(element_type, items) => seq![element_type] + len_bytes(items.len())
            + items_bytes(items),
        NbtValue::Compound(entries) => entries_bytes(entries),
        NbtValue::IntArray(v) => len_bytes(v.len()) + ints_bytes(v),
        NbtValue::LongArray(v) => len_bytes(v.len()) + writer::longs_bytes(v),
    }
}

/// The payloads of the elements of a list.
pub open spec fn items_bytes(items: Seq<NbtValue>) -> Seq<u8>
    decreases items,
{
    if items.len() == 0 {
        Seq::empty()
    } else {
        payload_bytes(items[0]) + items_bytes(items.skip(1))
    }
}

/// The entries of a compound, each with its type, name and payload, and the end
/// marker.
pub open spec fn entries_bytes(entries: Seq<(Seq<char>, NbtValue)>) -> Seq<u8>
    decreases entries,
{
    if entries.len() == 0 {
        seq![TAG_END]
    } else {
        seq![entries[0].1.type_id()] + mutf8::nbt_string_bytes(entries[0].0)
            + payload_bytes(entries[0].1)
            + entries_bytes(entries.skip(1))
    }
}

/// A tag in the network encoding: type byte, then payload, no root name.
pub open spec fn network_bytes(value: NbtValue) -> Seq<u8> {
    seq![value.type_id()] + payload_bytes(value)
}

/// A tag in the file encoding: type byte, root name, then payload.
pub open spec fn named_bytes(name: Seq<char>, value: NbtValue) -> Seq<u8> {
    seq![value.type_id()] + mutf8::nbt_string_bytes(name) + payload_bytes(value)
}

/// The place of `key` among `entries`, or their number where it is absent.
pub open spec fn key_index(entries: Seq<(Seq<char>, NbtValue)>, key: Seq<char>) -> nat
    decreases entries.len(),
{
    if entries.len() == 0 || entries[0].0 == key {
        0
    } else {
        1 + key_index(entries.skip(1), key)
    }
}

/// The entries after `key` was set to `value`: in its place where the key was
/// there, else at the end.
pub open spec fn entries_with(
    entries: Seq<(Seq<char>, NbtValue)>,
    key: Seq<char>,
    value: NbtValue,
) -> Seq<(Seq<char>, NbtValue)> {
    let i = key_index(entries, key) as int;
    if i < entries.len() {
        entries.update(i, (key, value))
    } else {
        entries.push((key, value))
    }
}

/// No key occurs twice.
pub open spec fn distinct_keys(entries: Seq<(Seq<char>, NbtValue)>) -> bool {
    forall|i: int, j: int|
        0 <= i < entries.len() && 0 <= j < entries.len() && i != j ==> (#[trigger] entries[i]).0
            != (#[trigger] entries[j]).0
}

/// The length of an array or a list: not negative and not over the cap.
pub open spec fn parse_len(s: Seq<u8>) -> Parse<usize> {
    match reader::parse_i32(s) {
        (Err(e), t) => (Err(e), t),
        (Ok(len), t) => if len < 0 {
            (Err(ProtocolError::NegativeLength(len)), t)
        } else if len > MAX_ARRAY_LEN {
            (Err(ProtocolError::LengthLimitExceeded { len: len as usize, max: MAX_ARRAY_LEN }), t)
        } else {
            (Ok(len as usize), t)
        },
    }
}

/// The payload of a tag that holds no other tags.
#[verifier::opaque]
pub open spec fn parse_leaf(s: Seq<u8>, type_id: u8) -> Parse<NbtValue> {
    if type_id == TAG_BYTE {
        match reader::parse_i8(s) {
            (Err(e), t) => (Err(e), t),
            (Ok(v), t) => (Ok(NbtValue::Byte(v)), t),
        }
    } else if type_id == TAG_SHORT {
        match reader::parse_i16(s) {
            (Err(e), t) => (Err(e), t),
            (Ok(v), t) => (Ok(NbtValue::Short(v)), t),
        }
    } else if type_id == TAG_INT {
        match reader::parse_i32(s) {
            (Err(e), t) => (Err(e), t),
            (Ok(v), t) => (Ok(NbtValue::Int(v)), t),
        }
    } else if type_id == TAG_LONG {
        match reader::parse_i64(s) {
            (Err(e), t) => (Err(e), t),
            (Ok(v), t) => (Ok(NbtValue::Long(v)), t),
        }
    } else if type_id == TAG_FLOAT {
        match reader::parse_f32(s) {
            (Err(e), t) => (Err(e), t),
            (Ok(v), t) => (Ok(NbtValue::Float(v)), t),
        }
    } else if type_id == TAG_DOUBLE {
        match reader::parse_f64(s) {
            (Err(e), t) => (Err(e), t),
            (Ok(v), t) => (Ok(NbtValue::Double(v)), t),
        }
    } else if type_id == TAG_BYTE_ARRAY {
        match parse_len(s) {
            (Err(e), t) => (Err(e), t),
            (Ok(len), t) => match reader::parse_bytes(t, len) {
                (Err(e), u) => (Err(e), u),
                (Ok(bytes), u) => (
                    Ok(NbtValue::ByteArray(Seq::new(bytes.len(), |i: int| bytes[i] as i8))),
                    u,
                ),
            },
        }
    } else if type_id == TAG_STRING {
        match mutf8::parse_nbt_string(s) {
            (Err(e), t) => (Err(e), t),
            (Ok(v), t) => (Ok(NbtValue::Text(v)), t),
        }
    } else if type_id == TAG_INT_ARRAY {
        match parse_len(s) {
            (Err(e), t) => (Err(e), t),
            (Ok(len), t) => match reader::parse_items(
                t,
                len as nat,
                |u: Seq<u8>| reader::parse_i32(u),
            ) {
                (Err(e), u) => (Err(e), u),
                (Ok(v), u) => (Ok(NbtValue::IntArray(v)), u),
            },
        }
    } else if type_id == TAG_LONG_ARRAY {
        match parse_len(s) {
            (Err(e), t) => (Err(e), t),
            (Ok(len), t) => match reader::parse_items(
                t,
                len as nat,
                |u: Seq<u8>| reader::parse_i64(u),
            ) {
                (Err(e), u) => (Err(e), u),
                (Ok(v), u) => (Ok(NbtValue::LongArray(v)), u),
            },
        }
    } else {
        (Err(ProtocolError::InvalidEnum { kind: "NBT tag type", value: type_id as i64 }), s)
    }
}

/// The type and the length of a list.
pub open spec fn parse_list_head(s: Seq<u8>) -> Parse<(u8, usize)> {
    match reader::parse_u8(s) {
        (Err(e), t) => (Err(e), t),
        (Ok(element_type), t) => match parse_len(t) {
            (Err(e), u) => (Err(e), u),
            (Ok(len), u) => if element_type == TAG_END && len > 0 {
                (Err(ProtocolError::Nbt("non-empty list of TAG_End")), u)
            } else {
                (Ok((element_type, len)), u)
            },
        },
    }
}

/// The payload of a tag of type `type_id`. `levels` is how many levels of
/// nesting, its own included, are still allowed.
pub open spec fn parse_payload(s: Seq<u8>, type_id: u8, levels: nat) -> Parse<NbtValue>
    decreases levels, 0nat,
{
    if levels == 0 {
        (Err(ProtocolError::NbtTooDeep { max: MAX_DEPTH }), s)
    } else if type_id == TAG_LIST {
        match parse_list_head(s) {
            (Err(e), t) => (Err(e), t),
            (Ok((element_type, len)), t) => match parse_elements(
                t,
                element_type,
                len as nat,
                (levels - 1) as nat,
                Seq::empty(),
            ) {
                (Err(e), u) => (Err(e), u),
                (Ok(items), u) => (Ok(NbtValue::List(element_type, items)), u),
            },
        }
    } else if type_id == TAG_COMPOUND {
        match parse_entries(s, (levels - 1) as nat, Seq::empty()) {
            (Err(e), t) => (Err(e), t),
            (Ok(entries), t) => (Ok(NbtValue::Compound(entries)), t),
        }
    } else {
        parse_leaf(s, type_id)
    }
}

/// `n` more elements of a list, after those already read.
pub open spec fn parse_elements(
    s: Seq<u8>,
    element_type: u8,
    n: nat,
    levels: nat,
    read: Seq<NbtValue>,
) -> Parse<Seq<NbtValue>>
    decreases levels, n + 1,
{
    if n == 0 {
        (Ok(read), s)
    } else {
        match parse_payload(s, element_type, levels) {
            (Err(e), t) => (Err(e), t),
            (Ok(v), t) => parse_elements(t, element_type, (n - 1) as nat, levels, read.push(v)),
        }
    }
}

/// The entries of a compound up to its end marker, after those already read. A
/// key that comes again replaces its value.
pub open spec fn parse_entries(
    s: Seq<u8>,
    levels: nat,
    read: Seq<(Seq<char>, NbtValue)>,
) -> Parse<Seq<(Seq<char>, NbtValue)>>
    decreases levels, s.len() + 1,
{
    match reader::parse_u8(s) {
        (Err(e), t) => (Err(e), t),
        (Ok(entry_type), t) => if entry_type == TAG_END {
            (Ok(read), t)
        } else {
            match mutf8::parse_nbt_string(t) {
                (Err(e), u) => (Err(e), u),
                (Ok(name), u) => match parse_payload(u, entry_type, levels) {
                    (Err(e), w) => (Err(e), w),
                    (Ok(v), w) => if w.len() < s.len() {
                        parse_entries(w, levels, entries_with(read, name, v))
                    } else {
                        arbitrary()
                    },
                },
            }
        },
    }
}

/// A tag in the network encoding.
pub open spec fn parse_network(s: Seq<u8>) -> Parse<NbtValue> {
    match reader::parse_u8(s) {
        (Err(e), t) => (Err(e), t),
        (Ok(type_id), t) => if type_id == TAG_END {
            (Err(ProtocolError::Nbt("root tag is TAG_End")), t)
        } else {
            parse_payload(t, type_id, (MAX_DEPTH + 1) as nat)
        },
    }
}

/// A tag in the file encoding, with its root name.
pub open spec fn parse_named(s: Seq<u8>) -> Parse<(Seq<char>, NbtValue)> {
    match reader::parse_u8(s) {
        (Err(e), t) => (Err(e), t),
        (Ok(type_id), t) => if type_id == TAG_END {
            (Err(ProtocolError::Nbt("root tag is TAG_End")), t)
        } else {
            match mutf8::parse_nbt_string(t) {
                (Err(e), u) => (Err(e), u),
                (Ok(name), u) => match parse_payload(u, type_id, (MAX_DEPTH + 1) as nat) {
                    (Err(e), w) => (Err(e), w),
                    (Ok(v), w) => (Ok((name, v)), w),
                },
            }
        },
    }
}

// ---------------------------------------------------------------------------
// Tags
// ---------------------------------------------------------------------------

impl NbtTag {
    #[must_use]
    pub fn type_id(&self) -> (id: u8)
        ensures
            id == self@.type_id(),
    {
        match self {
            NbtTag::Byte(_) => TAG_BYTE,
            NbtTag::Short(_) => TAG_SHORT,
            NbtTag::Int(_) => TAG_INT,
            NbtTag::Long(_) => TAG_LONG,
            NbtTag::Float(_) => TAG_FLOAT,
            NbtTag::Double(_) => TAG_DOUBLE,
            NbtTag::ByteArray(_) => TAG_BYTE_ARRAY,
            NbtTag::String(_) => TAG_STRING,
            NbtTag::List(_) => TAG_LIST,
            NbtTag::Compound(_) => TAG_COMPOUND,
            NbtTag::IntArray(_) => TAG_INT_ARRAY,
            NbtTag::LongArray(_) => TAG_LONG_ARRAY,
        }
    }

    #[must_use]
    pub fn as_compound(&self) -> (compound: Option<&NbtCompound>)
        ensures
            compound == (match *self {
                NbtTag::Compound(c) => Some(&c),
                _ => None,
            }),
    {
        match self {
            NbtTag::Compound(c) => Some(c),
            _ => None,
        }
    }

    #[must_use]
    pub fn as_str(&self) -> (text: Option<&str>)
        ensures
            match self@ {
                NbtValue::Text(t) => text is Some && text->0@ == t,
                _ => text is None,
            },
    {
        match self {
            NbtTag::String(s) => Some(s.as_str()),
            _ => None,
        }
    }

    /// Reads the integer value of any integral tag, widening to `i64`.
    #[must_use]
    pub fn as_i64(&self) -> (value: Option<i64>)
        ensures
            value == (match self@ {
                NbtValue::Byte(v) => Some(v as i64),
                NbtValue::Short(v) => Some(v as i64),
                NbtValue::Int(v) => Some(v as i64),
                NbtValue::Long(v) => Some(v),
                _ => None,
            }),
            value == whole(self@),
    {
        match self {
            NbtTag::Byte(v) => Some(*v as i64),
            NbtTag::Short(v) => Some(*v as i64),
            NbtTag::Int(v) => Some(*v as i64),
            NbtTag::Long(v) => Some(*v),
            _ => None,
        }
    }
}

/// The number of a tag that holds a whole one.
pub open spec fn whole(value: NbtValue) -> Option<i64> {
    match value {
        NbtValue::Byte(v) => Some(v as i64),
        NbtValue::Short(v) => Some(v as i64),
        NbtValue::Int(v) => Some(v as i64),
        NbtValue::Long(v) => Some(v),
        _ => None,
    }
}

/// A tag is sound, as every tag is: the lists and compounds in it are by
/// themselves.
fn check_sound(tag: &NbtTag)
    ensures
        sound(tag@),
{
    match tag {
        NbtTag::List(list) => {
            proof {
                use_type_invariant(list);
            }
        },
        NbtTag::Compound(compound) => {
            proof {
                use_type_invariant(compound);
            }
        },
        _ => {},
    }
}

impl NbtList {
    /// The elements are of the list's type, and each of them is sound.
    #[verifier::type_invariant]
    spec fn valid(self) -> bool {
        sound(NbtValue::List(self@.0, self@.1))
    }

    /// An empty list, which is written with an element type of `TAG_End`.
    #[must_use]
    pub fn empty() -> (list: Self)
        ensures
            list@ == (TAG_END, Seq::<NbtValue>::empty()),
    {
        let list = NbtList { element_type: TAG_END, items: Vec::new() };
        assert(list@.1 =~= Seq::<NbtValue>::empty());
        list
    }

    /// Builds a list from tags, which must all share one type.
    ///
    /// Returns `None` for a mixed-type list, which NBT cannot represent.
    #[must_use]
    pub fn new(items: Vec<NbtTag>) -> (list: Option<Self>)
        ensures
            list is Some <==> forall|i: int|
                0 <= i < items@.len() ==> (#[trigger] items@[i])@.type_id() == items@[0]@.type_id(),
            list matches Some(l) ==> l@.0 == (if items@.len() == 0 {
                TAG_END
            } else {
                items@[0]@.type_id()
            }) && l@.1 == Seq::new(items@.len(), |i: int| items@[i]@),
    {
        if items.len() == 0 {
            let list = NbtList::empty();
            assert(list@.1 =~= Seq::new(items@.len(), |i: int| items@[i]@));
            return Some(list);
        }
        let element_type: u8 = items[0].type_id();
        let mut i: usize = 0;
        while i < items.len()
            invariant
                i <= items@.len(),
                element_type == items@[0]@.type_id(),
                forall|k: int|
                    0 <= k < i ==> (#[trigger] items@[k])@.type_id() == element_type && sound(
                        items@[k]@,
                    ),
            decreases items@.len() - i,
        {
            if items[i].type_id() != element_type {
                return None;
            }
            check_sound(&items[i]);
            i += 1;
        }
        let list = NbtList { element_type, items };
        assert(list@.1 =~= Seq::new(items@.len(), |i: int| items@[i]@));
        Some(list)
    }

    #[must_use]
    pub fn element_type(&self) -> (id: u8)
        ensures
            id == self@.0,
    {
        self.element_type
    }

    /// The elements. All of them have the list's element type.
    #[must_use]
    pub fn items(&self) -> (items: &[NbtTag])
        ensures
            items@.len() == self@.1.len(),
            forall|i: int| 0 <= i < items@.len() ==> (#[trigger] items@[i])@ == self@.1[i],
            forall|i: int| 0 <= i < items@.len() ==> (#[trigger] items@[i])@.type_id() == self@.0,
    {
        proof {
            use_type_invariant(self);
            lemma_elements_typed(self@.0, self@.1);
            assert forall|i: int| 0 <= i < self.items@.len() implies (
            #[trigger] self.items@[i])@.type_id() == self@.0 by {
                assert(self@.1[i] == self.items@[i]@);
            }
        }
        self.items.as_slice()
    }

    #[must_use]
    pub fn len(&self) -> (len: usize)
        ensures
            len == self@.1.len(),
    {
        self.items.len()
    }

    #[must_use]
    pub fn is_empty(&self) -> (empty: bool)
        ensures
            empty == (self@.1.len() == 0),
    {
        self.items.len() == 0
    }
}

impl NbtCompound {
    /// No key occurs twice, and every value is sound.
    #[verifier::type_invariant]
    spec fn valid(self) -> bool {
        sound(NbtValue::Compound(self@))
    }

    #[must_use]
    pub fn new() -> (compound: Self)
        ensures
            compound@ == Seq::<(Seq<char>, NbtValue)>::empty(),
    {
        let compound = NbtCompound { entries: Vec::new() };
        assert(compound@ =~= Seq::<(Seq<char>, NbtValue)>::empty());
        compound
    }

    #[must_use]
    pub fn with_capacity(capacity: usize) -> (compound: Self)
        ensures
            compound@ == Seq::<(Seq<char>, NbtValue)>::empty(),
    {
        let compound = NbtCompound { entries: Vec::with_capacity(capacity) };
        assert(compound@ =~= Seq::<(Seq<char>, NbtValue)>::empty());
        compound
    }

    /// The place of `key`, or the number of entries where it is absent.
    fn find(&self, key: &str) -> (place: usize)
        ensures
            place == key_index(self@, key@),
            place <= self@.len(),
            place < self@.len() ==> self@[place as int].0 == key@,
    {
        let mut i: usize = 0;
        assert(self@.skip(0) =~= self@);
        while i < self.entries.len()
            invariant
                i <= self.entries@.len(),
                self@.len() == self.entries@.len(),
                key_index(self@, key@) == i + key_index(self@.skip(i as int), key@),
            decreases self.entries@.len() - i,
        {
            assert(self@.skip(i as int)[0] == self@[i as int]);
            assert(self@.skip(i as int).skip(1) =~= self@.skip(i + 1));
            if same_text(self.entries[i].0.as_str(), key) {
                return i;
            }
            i += 1;
        }
        i
    }

    /// Sets `key` to `value`, replacing any existing entry with the same key.
    pub fn put(&mut self, key: String, value: NbtTag)
        ensures
            final(self)@ == entries_with(old(self)@, key@, value@),
    {
        proof {
            use_type_invariant(&*self);
            lemma_set_sound(self@, key@, value@);
        }
        check_sound(&value);
        let i: usize = self.find(key.as_str());
        let mut entries: Vec<(String, NbtTag)> = Vec::new();
        std::mem::swap(&mut entries, &mut self.entries);
        if i < entries.len() {
            entries.set(i, (key, value));
        } else {
            entries.push((key, value));
        }
        assert(NbtCompound { entries }@ =~= entries_with(old(self)@, key@, value@));
        self.entries = entries;
        assert(self@ =~= entries_with(old(self)@, key@, value@));
    }

    /// Inserts a value, replacing any existing entry with the same key.
    pub fn insert<K: Into<String>, V: Into<NbtTag>>(
        &mut self,
        key: K,
        value: V,
    ) -> (same: &mut Self)
        ensures
            *final(self) == *final(same),
            exists|k: String, v: NbtTag|
                #![trigger call_ensures(K::into, (key,), k), call_ensures(V::into, (value,), v)]
                call_ensures(K::into, (key,), k) && call_ensures(V::into, (value,), v) && (*same)@
                    == entries_with(old(self)@, k@, v@),
    {
        let key: String = key.into();
        let value: NbtTag = value.into();
        self.put(key, value);
        self
    }

    #[must_use]
    pub fn get(&self, key: &str) -> (value: Option<&NbtTag>)
        ensures
            match value {
                Some(v) => key_index(self@, key@) < self@.len() && v@ == self@[key_index(
                    self@,
                    key@,
                ) as int].1,
                None => key_index(self@, key@) == self@.len(),
            },
    {
        let i: usize = self.find(key);
        if i < self.entries.len() {
            Some(&self.entries[i].1)
        } else {
            None
        }
    }

    #[must_use]
    pub fn contains_key(&self, key: &str) -> (found: bool)
        ensures
            found == exists|i: int| 0 <= i < self@.len() && (#[trigger] self@[i]).0 == key@,
    {
        proof {
            lemma_key_index(self@, key@);
        }
        self.get(key).is_some()
    }

    /// The entries in the order of their insertion.
    pub fn iter(&self) -> (entries: std::slice::Iter<'_, (String, NbtTag)>)
        ensures
            exists|all: &[(String, NbtTag)]|
                #![trigger vstd::std_specs::slice::spec_slice_iter(all)]
                entries == vstd::std_specs::slice::spec_slice_iter(all) && all@.len() == self@.len()
                    && forall|i: int|
                    0 <= i < all@.len() ==> ((#[trigger] all@[i]).0@, all@[i].1@) == self@[i],
    {
        let all = self.entries.as_slice();
        all.iter()
    }

    #[must_use]
    pub fn len(&self) -> (len: usize)
        ensures
            len == self@.len(),
    {
        self.entries.len()
    }

    #[must_use]
    pub fn is_empty(&self) -> (empty: bool)
        ensures
            empty == (self@.len() == 0),
    {
        self.entries.len() == 0
    }
}

impl Default for NbtCompound {
    fn default() -> (compound: Self)
        ensures
            compound@ == Seq::<(Seq<char>, NbtValue)>::empty(),
    {
        NbtCompound::new()
    }
}

fn copy_tag(tag: &NbtTag) -> (copy: NbtTag)
    ensures
        copy@ == tag@,
    decreases tag,
{
    match tag {
        NbtTag::Byte(v) => NbtTag::Byte(*v),
        NbtTag::Short(v) => NbtTag::Short(*v),
        NbtTag::Int(v) => NbtTag::Int(*v),
        NbtTag::Long(v) => NbtTag::Long(*v),
        NbtTag::Float(v) => NbtTag::Float(*v),
        NbtTag::Double(v) => NbtTag::Double(*v),
        NbtTag::ByteArray(v) => {
            let mut copy: Vec<i8> = Vec::new();
            copy.extend_from_slice(v.as_slice());
            assert(copy@ =~= v@);
            NbtTag::ByteArray(copy)
        },
        NbtTag::String(v) => NbtTag::String(v.clone()),
        NbtTag::List(list) => {
            assert(decreases_to!(*tag => tag->List_0));
            NbtTag::List(copy_list(list))
        },
        NbtTag::Compound(compound) => {
            assert(decreases_to!(*tag => tag->Compound_0));
            NbtTag::Compound(copy_compound(compound))
        },
        NbtTag::IntArray(v) => {
            let mut copy: Vec<i32> = Vec::new();
            copy.extend_from_slice(v.as_slice());
            assert(copy@ =~= v@);
            NbtTag::IntArray(copy)
        },
        NbtTag::LongArray(v) => {
            let mut copy: Vec<i64> = Vec::new();
            copy.extend_from_slice(v.as_slice());
            assert(copy@ =~= v@);
            NbtTag::LongArray(copy)
        },
    }
}

fn copy_list(list: &NbtList) -> (copy: NbtList)
    ensures
        copy@ == list@,
    decreases list,
{
    proof {
        use_type_invariant(list);
    }
    let mut items: Vec<NbtTag> = Vec::new();
    let mut i: usize = 0;
    while i < list.items.len()
        invariant
            i <= list.items@.len(),
            list.valid(),
            items@.len() == i,
            forall|k: int| 0 <= k < i ==> tag_value(#[trigger] items@[k])
                == tag_value(list.items@[k]),
        decreases list.items@.len() - i,
    {
        assert(decreases_to!(*list => list.items));
        assert(decreases_to!(list.items => list.items@));
        assert(decreases_to!(list.items@ => list.items@[i as int]));
        let item = copy_tag(&list.items[i]);
        items.push(item);
        i += 1;
    }
    assert(NbtList { element_type: list.element_type, items }@.1 =~= list@.1);
    let copy = NbtList { element_type: list.element_type, items };
    copy
}

fn copy_compound(compound: &NbtCompound) -> (copy: NbtCompound)
    ensures
        copy@ == compound@,
    decreases compound,
{
    proof {
        use_type_invariant(compound);
    }
    let mut entries: Vec<(String, NbtTag)> = Vec::new();
    let mut i: usize = 0;
    while i < compound.entries.len()
        invariant
            i <= compound.entries@.len(),
            compound.valid(),
            entries@.len() == i,
            forall|k: int|
                0 <= k < i ==> (#[trigger] entries@[k]).0@ == compound.entries@[k].0@ && tag_value(
                    entries@[k].1,
                ) == tag_value(compound.entries@[k].1),
        decreases compound.entries@.len() - i,
    {
        assert(decreases_to!(*compound => compound.entries));
        assert(decreases_to!(compound.entries => compound.entries@));
        assert(decreases_to!(compound.entries@ => compound.entries@[i as int]));
        assert(decreases_to!(compound.entries@[i as int] => compound.entries@[i as int].1));
        let entry = &compound.entries[i];
        let value = copy_tag(&entry.1);
        entries.push((entry.0.clone(), value));
        i += 1;
    }
    assert(NbtCompound { entries }@ =~= compound@);
    let copy = NbtCompound { entries };
    copy
}

impl Clone for NbtTag {
    fn clone(&self) -> (copy: Self)
        ensures
            copy@ == self@,
    {
        copy_tag(self)
    }
}

impl Clone for NbtList {
    fn clone(&self) -> (copy: Self)
        ensures
            copy@ == self@,
    {
        copy_list(self)
    }
}

impl Clone for NbtCompound {
    fn clone(&self) -> (copy: Self)
        ensures
            copy@ == self@,
    {
        copy_compound(self)
    }
}

impl From<i8> for NbtTag {
    fn from(v: i8) -> (tag: Self) {
        NbtTag::Byte(v)
    }
}

impl vstd::std_specs::convert::FromSpecImpl<i8> for NbtTag {
    open spec fn obeys_from_spec() -> bool {
        true
    }

    open spec fn from_spec(v: i8) -> Self {
        NbtTag::Byte(v)
    }
}

impl From<i16> for NbtTag {
    fn from(v: i16) -> (tag: Self) {
        NbtTag::Short(v)
    }
}

impl vstd::std_specs::convert::FromSpecImpl<i16> for NbtTag {
    open spec fn obeys_from_spec() -> bool {
        true
    }

    open spec fn from_spec(v: i16) -> Self {
        NbtTag::Short(v)
    }
}

impl From<i32> for NbtTag {
    fn from(v: i32) -> (tag: Self) {
        NbtTag::Int(v)
    }
}

impl vstd::std_specs::convert::FromSpecImpl<i32> for NbtTag {
    open spec fn obeys_from_spec() -> bool {
        true
    }

    open spec fn from_spec(v: i32) -> Self {
        NbtTag::Int(v)
    }
}

impl From<i64> for NbtTag {
    fn from(v: i64) -> (tag: Self) {
        NbtTag::Long(v)
    }
}

impl vstd::std_specs::convert::FromSpecImpl<i64> for NbtTag {
    open spec fn obeys_from_spec() -> bool {
        true
    }

    open spec fn from_spec(v: i64) -> Self {
        NbtTag::Long(v)
    }
}

impl From<Float32> for NbtTag {
    fn from(v: Float32) -> (tag: Self) {
        NbtTag::Float(v)
    }
}

impl vstd::std_specs::convert::FromSpecImpl<Float32> for NbtTag {
    open spec fn obeys_from_spec() -> bool {
        true
    }

    open spec fn from_spec(v: Float32) -> Self {
        NbtTag::Float(v)
    }
}

impl From<Float64> for NbtTag {
    fn from(v: Float64) -> (tag: Self) {
        NbtTag::Double(v)
    }
}

impl vstd::std_specs::convert::FromSpecImpl<Float64> for NbtTag {
    open spec fn obeys_from_spec() -> bool {
        true
    }

    open spec fn from_spec(v: Float64) -> Self {
        NbtTag::Double(v)
    }
}

impl From<String> for NbtTag {
    fn from(v: String) -> (tag: Self) {
        NbtTag::String(v)
    }
}

impl vstd::std_specs::convert::FromSpecImpl<String> for NbtTag {
    open spec fn obeys_from_spec() -> bool {
        true
    }

    open spec fn from_spec(v: String) -> Self {
        NbtTag::String(v)
    }
}

impl From<NbtCompound> for NbtTag {
    fn from(v: NbtCompound) -> (tag: Self) {
        NbtTag::Compound(v)
    }
}

impl vstd::std_specs::convert::FromSpecImpl<NbtCompound> for NbtTag {
    open spec fn obeys_from_spec() -> bool {
        true
    }

    open spec fn from_spec(v: NbtCompound) -> Self {
        NbtTag::Compound(v)
    }
}

impl From<NbtList> for NbtTag {
    fn from(v: NbtList) -> (tag: Self) {
        NbtTag::List(v)
    }
}

impl vstd::std_specs::convert::FromSpecImpl<NbtList> for NbtTag {
    open spec fn obeys_from_spec() -> bool {
        true
    }

    open spec fn from_spec(v: NbtList) -> Self {
        NbtTag::List(v)
    }
}

impl From<bool> for NbtTag {
    fn from(v: bool) -> (tag: Self) {
        NbtTag::Byte(if v { 1 } else { 0 })
    }
}

impl vstd::std_specs::convert::FromSpecImpl<bool> for NbtTag {
    open spec fn obeys_from_spec() -> bool {
        true
    }

    open spec fn from_spec(v: bool) -> Self {
        NbtTag::Byte(if v { 1 } else { 0 })
    }
}

impl From<&str> for NbtTag {
    fn from(v: &str) -> (tag: Self)
        ensures
            tag@ == NbtValue::Text(v@),
    {
        NbtTag::String(v.to_owned())
    }
}

impl vstd::std_specs::convert::FromSpecImpl<&str> for NbtTag {
    open spec fn obeys_from_spec() -> bool {
        false
    }

    open spec fn from_spec(v: &str) -> Self {
        arbitrary()
    }
}

/// Calls `==` of `str`, which compares two texts character by character.
#[verifier::external_body]
pub(crate) fn same_text(a: &str, b: &str) -> (same: bool)
    ensures
        same == (a@ == b@),
{
    a == b
}

// ---------------------------------------------------------------------------
// Encoding
// ---------------------------------------------------------------------------

/// Writes a tag in the network encoding: type byte, then payload, no root name.
///
/// Every tag within the limits of the format is read back from it as it was.
pub fn write_network<W: PacketWrite>(tag: &NbtTag, out: &mut W)
    ensures
        final(out).written() == old(out).written() + network_bytes(tag@),
        sound(tag@),
        fits(tag@, (MAX_DEPTH + 1) as nat) ==> forall|tail: Seq<u8>|
            parse_network(#[trigger] (network_bytes(tag@) + tail)) == (
                Ok::<NbtValue, ProtocolError>(tag@),
                tail,
            ),
{
    check_sound(tag);
    proof {
        if fits(tag@, (MAX_DEPTH + 1) as nat) {
            assert forall|tail: Seq<u8>|
                parse_network(#[trigger] (network_bytes(tag@) + tail)) == (
                    Ok::<NbtValue, ProtocolError>(tag@),
                    tail,
                ) by {
                law_network_round_trip(tag@, tail);
            }
        }
    }
    out.write_u8(tag.type_id());
    write_payload(tag, out);
    assert(out.written() =~= old(out).written() + network_bytes(tag@));
}

/// Writes a tag in the file encoding: type byte, root name, then payload.
///
/// Every tag within the limits of the format is read back from it as it was,
/// with its name.
pub fn write_named<W: PacketWrite>(name: &str, tag: &NbtTag, out: &mut W)
    ensures
        final(out).written() == old(out).written() + named_bytes(name@, tag@),
        sound(tag@),
        fits(tag@, (MAX_DEPTH + 1) as nat) && mutf8::text_bytes(name@).len() <= MAX_TEXT_BYTES
            ==> forall|tail: Seq<u8>|
            parse_named(#[trigger] (named_bytes(name@, tag@) + tail)) == (
                Ok::<(Seq<char>, NbtValue), ProtocolError>((name@, tag@)),
                tail,
            ),
{
    check_sound(tag);
    proof {
        if fits(tag@, (MAX_DEPTH + 1) as nat) && mutf8::text_bytes(name@).len()
            <= MAX_TEXT_BYTES {
            assert forall|tail: Seq<u8>|
                parse_named(#[trigger] (named_bytes(name@, tag@) + tail)) == (
                    Ok::<(Seq<char>, NbtValue), ProtocolError>((name@, tag@)),
                    tail,
                ) by {
                law_named_round_trip(name@, tag@, tail);
            }
        }
    }
    out.write_u8(tag.type_id());
    write_modified_utf8(name, out);
    write_payload(tag, out);
    assert(out.written() =~= old(out).written() + named_bytes(name@, tag@));
}

fn write_payload<W: PacketWrite>(tag: &NbtTag, out: &mut W)
    ensures
        final(out).written() == old(out).written() + payload_bytes(tag@),
    decreases tag,
{
    let ghost start = out.written();
    match tag {
        NbtTag::Byte(v) => {
            out.write_i8(*v);
            assert(out.written() =~= start + payload_bytes(tag@));
        },
        NbtTag::Short(v) => out.write_i16(*v),
        NbtTag::Int(v) => out.write_i32(*v),
        NbtTag::Long(v) => out.write_i64(*v),
        NbtTag::Float(v) => out.write_f32(*v),
        NbtTag::Double(v) => out.write_f64(*v),
        NbtTag::ByteArray(v) => {
            out.write_i32(v.len() as i32);
            let ghost head = out.written();
            let mut i: usize = 0;
            while i < v.len()
                invariant
                    i <= v@.len(),
                    out.written() == head + signed_bytes(v@).take(i as int),
                decreases v@.len() - i,
            {
                out.write_i8(v[i]);
                assert(out.written() =~= head + signed_bytes(v@).take(i + 1));
                i += 1;
            }
            assert(out.written() =~= start + payload_bytes(tag@));
        },
        NbtTag::String(v) => write_modified_utf8(v.as_str(), out),
        NbtTag::List(list) => {
            out.write_u8(list.element_type);
            out.write_i32(list.items.len() as i32);
            let ghost head = out.written();
            let mut i: usize = 0;
            assert(list@.1.skip(0) =~= list@.1);
            while i < list.items.len()
                invariant
                    i <= list.items@.len(),
                    list@.1.len() == list.items@.len(),
                    *tag == NbtTag::List(*list),
                    out.written() + items_bytes(list@.1.skip(i as int)) == head + items_bytes(
                        list@.1,
                    ),
                decreases list.items@.len() - i,
            {
                let ghost before = out.written();
                let ghost left = list@.1.skip(i as int);
                assert(decreases_to!(*tag => tag->List_0));
                assert(decreases_to!(tag->List_0 => tag->List_0.items));
                assert(decreases_to!(list.items => list.items@));
                assert(decreases_to!(list.items@ => list.items@[i as int]));
                write_payload(&list.items[i], out);
                assert(left.skip(1) =~= list@.1.skip(i + 1));
                assert(before + items_bytes(left) =~= before + payload_bytes(left[0]) + items_bytes(
                    left.skip(1),
                ));
                i += 1;
            }
            assert(list@.1.skip(i as int) =~= Seq::<NbtValue>::empty());
            assert(out.written() =~= head + items_bytes(list@.1));
            assert(out.written() =~= start + payload_bytes(tag@));
        },
        NbtTag::Compound(compound) => {
            let mut i: usize = 0;
            assert(compound@.skip(0) =~= compound@);
            while i < compound.entries.len()
                invariant
                    i <= compound.entries@.len(),
                    compound@.len() == compound.entries@.len(),
                    *tag == NbtTag::Compound(*compound),
                    out.written() + entries_bytes(compound@.skip(i as int)) == start
                        + entries_bytes(compound@),
                decreases compound.entries@.len() - i,
            {
                let ghost before = out.written();
                let ghost left = compound@.skip(i as int);
                let entry = &compound.entries[i];
                out.write_u8(entry.1.type_id());
                write_modified_utf8(entry.0.as_str(), out);
                assert(decreases_to!(*tag => tag->Compound_0));
                assert(decreases_to!(tag->Compound_0 => tag->Compound_0.entries));
                assert(decreases_to!(compound.entries => compound.entries@));
                assert(decreases_to!(compound.entries@ => compound.entries@[i as int]));
                assert(decreases_to!(compound.entries@[i as int] => compound.entries@[i as int].1));
                write_payload(&entry.1, out);
                assert(left[0] == compound@[i as int]);
                assert(left.skip(1) =~= compound@.skip(i + 1));
                assert(before + entries_bytes(left) =~= out.written() + entries_bytes(
                    left.skip(1),
                ));
                i += 1;
            }
            let ghost before = out.written();
            out.write_u8(TAG_END);
            assert(compound@.skip(i as int) =~= Seq::<(Seq<char>, NbtValue)>::empty());
            assert(before + seq![TAG_END] =~= out.written());
            assert(out.written() =~= start + payload_bytes(tag@));
        },
        NbtTag::IntArray(v) => {
            out.write_i32(v.len() as i32);
            let ghost head = out.written();
            let mut i: usize = 0;
            assert(head + ints_bytes(v@.take(0)) =~= head);
            while i < v.len()
                invariant
                    i <= v@.len(),
                    out.written() == head + ints_bytes(v@.take(i as int)),
                decreases v@.len() - i,
            {
                out.write_i32(v[i]);
                assert(v@.take(i + 1).drop_last() =~= v@.take(i as int));
                assert(out.written() =~= head + ints_bytes(v@.take(i + 1)));
                i += 1;
            }
            assert(v@.take(i as int) =~= v@);
            assert(out.written() =~= start + payload_bytes(tag@));
        },
        NbtTag::LongArray(v) => {
            out.write_i32(v.len() as i32);
            let ghost head = out.written();
            let mut i: usize = 0;
            assert(head + writer::longs_bytes(v@.take(0)) =~= head);
            while i < v.len()
                invariant
                    i <= v@.len(),
                    out.written() == head + writer::longs_bytes(v@.take(i as int)),
                decreases v@.len() - i,
            {
                out.write_i64(v[i]);
                assert(v@.take(i + 1).drop_last() =~= v@.take(i as int));
                assert(out.written() =~= head + writer::longs_bytes(v@.take(i + 1)));
                i += 1;
            }
            assert(v@.take(i as int) =~= v@);
            assert(out.written() =~= start + payload_bytes(tag@));
        },
    }
}

// ---------------------------------------------------------------------------
// Decoding
// ---------------------------------------------------------------------------

/// A result with the tag replaced by what it holds.
pub open spec fn tag_viewed(read: Result<NbtTag>) -> Result<NbtValue> {
    match read {
        Ok(tag) => Ok(tag@),
        Err(e) => Err(e),
    }
}

/// Reads a tag in the network encoding (no root name).
pub fn read_network(r: &mut PacketReader<'_>) -> (read: Result<NbtTag>)
    ensures
        final(r).input() == old(r).input(),
        (tag_viewed(read), final(r).rest()) == parse_network(old(r).rest()),
{
    let type_id: u8 = r.read_u8()?;
    if type_id == TAG_END {
        return Err(ProtocolError::Nbt("root tag is TAG_End"));
    }
    read_payload(r, type_id, 0)
}

/// Reads a tag in the file encoding, returning the root name alongside it.
pub fn read_named(r: &mut PacketReader<'_>) -> (read: Result<(String, NbtTag)>)
    ensures
        final(r).input() == old(r).input(),
        (match read {
            Ok((name, tag)) => Ok::<(Seq<char>, NbtValue), ProtocolError>((name@, tag@)),
            Err(e) => Err(e),
        }, final(r).rest()) == parse_named(old(r).rest()),
{
    let type_id: u8 = r.read_u8()?;
    if type_id == TAG_END {
        return Err(ProtocolError::Nbt("root tag is TAG_End"));
    }
    let name = read_modified_utf8(r)?;
    let tag = read_payload(r, type_id, 0)?;
    Ok((name, tag))
}

fn read_len(r: &mut PacketReader<'_>) -> (len: Result<usize>)
    ensures
        final(r).input() == old(r).input(),
        (len, final(r).rest()) == parse_len(old(r).rest()),
{
    let len: i32 = r.read_i32()?;
    if len < 0 {
        return Err(ProtocolError::NegativeLength(len));
    }
    let len: usize = len as usize;
    if len > MAX_ARRAY_LEN {
        return Err(ProtocolError::LengthLimitExceeded { len, max: MAX_ARRAY_LEN });
    }
    Ok(len)
}

fn smaller(a: usize, b: usize) -> (least: usize)
    ensures
        least == if a < b { a } else { b },
{
    if a < b {
        a
    } else {
        b
    }
}

fn read_payload(r: &mut PacketReader<'_>, type_id: u8, depth: usize) -> (read: Result<NbtTag>)
    requires
        depth <= MAX_DEPTH + 1,
    ensures
        final(r).input() == old(r).input(),
        (tag_viewed(read), final(r).rest()) == parse_payload(
            old(r).rest(),
            type_id,
            (MAX_DEPTH + 1 - depth) as nat,
        ),
    decreases MAX_DEPTH + 1 - depth, 1nat,
{
    proof {
        reveal(parse_leaf);
    }
    if depth > MAX_DEPTH {
        return Err(ProtocolError::NbtTooDeep { max: MAX_DEPTH });
    }
    if type_id == TAG_BYTE {
        let v: i8 = r.read_i8()?;
        Ok(NbtTag::Byte(v))
    } else if type_id == TAG_SHORT {
        let v: i16 = r.read_i16()?;
        Ok(NbtTag::Short(v))
    } else if type_id == TAG_INT {
        let v: i32 = r.read_i32()?;
        Ok(NbtTag::Int(v))
    } else if type_id == TAG_LONG {
        let v: i64 = r.read_i64()?;
        Ok(NbtTag::Long(v))
    } else if type_id == TAG_FLOAT {
        let v = r.read_f32()?;
        Ok(NbtTag::Float(v))
    } else if type_id == TAG_DOUBLE {
        let v = r.read_f64()?;
        Ok(NbtTag::Double(v))
    } else if type_id == TAG_BYTE_ARRAY {
        read_byte_array(r)
    } else if type_id == TAG_STRING {
        let v = read_modified_utf8(r)?;
        Ok(NbtTag::String(v))
    } else if type_id == TAG_LIST {
        read_list(r, depth)
    } else if type_id == TAG_COMPOUND {
        read_compound(r, depth)
    } else if type_id == TAG_INT_ARRAY {
        read_int_array(r)
    } else if type_id == TAG_LONG_ARRAY {
        read_long_array(r)
    } else {
        Err(ProtocolError::InvalidEnum { kind: "NBT tag type", value: type_id as i64 })
    }
}

fn read_byte_array(r: &mut PacketReader<'_>) -> (read: Result<NbtTag>)
    ensures
        final(r).input() == old(r).input(),
        (tag_viewed(read), final(r).rest()) == parse_leaf(old(r).rest(), TAG_BYTE_ARRAY),
{
    proof {
        reveal(parse_leaf);
    }
    let len: usize = read_len(r)?;
    let bytes = r.read_bytes(len)?;
    let mut values: Vec<i8> = Vec::with_capacity(len);
    let mut i: usize = 0;
    while i < bytes.len()
        invariant
            i <= bytes@.len(),
            values@.len() == i,
            forall|k: int| 0 <= k < i ==> values@[k] == bytes@[k] as i8,
        decreases bytes@.len() - i,
    {
        values.push(bytes[i] as i8);
        i += 1;
    }
    assert(values@ =~= Seq::new(bytes@.len(), |i: int| bytes@[i] as i8));
    Ok(NbtTag::ByteArray(values))
}

fn read_int_array(r: &mut PacketReader<'_>) -> (read: Result<NbtTag>)
    ensures
        final(r).input() == old(r).input(),
        (tag_viewed(read), final(r).rest()) == parse_leaf(old(r).rest(), TAG_INT_ARRAY),
{
    proof {
        reveal(parse_leaf);
    }
    let len: usize = read_len(r)?;
    let ghost start = r.rest();
    let ghost item = |u: Seq<u8>| reader::parse_i32(u);
    let mut values: Vec<i32> = Vec::with_capacity(smaller(len, r.remaining() / 4));
    let mut i: usize = 0;
    while i < len
        invariant
            i <= len,
            r.input() == old(r).input(),
            item == |u: Seq<u8>| reader::parse_i32(u),
            parse_len(old(r).rest()) == (Ok::<usize, ProtocolError>(len), start),
            reader::parse_items(start, i as nat, item) == (
                Ok::<Seq<i32>, ProtocolError>(values@),
                r.rest(),
            ),
        decreases len - i,
    {
        proof {
            reveal(parse_leaf);
            if item(r.rest()).0 is Err {
                reader::lemma_parse_items_stops(start, (i + 1) as nat, len as nat, item);
            }
        }
        let v: i32 = r.read_i32()?;
        values.push(v);
        i += 1;
    }
    Ok(NbtTag::IntArray(values))
}

fn read_long_array(r: &mut PacketReader<'_>) -> (read: Result<NbtTag>)
    ensures
        final(r).input() == old(r).input(),
        (tag_viewed(read), final(r).rest()) == parse_leaf(old(r).rest(), TAG_LONG_ARRAY),
{
    proof {
        reveal(parse_leaf);
    }
    let len: usize = read_len(r)?;
    let ghost start = r.rest();
    let ghost item = |u: Seq<u8>| reader::parse_i64(u);
    let mut values: Vec<i64> = Vec::with_capacity(smaller(len, r.remaining() / 8));
    let mut i: usize = 0;
    while i < len
        invariant
            i <= len,
            r.input() == old(r).input(),
            item == |u: Seq<u8>| reader::parse_i64(u),
            parse_len(old(r).rest()) == (Ok::<usize, ProtocolError>(len), start),
            reader::parse_items(start, i as nat, item) == (
                Ok::<Seq<i64>, ProtocolError>(values@),
                r.rest(),
            ),
        decreases len - i,
    {
        proof {
            reveal(parse_leaf);
            if item(r.rest()).0 is Err {
                reader::lemma_parse_items_stops(start, (i + 1) as nat, len as nat, item);
            }
        }
        let v: i64 = r.read_i64()?;
        values.push(v);
        i += 1;
    }
    Ok(NbtTag::LongArray(values))
}

fn read_list(r: &mut PacketReader<'_>, depth: usize) -> (read: Result<NbtTag>)
    requires
        depth <= MAX_DEPTH,
    ensures
        final(r).input() == old(r).input(),
        (tag_viewed(read), final(r).rest()) == parse_payload(
            old(r).rest(),
            TAG_LIST,
            (MAX_DEPTH + 1 - depth) as nat,
        ),
    decreases MAX_DEPTH + 1 - depth, 0nat,
{
    let element_type: u8 = r.read_u8()?;
    let len: usize = read_len(r)?;
    if element_type == TAG_END && len > 0 {
        return Err(ProtocolError::Nbt("non-empty list of TAG_End"));
    }
    let ghost start = r.rest();
    let ghost levels = (MAX_DEPTH - depth) as nat;
    // Bound the eager allocation by the bytes actually available: even the
    // smallest element is one byte.
    let mut items: Vec<NbtTag> = Vec::with_capacity(smaller(len, r.remaining()));
    let mut i: usize = 0;
    let ghost read = Seq::<NbtValue>::empty();
    while i < len
        invariant
            i <= len,
            depth <= MAX_DEPTH,
            levels == MAX_DEPTH - depth,
            r.input() == old(r).input(),
            parse_payload(old(r).rest(), TAG_LIST, levels + 1) == match parse_elements(
                start,
                element_type,
                len as nat,
                levels,
                Seq::empty(),
            ) {
                (Err(e), w) => (Err(e), w),
                (Ok(items), w) => (Ok(NbtValue::List(element_type, items)), w),
            },
            parse_elements(start, element_type, len as nat, levels, Seq::empty()) == parse_elements(
                r.rest(),
                element_type,
                (len - i) as nat,
                levels,
                read,
            ),
            items@.len() == i,
            read.len() == i,
            forall|k: int| 0 <= k < i ==> tag_value(#[trigger] items@[k]) == read[k],
            forall|k: int|
                0 <= k < i ==> (#[trigger] read[k]).type_id() == element_type && sound(read[k]),
        decreases len - i,
    {
        proof {
            lemma_payload_type(r.rest(), element_type, levels);
        }
        let item = read_payload(r, element_type, depth + 1)?;
        check_sound(&item);
        proof {
            read = read.push(item@);
        }
        items.push(item);
        i += 1;
    }
    assert(NbtList { element_type, items }@.1 =~= read);
    let list = NbtList { element_type, items };
    Ok(NbtTag::List(list))
}

fn read_compound(r: &mut PacketReader<'_>, depth: usize) -> (read: Result<NbtTag>)
    requires
        depth <= MAX_DEPTH,
    ensures
        final(r).input() == old(r).input(),
        (tag_viewed(read), final(r).rest()) == parse_payload(
            old(r).rest(),
            TAG_COMPOUND,
            (MAX_DEPTH + 1 - depth) as nat,
        ),
    decreases MAX_DEPTH + 1 - depth, 0nat,
{
    let mut compound = NbtCompound::new();
    let ghost levels = (MAX_DEPTH - depth) as nat;
    loop
        invariant
            depth <= MAX_DEPTH,
            levels == MAX_DEPTH - depth,
            r.input() == old(r).input(),
            parse_entries(old(r).rest(), levels, Seq::empty()) == parse_entries(
                r.rest(),
                levels,
                compound@,
            ),
        decreases r.rest().len(),
    {
        let ghost before = r.rest();
        let entry_type: u8 = r.read_u8()?;
        if entry_type == TAG_END {
            return Ok(NbtTag::Compound(compound));
        }
        let name = read_modified_utf8(r)?;
        proof {
            lemma_string_shrinks(before.skip(1));
            lemma_payload_shrinks(r.rest(), entry_type, levels);
        }
        let value = read_payload(r, entry_type, depth + 1)?;
        compound.put(name, value);
    }
}

/// A payload that was read is of the type it was read as.
proof fn lemma_payload_type(s: Seq<u8>, type_id: u8, levels: nat)
    ensures
        parse_payload(s, type_id, levels).0 matches Ok(v) ==> v.type_id() == type_id,
{
    reveal(parse_leaf);
}

/// Reading a string never leaves more bytes than there were.
proof fn lemma_string_shrinks(s: Seq<u8>)
    ensures
        mutf8::parse_nbt_string(s).1.len() <= s.len(),
{
}

/// Reading items never leaves more bytes than there were.
proof fn lemma_items_shrink<T>(s: Seq<u8>, n: nat, item: spec_fn(Seq<u8>) -> Parse<T>)
    requires
        forall|u: Seq<u8>| (#[trigger] item(u)).1.len() <= u.len(),
    ensures
        reader::parse_items(s, n, item).1.len() <= s.len(),
    decreases n,
{
    if n > 0 {
        lemma_items_shrink(s, (n - 1) as nat, item);
    }
}

/// Reading a payload never leaves more bytes than there were.
proof fn lemma_leaf_shrinks(s: Seq<u8>, type_id: u8)
    ensures
        parse_leaf(s, type_id).1.len() <= s.len(),
{
    reveal(parse_leaf);
    lemma_string_shrinks(s);
    reveal(reader::parse_f32);
    reveal(reader::parse_f64);
    if let (Ok(len), t) = parse_len(s) {
        lemma_items_shrink(t, len as nat, |u: Seq<u8>| reader::parse_i32(u));
        lemma_items_shrink(t, len as nat, |u: Seq<u8>| reader::parse_i64(u));
    }
}

/// Reading a payload never leaves more bytes than there were.
proof fn lemma_payload_shrinks(s: Seq<u8>, type_id: u8, levels: nat)
    ensures
        parse_payload(s, type_id, levels).1.len() <= s.len(),
    decreases levels, 0nat,
{
    lemma_leaf_shrinks(s, type_id);
    if levels > 0 {
        if let (Ok((element_type, len)), t) = parse_list_head(s) {
            lemma_elements_shrink(
                t,
                element_type,
                len as nat,
                (levels - 1) as nat,
                Seq::empty(),
            );
        }
        lemma_entries_shrink(s, (levels - 1) as nat, Seq::empty());
    }
}

proof fn lemma_elements_shrink(
    s: Seq<u8>,
    element_type: u8,
    n: nat,
    levels: nat,
    read: Seq<NbtValue>,
)
    ensures
        parse_elements(s, element_type, n, levels, read).1.len() <= s.len(),
    decreases levels, n + 1,
{
    if n > 0 {
        lemma_payload_shrinks(s, element_type, levels);
        if let (Ok(v), t) = parse_payload(s, element_type, levels) {
            lemma_elements_shrink(t, element_type, (n - 1) as nat, levels, read.push(v));
        }
    }
}

proof fn lemma_entries_shrink(s: Seq<u8>, levels: nat, read: Seq<(Seq<char>, NbtValue)>)
    ensures
        parse_entries(s, levels, read).1.len() <= s.len(),
    decreases levels, s.len() + 1,
{
    if let (Ok(entry_type), t) = reader::parse_u8(s) {
        if entry_type != TAG_END {
            lemma_string_shrinks(t);
            if let (Ok(name), u) = mutf8::parse_nbt_string(t) {
                lemma_payload_shrinks(u, entry_type, levels);
                if let (Ok(v), w) = parse_payload(u, entry_type, levels) {
                    lemma_entries_shrink(w, levels, entries_with(read, name, v));
                }
            }
        }
    }
}

/// Looking a key up finds it exactly where it is there.
proof fn lemma_key_index(entries: Seq<(Seq<char>, NbtValue)>, key: Seq<char>)
    ensures
        key_index(entries, key) <= entries.len(),
        key_index(entries, key) < entries.len() ==> entries[key_index(entries, key) as int].0
            == key,
        key_index(entries, key) == entries.len() ==> forall|i: int|
            0 <= i < entries.len() ==> (#[trigger] entries[i]).0 != key,
    decreases entries.len(),
{
    if entries.len() > 0 && entries[0].0 != key {
        let rest = entries.skip(1);
        lemma_key_index(rest, key);
        assert forall|i: int| key_index(entries, key) == entries.len() && 0 <= i
            < entries.len() implies (#[trigger] entries[i]).0 != key by {
            if i > 0 {
                assert(entries[i] == rest[i - 1]);
            }
        }
    }
}

/// Setting a key keeps the keys distinct.
pub proof fn law_keys_stay_distinct(
    entries: Seq<(Seq<char>, NbtValue)>,
    key: Seq<char>,
    value: NbtValue,
)
    requires
        distinct_keys(entries),
    ensures
        distinct_keys(entries_with(entries, key, value)),
{
    lemma_key_index(entries, key);
}

/// A key that was set is found again with its value, and every other key with
/// the value it had.
pub proof fn law_set_then_get(
    entries: Seq<(Seq<char>, NbtValue)>,
    key: Seq<char>,
    value: NbtValue,
    other: Seq<char>,
)
    requires
        other != key,
    ensures
        ({
            let after = entries_with(entries, key, value);
            let i = key_index(after, key);
            let before_other = key_index(entries, other);
            let after_other = key_index(after, other);
            &&& i < after.len() && after[i as int] == (key, value)
            &&& after_other < after.len() <==> before_other < entries.len()
            &&& after_other < after.len() ==> after[after_other as int]
                == entries[before_other as int]
        }),
    decreases entries.len(),
{
    let after = entries_with(entries, key, value);
    if entries.len() == 0 {
        assert(after =~= seq![(key, value)]);
        assert(after.skip(1) =~= Seq::<(Seq<char>, NbtValue)>::empty());
        assert(key_index(after.skip(1), other) == 0);
    } else {
        let rest = entries.skip(1);
        lemma_key_index(entries, key);
        lemma_key_index(rest, key);
        lemma_key_index(rest, other);
        if entries[0].0 == key {
            assert(after =~= entries.update(0, (key, value)));
            assert(after.skip(1) =~= rest);
        } else {
            law_set_then_get(rest, key, value, other);
            assert(after.skip(1) =~= entries_with(rest, key, value));
            assert(after[0] == entries[0]);
        }
    }
}

/// What every tag keeps, throughout: the elements of a list are of its type, and
/// no key of a compound occurs twice.
pub open spec fn sound(value: NbtValue) -> bool
    decreases value,
{
    match value {
        NbtValue::List(element_type, items) => forall|i: int|
            0 <= i < items.len() ==> (#[trigger] items[i]).type_id() == element_type && sound(
                items[i],
            ),
        NbtValue::Compound(entries) => distinct_keys(entries) && forall|i: int|
            0 <= i < entries.len() ==> sound((#[trigger] entries[i]).1),
        _ => true,
    }
}

/// What is within the limits of the binary format: strings within a 16-bit
/// length, arrays and lists within the cap, nested at most `levels` deep.
pub open spec fn fits(value: NbtValue, levels: nat) -> bool
    decreases value,
{
    levels > 0 && match value {
        NbtValue::ByteArray(v) => v.len() <= MAX_ARRAY_LEN,
        NbtValue::IntArray(v) => v.len() <= MAX_ARRAY_LEN,
        NbtValue::LongArray(v) => v.len() <= MAX_ARRAY_LEN,
        NbtValue::Text(v) => mutf8::text_bytes(v).len() <= MAX_TEXT_BYTES,
        NbtValue::List(_, items) => items.len() <= MAX_ARRAY_LEN && forall|i: int|
            0 <= i < items.len() ==> fits(#[trigger] items[i], (levels - 1) as nat),
        NbtValue::Compound(entries) => forall|i: int|
            0 <= i < entries.len() ==> mutf8::text_bytes((#[trigger] entries[i]).0).len()
                <= MAX_TEXT_BYTES && fits(entries[i].1, (levels - 1) as nat),
        _ => true,
    }
}

/// What the binary format can hold.
pub open spec fn representable(value: NbtValue, levels: nat) -> bool {
    sound(value) && fits(value, levels)
}

/// The elements of a sound list are of its type.
proof fn lemma_elements_typed(element_type: u8, items: Seq<NbtValue>)
    requires
        sound(NbtValue::List(element_type, items)),
    ensures
        forall|i: int| 0 <= i < items.len() ==> (#[trigger] items[i]).type_id() == element_type,
{
    let list = NbtValue::List(element_type, items);
    assert(list->List_1 == items);
    assert forall|i: int| 0 <= i < items.len() implies (#[trigger] items[i]).type_id()
        == element_type by {
        assert(list->List_1[i].type_id() == list->List_0);
    }
}

/// Setting a key to a sound value keeps a compound sound.
proof fn lemma_set_sound(entries: Seq<(Seq<char>, NbtValue)>, key: Seq<char>, value: NbtValue)
    requires
        sound(NbtValue::Compound(entries)),
    ensures
        sound(value) ==> sound(NbtValue::Compound(entries_with(entries, key, value))),
{
    if sound(value) {
        law_keys_stay_distinct(entries, key, value);
        let after = entries_with(entries, key, value);
        assert forall|i: int| 0 <= i < after.len() implies sound((#[trigger] after[i]).1) by {
            if after[i] != (key, value) {
                assert(after[i] == entries[i]);
            }
        }
    }
}

/// Every representable payload is read back as it was written, and exactly its
/// bytes are consumed.
pub proof fn law_payload_round_trip(value: NbtValue, levels: nat, tail: Seq<u8>)
    requires
        representable(value, levels),
    ensures
        parse_payload(payload_bytes(value) + tail, value.type_id(), levels) == (
            Ok::<NbtValue, ProtocolError>(value),
            tail,
        ),
    decreases value, 0nat,
{
    if value is List {
        assert(decreases_to!(value => value->List_1));
        lemma_elements_round_trip(value, levels, 0, tail);
        lemma_list_round_trip(value, levels, tail);
    } else if value is Compound {
        assert(decreases_to!(value => value->Compound_0));
        lemma_entries_round_trip(value, levels, 0, tail);
        lemma_compound_round_trip(value, levels, tail);
    } else {
        lemma_leaf_round_trip(value, levels, tail);
    }
}

/// Where its elements are read back, so is a list.
#[verifier::spinoff_prover]
#[verifier::rlimit(30)]
proof fn lemma_list_round_trip(value: NbtValue, levels: nat, tail: Seq<u8>)
    requires
        value is List,
        representable(value, levels),
        parse_elements(
            items_bytes(value->List_1.skip(0)) + tail,
            value->List_0,
            value->List_1.len(),
            (levels - 1) as nat,
            value->List_1.take(0),
        ) == (Ok::<Seq<NbtValue>, ProtocolError>(value->List_1), tail),
    ensures
        parse_payload(payload_bytes(value) + tail, value.type_id(), levels) == (
            Ok::<NbtValue, ProtocolError>(value),
            tail,
        ),
{
    let element_type = value->List_0;
    let items = value->List_1;
    let body = items_bytes(items) + tail;
    if items.len() > 0 {
        assert(items[0].type_id() == element_type);
    }
    lemma_list_head_round_trip(element_type, items.len(), body);
    let head = seq![element_type] + len_bytes(items.len());
    assert(payload_bytes(value) == head + items_bytes(items));
    lemma_behind_head(head, items_bytes(items), tail);
    assert(items.skip(0) =~= items);
    assert(items.take(0) =~= Seq::<NbtValue>::empty());
}

/// What follows the contents of a list follows them behind its head.
proof fn lemma_behind_head(head: Seq<u8>, contents: Seq<u8>, tail: Seq<u8>)
    ensures
        head + contents + tail == head + (contents + tail),
{
    assert(head + contents + tail =~= head + (contents + tail));
}

/// Where its entries are read back, so is a compound.
proof fn lemma_compound_round_trip(value: NbtValue, levels: nat, tail: Seq<u8>)
    requires
        value is Compound,
        representable(value, levels),
        parse_entries(
            entries_bytes(value->Compound_0.skip(0)) + tail,
            (levels - 1) as nat,
            value->Compound_0.take(0),
        ) == (Ok::<Seq<(Seq<char>, NbtValue)>, ProtocolError>(value->Compound_0), tail),
    ensures
        parse_payload(payload_bytes(value) + tail, value.type_id(), levels) == (
            Ok::<NbtValue, ProtocolError>(value),
            tail,
        ),
{
    let entries = value->Compound_0;
    assert(entries.skip(0) =~= entries);
    assert(entries.take(0) =~= Seq::<(Seq<char>, NbtValue)>::empty());
}

/// Everything but a list or a compound is read back.
proof fn lemma_leaf_round_trip(value: NbtValue, levels: nat, tail: Seq<u8>)
    requires
        !(value is List) && !(value is Compound),
        representable(value, levels),
    ensures
        parse_payload(payload_bytes(value) + tail, value.type_id(), levels) == (
            Ok::<NbtValue, ProtocolError>(value),
            tail,
        ),
{
    match value {
        NbtValue::ByteArray(_) | NbtValue::Text(_) | NbtValue::IntArray(_)
        | NbtValue::LongArray(_) => lemma_array_round_trip(value, tail),
        _ => lemma_scalar_round_trip(value, tail),
    }
}

proof fn lemma_scalar_round_trip(value: NbtValue, tail: Seq<u8>)
    requires
        value is Byte || value is Short || value is Int || value is Long || value is Float
            || value is Double,
    ensures
        parse_leaf(payload_bytes(value) + tail, value.type_id()) == (
            Ok::<NbtValue, ProtocolError>(value),
            tail,
        ),
{
    reveal(parse_leaf);
    let (single, double) = (Float32 { bits: 0 }, Float64 { bits: 0 });
    match value {
        NbtValue::Byte(v) => lemma_numbers(v, 0, 0, 0, single, double, tail),
        NbtValue::Short(v) => lemma_numbers(0, v, 0, 0, single, double, tail),
        NbtValue::Int(v) => lemma_numbers(0, 0, v, 0, single, double, tail),
        NbtValue::Long(v) => lemma_numbers(0, 0, 0, v, single, double, tail),
        NbtValue::Float(v) => lemma_numbers(0, 0, 0, 0, v, double, tail),
        NbtValue::Double(v) => lemma_numbers(0, 0, 0, 0, single, v, tail),
        _ => (),
    }
}

proof fn lemma_array_round_trip(value: NbtValue, tail: Seq<u8>)
    requires
        representable(value, 1),
        value is ByteArray || value is Text || value is IntArray || value is LongArray,
    ensures
        parse_leaf(payload_bytes(value) + tail, value.type_id()) == (
            Ok::<NbtValue, ProtocolError>(value),
            tail,
        ),
{
    match value {
        NbtValue::ByteArray(v) => lemma_byte_array_round_trip(v, tail),
        NbtValue::Text(v) => {
            reveal(parse_leaf);
            mutf8::law_nbt_string_round_trip(v, tail);
        },
        NbtValue::IntArray(v) => {
            lemma_len_round_trip(v.len(), ints_bytes(v) + tail);
            assert(payload_bytes(value) + tail =~= len_bytes(v.len()) + (ints_bytes(v) + tail));
            lemma_ints_round_trip(v, tail);
            reveal(parse_leaf);
        },
        NbtValue::LongArray(v) => {
            lemma_len_round_trip(v.len(), writer::longs_bytes(v) + tail);
            assert(payload_bytes(value) + tail =~= len_bytes(v.len()) + (writer::longs_bytes(v)
                + tail));
            lemma_longs_round_trip(v, tail);
            reveal(parse_leaf);
        },
        _ => {},
    }
}

proof fn lemma_byte_array_round_trip(v: Seq<i8>, tail: Seq<u8>)
    requires
        v.len() <= MAX_ARRAY_LEN,
    ensures
        parse_leaf(payload_bytes(NbtValue::ByteArray(v)) + tail, TAG_BYTE_ARRAY) == (
            Ok::<NbtValue, ProtocolError>(NbtValue::ByteArray(v)),
            tail,
        ),
{
    let bytes = signed_bytes(v);
    lemma_len_round_trip(v.len(), bytes + tail);
    assert(payload_bytes(NbtValue::ByteArray(v)) + tail =~= len_bytes(v.len()) + (bytes + tail));
    assert((bytes + tail).take(v.len() as int) =~= bytes);
    assert((bytes + tail).skip(v.len() as int) =~= tail);
    assert forall|i: int| 0 <= i < v.len() implies #[trigger] bytes[i] as i8 == v[i] by {
        crate::protocol::wire::lemma_signed(v[i], 0, 0, 0);
    }
    assert(Seq::new(bytes.len(), |i: int| bytes[i] as i8) =~= v);
    reveal(parse_leaf);
}

/// The type and the length of a list are read back.
proof fn lemma_list_head_round_trip(element_type: u8, len: nat, body: Seq<u8>)
    requires
        len <= MAX_ARRAY_LEN,
        element_type == TAG_END ==> len == 0,
    ensures
        parse_list_head(seq![element_type] + len_bytes(len) + body) == (
            Ok::<(u8, usize), ProtocolError>((element_type, len as usize)),
            body,
        ),
{
    let s = seq![element_type] + len_bytes(len) + body;
    lemma_len_round_trip(len, body);
    assert(s.skip(1) =~= len_bytes(len) + body);
}

/// The elements of a list from place `i` on are read back behind those before.
proof fn lemma_elements_round_trip(value: NbtValue, levels: nat, i: nat, tail: Seq<u8>)
    requires
        value is List,
        representable(value, levels),
        i <= value->List_1.len(),
    ensures
        ({
            let items = value->List_1;
            parse_elements(
                items_bytes(items.skip(i as int)) + tail,
                value->List_0,
                (items.len() - i) as nat,
                (levels - 1) as nat,
                items.take(i as int),
            ) == (Ok::<Seq<NbtValue>, ProtocolError>(items), tail)
        }),
    decreases value->List_1, value->List_1.len() - i,
{
    let items = value->List_1;
    let left = items.skip(i as int);
    if i == items.len() {
        assert(items_bytes(left) + tail =~= tail);
        assert(items.take(i as int) =~= items);
    } else {
        let v = items[i as int];
        let rest = items_bytes(items.skip(i as int + 1)) + tail;
        assert(decreases_to!(value->List_1 => value->List_1[i as int]));
        law_payload_round_trip(v, (levels - 1) as nat, rest);
        assert(left.skip(1) =~= items.skip(i as int + 1));
        assert(items_bytes(left) + tail =~= payload_bytes(v) + rest);
        lemma_element_round_trip(
            v,
            (items.len() - i) as nat,
            (levels - 1) as nat,
            rest,
            items.take(i as int),
        );
        assert(items.take(i as int).push(v) =~= items.take(i as int + 1));
        lemma_elements_round_trip(value, levels, i + 1, tail);
    }
}

/// Where its payload is read back, so is an element of a list.
proof fn lemma_element_round_trip(
    v: NbtValue,
    n: nat,
    levels: nat,
    rest: Seq<u8>,
    read: Seq<NbtValue>,
)
    requires
        n > 0,
        parse_payload(payload_bytes(v) + rest, v.type_id(), levels) == (
            Ok::<NbtValue, ProtocolError>(v),
            rest,
        ),
    ensures
        parse_elements(payload_bytes(v) + rest, v.type_id(), n, levels, read) == parse_elements(
            rest,
            v.type_id(),
            (n - 1) as nat,
            levels,
            read.push(v),
        ),
{
}

/// The entries of a compound from place `i` on are read back behind those
/// before.
proof fn lemma_entries_round_trip(value: NbtValue, levels: nat, i: nat, tail: Seq<u8>)
    requires
        value is Compound,
        representable(value, levels),
        i <= value->Compound_0.len(),
    ensures
        ({
            let entries = value->Compound_0;
            parse_entries(
                entries_bytes(entries.skip(i as int)) + tail,
                (levels - 1) as nat,
                entries.take(i as int),
            ) == (Ok::<Seq<(Seq<char>, NbtValue)>, ProtocolError>(entries), tail)
        }),
    decreases value->Compound_0, value->Compound_0.len() - i,
{
    let entries = value->Compound_0;
    if i == entries.len() {
        lemma_entries_end(entries, (levels - 1) as nat, tail);
    } else {
        let (name, v) = entries[i as int];
        let rest = entries_bytes(entries.skip(i as int + 1)) + tail;
        assert(decreases_to!(value->Compound_0 => value->Compound_0[i as int]));
        assert(decreases_to!(value->Compound_0[i as int] => value->Compound_0[i as int].1));
        law_payload_round_trip(v, (levels - 1) as nat, rest);
        lemma_entry_round_trip(name, v, (levels - 1) as nat, rest, entries.take(i as int));
        lemma_entries_split(entries, i as int, tail);
        lemma_next_entry(entries, i as int);
        lemma_entries_round_trip(value, levels, i + 1, tail);
    }
}

/// Behind the last entry comes the end marker.
proof fn lemma_entries_end(entries: Seq<(Seq<char>, NbtValue)>, levels: nat, tail: Seq<u8>)
    ensures
        parse_entries(
            entries_bytes(entries.skip(entries.len() as int)) + tail,
            levels,
            entries.take(entries.len() as int),
        ) == (Ok::<Seq<(Seq<char>, NbtValue)>, ProtocolError>(entries), tail),
{
    let s = entries_bytes(entries.skip(entries.len() as int)) + tail;
    assert(s.skip(1) =~= tail);
    assert(entries.take(entries.len() as int) =~= entries);
}

/// The entries from place `i` on are entry `i` and those behind it.
proof fn lemma_entries_split(entries: Seq<(Seq<char>, NbtValue)>, i: int, tail: Seq<u8>)
    requires
        0 <= i < entries.len(),
    ensures
        entries_bytes(entries.skip(i)) + tail == entry_bytes(entries[i].0, entries[i].1) + (
        entries_bytes(entries.skip(i + 1)) + tail),
{
    assert(entries.skip(i).skip(1) =~= entries.skip(i + 1));
    assert(entries_bytes(entries.skip(i)) + tail =~= entry_bytes(entries[i].0, entries[i].1) + (
    entries_bytes(entries.skip(i + 1)) + tail));
}

/// One entry of a compound: its type, name and payload.
spec fn entry_bytes(name: Seq<char>, v: NbtValue) -> Seq<u8> {
    seq![v.type_id()] + mutf8::nbt_string_bytes(name) + payload_bytes(v)
}

/// Where its payload is read back, so is an entry.
proof fn lemma_entry_round_trip(
    name: Seq<char>,
    v: NbtValue,
    levels: nat,
    rest: Seq<u8>,
    read: Seq<(Seq<char>, NbtValue)>,
)
    requires
        mutf8::text_bytes(name).len() <= MAX_TEXT_BYTES,
        parse_payload(payload_bytes(v) + rest, v.type_id(), levels) == (
            Ok::<NbtValue, ProtocolError>(v),
            rest,
        ),
    ensures
        parse_entries(entry_bytes(name, v) + rest, levels, read) == parse_entries(
            rest,
            levels,
            entries_with(read, name, v),
        ),
{
    let s = entry_bytes(name, v) + rest;
    mutf8::law_nbt_string_round_trip(name, payload_bytes(v) + rest);
    assert(s.skip(1) =~= mutf8::nbt_string_bytes(name) + (payload_bytes(v) + rest));
}

/// A key that does not come earlier is added at the end.
proof fn lemma_next_entry(entries: Seq<(Seq<char>, NbtValue)>, i: int)
    requires
        0 <= i < entries.len(),
        distinct_keys(entries),
    ensures
        entries_with(entries.take(i), entries[i].0, entries[i].1) == entries.take(i + 1),
{
    let before = entries.take(i);
    let name = entries[i].0;
    lemma_key_index(before, name);
    let k = key_index(before, name) as int;
    if k < before.len() {
        assert(entries[k].0 == entries[i].0);
    }
    assert(entries_with(before, name, entries[i].1) =~= entries.take(i + 1));
}

/// Every scalar payload is read back.
proof fn lemma_numbers(
    a: i8,
    b: i16,
    c: i32,
    d: i64,
    single: Float32,
    double: Float64,
    tail: Seq<u8>,
)
    ensures
        reader::parse_i8(seq![a as u8] + tail) == (Ok::<i8, ProtocolError>(a), tail),
        reader::parse_i16(wire::be16(b as u16) + tail) == (Ok::<i16, ProtocolError>(b), tail),
        reader::parse_i32(wire::be32(c as u32) + tail) == (Ok::<i32, ProtocolError>(c), tail),
        reader::parse_i64(wire::be64(d as u64) + tail) == (Ok::<i64, ProtocolError>(d), tail),
        reader::parse_f32(wire::be32(single.bits) + tail)
            == (Ok::<Float32, ProtocolError>(single), tail),
        reader::parse_f64(wire::be64(double.bits) + tail)
            == (Ok::<Float64, ProtocolError>(double), tail),
{
    reader::law_fixed_width_round_trip(false, a, 0, b, c, d, 0, single, double, Uuid { value: 0 },
        tail);
}

/// A length within the cap is read back.
proof fn lemma_len_round_trip(len: nat, tail: Seq<u8>)
    requires
        len <= MAX_ARRAY_LEN,
    ensures
        parse_len(len_bytes(len) + tail) == (Ok::<usize, ProtocolError>(len as usize), tail),
{
    lemma_numbers(0, 0, len as i32, 0, Float32 { bits: 0 }, Float64 { bits: 0 }, tail);
}

proof fn lemma_ints_round_trip(v: Seq<i32>, tail: Seq<u8>)
    ensures
        reader::parse_items(ints_bytes(v) + tail, v.len(), |u: Seq<u8>| reader::parse_i32(u)) == (
            Ok::<Seq<i32>, ProtocolError>(v),
            tail,
        ),
    decreases v.len(),
{
    if v.len() == 0 {
        assert(ints_bytes(v) + tail =~= tail);
        assert(v =~= Seq::<i32>::empty());
    } else {
        let last = wire::be32(v.last() as u32) + tail;
        assert(ints_bytes(v) + tail =~= ints_bytes(v.drop_last()) + last);
        lemma_ints_round_trip(v.drop_last(), last);
        lemma_numbers(0, 0, v.last(), 0, Float32 { bits: 0 }, Float64 { bits: 0 }, tail);
        assert(v.drop_last().push(v.last()) =~= v);
    }
}

proof fn lemma_longs_round_trip(v: Seq<i64>, tail: Seq<u8>)
    ensures
        reader::parse_items(
            writer::longs_bytes(v) + tail,
            v.len(),
            |u: Seq<u8>| reader::parse_i64(u),
        ) == (
            Ok::<Seq<i64>, ProtocolError>(v),
            tail,
        ),
    decreases v.len(),
{
    if v.len() == 0 {
        assert(writer::longs_bytes(v) + tail =~= tail);
        assert(v =~= Seq::<i64>::empty());
    } else {
        let last = wire::be64(v.last() as u64) + tail;
        assert(writer::longs_bytes(v) + tail =~= writer::longs_bytes(v.drop_last()) + last);
        lemma_longs_round_trip(v.drop_last(), last);
        lemma_numbers(0, 0, 0, v.last(), Float32 { bits: 0 }, Float64 { bits: 0 }, tail);
        assert(v.drop_last().push(v.last()) =~= v);
    }
}

/// Every tag within the limits of the format is read back from its network
/// encoding, and exactly its bytes are consumed.
pub proof fn law_network_round_trip(value: NbtValue, tail: Seq<u8>)
    requires
        sound(value),
        fits(value, (MAX_DEPTH + 1) as nat),
    ensures
        parse_network(network_bytes(value) + tail) == (Ok::<NbtValue, ProtocolError>(value), tail),
{
    let s = network_bytes(value) + tail;
    assert(s.skip(1) =~= payload_bytes(value) + tail);
    law_payload_round_trip(value, (MAX_DEPTH + 1) as nat, tail);
}

/// Every tag within the limits of the format is read back, with its name, from
/// its file encoding, and exactly its bytes are consumed.
pub proof fn law_named_round_trip(name: Seq<char>, value: NbtValue, tail: Seq<u8>)
    requires
        mutf8::text_bytes(name).len() <= MAX_TEXT_BYTES,
        sound(value),
        fits(value, (MAX_DEPTH + 1) as nat),
    ensures
        parse_named(named_bytes(name, value) + tail) == (
            Ok::<(Seq<char>, NbtValue), ProtocolError>((name, value)),
            tail,
        ),
{
    let s = named_bytes(name, value) + tail;
    assert(s.skip(1) =~= mutf8::nbt_string_bytes(name) + (payload_bytes(value) + tail));
    mutf8::law_nbt_string_round_trip(name, payload_bytes(value) + tail);
    law_payload_round_trip(value, (MAX_DEPTH + 1) as nat, tail);
}

} // verus!
