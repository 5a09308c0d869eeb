//! What bytes mean, read one field after another.
//!
//! The formats of the protocol are sequences of fields. This module says when
//! bytes stand for given fields, in terms of the numbers that the bytes add up
//! to and of nothing that writes or parses them, so that the laws of the
//! formats can be stated over it.

use vstd::prelude::*;
use vstd::utf8;

use crate::protocol::varint;
use crate::protocol::wire;
use crate::protocol::writer;

verus! {

/// One field, with its value.
pub enum Field {
    Byte(u8),
    SignedByte(i8),
    Bool(bool),
    Short(u16),
    Int(i32),
    Long(i64),
    /// A single-precision number, as its bit pattern.
    Single(u32),
    /// A double-precision number, as its bit pattern.
    Double(u64),
    Uuid(u128),
    VarInt(i32),
    /// A string: the number of its UTF-8 bytes, and these bytes.
    Text(Seq<char>),
    /// Bytes behind their number.
    Bytes(Seq<u8>),
    /// Bytes as they are.
    Raw(Seq<u8>),
}

/// The number that bytes add up to, the first of them weighing most.
pub open spec fn number(bytes: Seq<u8>) -> int
    decreases bytes.len(),
{
    if bytes.len() == 0 {
        0
    } else {
        number(bytes.drop_last()) * 256 + bytes.last()
    }
}

/// The number that groups of seven bits add up to, the first of them weighing
/// least.
pub open spec fn groups_number(bytes: Seq<u8>) -> int
    decreases bytes.len(),
{
    if bytes.len() == 0 {
        0
    } else {
        bytes[0] as int % 128 + 128 * groups_number(bytes.skip(1))
    }
}

/// Groups of seven bits in as few bytes as will do: all but the last byte have
/// their high bit set, and the last one is no idle zero.
pub open spec fn is_groups(bytes: Seq<u8>) -> bool {
    &&& bytes.len() >= 1
    &&& forall|i: int| 0 <= i < bytes.len() - 1 ==> #[trigger] bytes[i] >= 128
    &&& bytes.last() < 128
    &&& bytes.len() > 1 ==> bytes.last() != 0
}

/// The bytes are `value` as a VarInt.
pub open spec fn is_varint(bytes: Seq<u8>, value: i32) -> bool {
    is_groups(bytes) && groups_number(bytes) == value as int % 0x1_0000_0000
}

/// The bytes are `content` behind its length.
pub open spec fn is_counted(bytes: Seq<u8>, content: Seq<u8>) -> bool {
    let head = bytes.len() - content.len();
    &&& head >= 0
    &&& is_varint(bytes.take(head), content.len() as i32)
    &&& bytes.skip(head) == content
}

/// The bytes are those of one field.
pub open spec fn is_field(bytes: Seq<u8>, field: Field) -> bool {
    match field {
        Field::Byte(v) => bytes.len() == 1 && bytes[0] == v,
        Field::SignedByte(v) => bytes.len() == 1 && bytes[0] == v as int % 256,
        Field::Bool(v) => bytes.len() == 1 && bytes[0] == (if v {
            1u8
        } else {
            0u8
        }),
        Field::Short(v) => bytes.len() == 2 && number(bytes) == v,
        Field::Int(v) => bytes.len() == 4 && number(bytes) == v as int % 0x1_0000_0000,
        Field::Long(v) => bytes.len() == 8 && number(bytes) == v as int % 0x1_0000_0000_0000_0000,
        Field::Single(v) => bytes.len() == 4 && number(bytes) == v,
        Field::Double(v) => bytes.len() == 8 && number(bytes) == v,
        Field::Uuid(v) => bytes.len() == 16 && number(bytes) == v,
        Field::VarInt(v) => is_varint(bytes, v),
        Field::Text(text) => is_counted(bytes, utf8::encode_utf8(text)),
        Field::Bytes(content) => is_counted(bytes, content),
        Field::Raw(content) => bytes == content,
    }
}

/// The bytes are those of the fields, one after another, with nothing over.
#[verifier::opaque]
pub open spec fn spells(bytes: Seq<u8>, fields: Seq<Field>) -> bool
    decreases fields.len(),
{
    if fields.len() == 0 {
        bytes.len() == 0
    } else {
        exists|cut: int|
            0 <= cut <= bytes.len() && spells(#[trigger] bytes.take(cut), fields.drop_last())
                && is_field(bytes.skip(cut), fields.last())
    }
}

/// Bytes of fixed width are the digits of their number to the base 256.
pub proof fn law_fixed_width_bytes(a: u16, b: u32, c: u64, d: u128)
    ensures
        wire::be16(a).len() == 2 && number(wire::be16(a)) == a,
        wire::be32(b).len() == 4 && number(wire::be32(b)) == b,
        wire::be64(c).len() == 8 && number(wire::be64(c)) == c,
        wire::be128(d).len() == 16 && number(wire::be128(d)) == d,
{
    lemma_number16(a);
    lemma_number32(b);
    lemma_number64(c);
    lemma_number128(d);
}

proof fn lemma_number16(a: u16)
    ensures
        wire::be16(a).len() == 2 && number(wire::be16(a)) == a,
{
    lemma_bytes_divide(a, 0, 0, 0);
    lemma_number2(wire::be16(a));
}

proof fn lemma_number32(b: u32)
    ensures
        wire::be32(b).len() == 4 && number(wire::be32(b)) == b,
{
    lemma_bytes_divide(0, b, 0, 0);
    lemma_number4(wire::be32(b));
    let c = b as int;
    assert(c == c / 0x100 * 0x100 + c % 256);
    assert(c / 0x100 == c / 0x1_0000 * 256 + c / 0x100 % 256);
    assert(c / 0x1_0000 == c / 0x100_0000 * 256 + c / 0x1_0000 % 256);
}

proof fn lemma_number128(d: u128)
    ensures
        wire::be128(d).len() == 16 && number(wire::be128(d)) == d,
{
    lemma_bytes_divide(0, 0, 0, d);
    let (high, low) = ((d >> 64) as u64, d as u64);
    lemma_number64(high);
    lemma_number64(low);
    lemma_number8_append(wire::be64(high), wire::be64(low));
}

/// Shifts by whole bytes divide by powers of 256.
pub proof fn lemma_bytes_divide(a: u16, b: u32, c: u64, d: u128)
    ensures
        ((a >> 8) as u8) as u16 == a / 256,
        (a as u8) as u16 == a % 256,
        ((b >> 24) as u8) as u32 == b / 0x100_0000,
        ((b >> 16) as u8) as u32 == b / 0x1_0000 % 256,
        ((b >> 8) as u8) as u32 == b / 0x100 % 256,
        (b as u8) as u32 == b % 256,
        ((c >> 56) as u8) as u64 == c / 0x100_0000_0000_0000,
        ((c >> 48) as u8) as u64 == c / 0x1_0000_0000_0000 % 256,
        ((c >> 40) as u8) as u64 == c / 0x100_0000_0000 % 256,
        ((c >> 32) as u8) as u64 == c / 0x1_0000_0000 % 256,
        ((c >> 24) as u8) as u64 == c / 0x100_0000 % 256,
        ((c >> 16) as u8) as u64 == c / 0x1_0000 % 256,
        ((c >> 8) as u8) as u64 == c / 0x100 % 256,
        (c as u8) as u64 == c % 256,
        (c as u32) as u64 == c % 0x1_0000_0000,
        ((d >> 64) as u64) as u128 == d / 0x1_0000_0000_0000_0000,
        (d as u64) as u128 == d % 0x1_0000_0000_0000_0000,
{
    assert(((a >> 8) as u8) as u16 == a / 256
        && (a as u8) as u16 == a % 256
        && ((b >> 24) as u8) as u32 == b / 0x100_0000
        && ((b >> 16) as u8) as u32 == b / 0x1_0000 % 256
        && ((b >> 8) as u8) as u32 == b / 0x100 % 256
        && (b as u8) as u32 == b % 256
        && ((c >> 56) as u8) as u64 == c / 0x100_0000_0000_0000
        && ((c >> 48) as u8) as u64 == c / 0x1_0000_0000_0000 % 256
        && ((c >> 40) as u8) as u64 == c / 0x100_0000_0000 % 256
        && ((c >> 32) as u8) as u64 == c / 0x1_0000_0000 % 256
        && ((c >> 24) as u8) as u64 == c / 0x100_0000 % 256
        && ((c >> 16) as u8) as u64 == c / 0x1_0000 % 256
        && ((c >> 8) as u8) as u64 == c / 0x100 % 256
        && (c as u8) as u64 == c % 256
        && (c as u32) as u64 == c % 0x1_0000_0000
        && ((d >> 64) as u64) as u128 == d / 0x1_0000_0000_0000_0000
        && (d as u64) as u128 == d % 0x1_0000_0000_0000_0000) by (bit_vector);
}

proof fn lemma_number2(b: Seq<u8>)
    requires
        b.len() == 2,
    ensures
        number(b) == b[0] * 256 + b[1],
{
    reveal_with_fuel(number, 3);
}

/// What four bytes add up to.
pub proof fn lemma_number4(b: Seq<u8>)
    requires
        b.len() == 4,
    ensures
        number(b) == b[0] * 0x100_0000 + b[1] * 0x1_0000 + b[2] * 0x100 + b[3],
{
    reveal_with_fuel(number, 5);
}

proof fn lemma_number8(b: Seq<u8>)
    requires
        b.len() == 8,
    ensures
        number(b) == b[0] * 0x100_0000_0000_0000 + b[1] * 0x1_0000_0000_0000 + b[2]
            * 0x100_0000_0000 + b[3] * 0x1_0000_0000 + b[4] * 0x100_0000 + b[5] * 0x1_0000 + b[6]
            * 0x100 + b[7],
{
    reveal_with_fuel(number, 9);
}

proof fn lemma_number64(c: u64)
    ensures
        wire::be64(c).len() == 8 && number(wire::be64(c)) == c,
{
    lemma_bytes_divide(0, 0, c, 0);
    lemma_number8(wire::be64(c));
    lemma_digits64(c as int);
}

/// A number is the sum of its digits to the base 256, each with its weight.
proof fn lemma_digits64(c: int)
    requires
        0 <= c < 0x1_0000_0000_0000_0000,
    ensures
        c == (c / 0x100_0000_0000_0000) * 0x100_0000_0000_0000 + (c / 0x1_0000_0000_0000 % 256)
            * 0x1_0000_0000_0000 + (c / 0x100_0000_0000 % 256) * 0x100_0000_0000 + (c
            / 0x1_0000_0000 % 256) * 0x1_0000_0000 + (c / 0x100_0000 % 256) * 0x100_0000 + (c
            / 0x1_0000 % 256) * 0x1_0000 + (c / 0x100 % 256) * 0x100 + c % 256,
{
    assert(c == c / 0x100 * 0x100 + c % 256);
    assert(c / 0x100 == c / 0x1_0000 * 256 + c / 0x100 % 256);
    assert(c / 0x1_0000 == c / 0x100_0000 * 256 + c / 0x1_0000 % 256);
    assert(c / 0x100_0000 == c / 0x1_0000_0000 * 256 + c / 0x100_0000 % 256);
    assert(c / 0x1_0000_0000 == c / 0x100_0000_0000 * 256 + c / 0x1_0000_0000 % 256);
    assert(c / 0x100_0000_0000 == c / 0x1_0000_0000_0000 * 256 + c / 0x100_0000_0000 % 256);
    assert(c / 0x1_0000_0000_0000 == c / 0x100_0000_0000_0000 * 256 + c / 0x1_0000_0000_0000
        % 256);
}

proof fn lemma_number8_append(a: Seq<u8>, b: Seq<u8>)
    requires
        b.len() == 8,
    ensures
        number(a + b) == number(a) * 0x1_0000_0000_0000_0000 + number(b),
{
    lemma_number_append(a, b);
    assert(scale(8) == 0x1_0000_0000_0000_0000) by {
        reveal_with_fuel(scale, 9);
    }
}

/// How much a byte weighs that `n` others follow.
spec fn scale(n: nat) -> int
    decreases n,
{
    if n == 0 {
        1
    } else {
        scale((n - 1) as nat) * 256
    }
}

proof fn lemma_number_append(a: Seq<u8>, b: Seq<u8>)
    ensures
        number(a + b) == number(a) * scale(b.len()) + number(b),
    decreases b.len(),
{
    if b.len() == 0 {
        assert(a + b =~= a);
    } else {
        assert((a + b).drop_last() =~= a + b.drop_last());
        lemma_number_append(a, b.drop_last());
        let (n, w) = (number(a), scale((b.len() - 1) as nat));
        assert((n * w) * 256 == n * (w * 256)) by (nonlinear_arith);
    }
}

/// Numbers of equally many bytes tell the bytes apart.
pub proof fn lemma_number_injective(a: Seq<u8>, b: Seq<u8>)
    requires
        a.len() == b.len(),
        number(a) == number(b),
    ensures
        a == b,
    decreases a.len(),
{
    if a.len() > 0 {
        lemma_number_injective(a.drop_last(), b.drop_last());
        assert(a =~= a.drop_last().push(a.last()));
        assert(b =~= b.drop_last().push(b.last()));
    }
    assert(a =~= b);
}

/// Sixteen bytes are the bytes of the number that they are read as.
pub proof fn lemma_bytes_of_number(b: Seq<u8>)
    requires
        b.len() == 16,
    ensures
        wire::be128(wire::from_be128(b)) == b,
{
    lemma_bytes_of_half(b.take(8));
    lemma_bytes_of_half(b.skip(8));
    let (high, low) = (wire::from_be64(b), wire::from_be64(b.skip(8)));
    assert(wire::from_be64(b.take(8)) == high);
    lemma_halves(high, low);
    assert(b =~= b.take(8) + b.skip(8));
}

proof fn lemma_bytes_of_half(b: Seq<u8>)
    requires
        b.len() == 8,
    ensures
        wire::be64(wire::from_be64(b)) == b,
{
    lemma_number8(b);
    let n = number(b) as u64;
    lemma_number64(n);
    lemma_number_injective(wire::be64(n), b);
    wire::law_be_round_trip(0, 0, n, 0, Seq::empty());
    assert(wire::be64(n) + Seq::<u8>::empty() =~= b);
}

proof fn lemma_halves(high: u64, low: u64)
    ensures
        (((((high as u128) << 64) | low as u128) >> 64) as u64) == high,
        ((((high as u128) << 64) | low as u128) as u64) == low,
{
    let d = (high * 0x1_0000_0000_0000_0000 + low) as u128;
    lemma_bytes_divide(0, 0, 0, d);
    wire::law_be_round_trip(0, 0, 0, d, Seq::empty());
    lemma_number128(d);
    let s = wire::be64(high) + wire::be64(low);
    lemma_number64(high);
    lemma_number64(low);
    lemma_number8_append(wire::be64(high), wire::be64(low));
    lemma_number_injective(wire::be128(d), s);
    assert(s + Seq::<u8>::empty() =~= s);
    wire::law_be_round_trip(0, 0, high, 0, wire::be64(low));
    wire::law_be_round_trip(0, 0, low, 0, Seq::empty());
    assert(s.skip(8) =~= wire::be64(low));
    assert(wire::be64(low) + Seq::<u8>::empty() =~= wire::be64(low));
}

/// Numbers tell groups apart.
proof fn lemma_groups_injective(a: Seq<u8>, b: Seq<u8>)
    requires
        is_groups(a),
        is_groups(b),
        groups_number(a) == groups_number(b),
    ensures
        a == b,
    decreases a.len(),
{
    let (s, t) = (a.skip(1), b.skip(1));
    if a.len() == 1 && b.len() == 1 {
        assert(groups_number(s) == 0 && groups_number(t) == 0);
        assert(a =~= b);
    } else if a.len() == 1 {
        lemma_groups_positive(b);
        lemma_groups_positive(t);
        assert(groups_number(s) == 0);
    } else if b.len() == 1 {
        lemma_groups_positive(s);
        assert(groups_number(t) == 0);
    } else {
        assert(s.last() == a.last() && t.last() == b.last());
        assert forall|i: int| 0 <= i < s.len() - 1 implies #[trigger] s[i] >= 128 by {
            assert(s[i] == a[i + 1]);
        }
        assert forall|i: int| 0 <= i < t.len() - 1 implies #[trigger] t[i] >= 128 by {
            assert(t[i] == b[i + 1]);
        }
        lemma_groups_injective(s, t);
        assert(a[0] >= 128 && b[0] >= 128);
        assert(a =~= seq![a[0]] + s);
        assert(b =~= seq![b[0]] + t);
    }
}

/// Groups of which the last is not zero add up to something.
proof fn lemma_groups_positive(a: Seq<u8>)
    requires
        a.len() >= 1,
        a.last() % 128 != 0,
    ensures
        groups_number(a) > 0,
    decreases a.len(),
{
    if a.len() == 1 {
        assert(groups_number(a.skip(1)) == 0);
    } else {
        assert(a.skip(1).last() == a.last());
        lemma_groups_positive(a.skip(1));
    }
}

/// A VarInt is made of groups of seven bits of the number, taken as one of 32
/// bits without a sign, in as few bytes as will do.
pub proof fn law_varint_bytes(value: i32)
    ensures
        is_varint(varint::varint_bytes(value), value),
{
    let v = value as u32;
    assert(v == value as int % 0x1_0000_0000) by {
        lemma_unsigned(0, value, 0);
    }
    lemma_leb128(v as u64);
}

/// A VarLong is made of groups of seven bits of the number, taken as one of 64
/// bits without a sign, in as few bytes as will do.
pub proof fn law_varlong_bytes(value: i64)
    ensures
        is_groups(varint::varlong_bytes(value)),
        groups_number(varint::varlong_bytes(value)) == value as int % 0x1_0000_0000_0000_0000,
{
    lemma_unsigned(0, 0, value);
    lemma_leb128(value as u64);
}

/// What a signed number of two bytes is without its sign.
pub proof fn lemma_unsigned_short(a: i16)
    ensures
        a as u16 == a as int % 0x1_0000,
{
    lemma_unsigned_cases(0, a, 0, 0);
}

/// What a signed number is without its sign.
pub proof fn lemma_unsigned(a: i8, b: i32, c: i64)
    ensures
        a as u8 == a as int % 256,
        b as u32 == b as int % 0x1_0000_0000,
        c as u64 == c as int % 0x1_0000_0000_0000_0000,
{
    lemma_unsigned_cases(a, 0, b, c);
}

proof fn lemma_unsigned_cases(a: i8, h: i16, b: i32, c: i64)
    ensures
        a >= 0 ==> a as u8 == a,
        a < 0 ==> a as u8 == a + 256,
        h >= 0 ==> h as u16 == h,
        h < 0 ==> h as u16 == h + 0x1_0000,
        b >= 0 ==> b as u32 == b,
        b < 0 ==> b as u32 == b + 0x1_0000_0000,
        c >= 0 ==> c as u64 == c,
        c < 0 ==> c as u64 == c + 0x1_0000_0000_0000_0000,
{
    assert((a >= 0 ==> (a as u8) as i16 == a as i16) && (a < 0 ==> (a as u8) as i16 - a as i16
        == 256) && (h >= 0 ==> (h as u16) as i32 == h as i32) && (h < 0 ==> (h as u16) as i32
        - h as i32 == 0x1_0000) && (b >= 0 ==> (b as u32) as i64 == b as i64) && (b < 0 ==> (
    b as u32) as i64 - b as i64 == 0x1_0000_0000) && (c >= 0 ==> (c as u64) as i128 == c as i128)
        && (c < 0 ==> (c as u64) as i128 - c as i128 == 0x1_0000_0000_0000_0000)) by (bit_vector);
}

proof fn lemma_leb128(v: u64)
    ensures
        is_groups(varint::leb128(v)),
        groups_number(varint::leb128(v)) == v,
        v != 0 ==> varint::leb128(v).last() != 0,
    decreases v,
{
    let bytes = varint::leb128(v);
    varint::lemma_group(v);
    lemma_seven_bits(v, 0, 0);
    if v < 0x80 {
        assert(groups_number(bytes.skip(1)) == 0);
    } else {
        let rest = varint::leb128(v >> 7);
        lemma_leb128(v >> 7);
        assert(bytes.skip(1) =~= rest);
        assert(bytes.last() == rest.last());
        assert forall|i: int| 0 <= i < bytes.len() - 1 implies #[trigger] bytes[i] >= 128 by {
            if i > 0 {
                assert(bytes[i] == rest[i - 1]);
            }
        }
    }
}

proof fn lemma_seven_bits(v: u64, g: u8, b: u64)
    ensures
        v >> 7 == v / 128,
        ((v & 0x7f) as u8 | 0x80) % 128 == v % 128,
        v < 0x80 ==> v as u8 == v,
        b < 0x100_0000_0000_0000 ==> (g & 0x7f) as u64 | (b << 7) == g as int % 128 + 128 * b,
{
    assert(v >> 7 == v / 128 && (((v & 0x7f) as u8 | 0x80) % 128) as u64 == v % 128 && (v
        < 0x80 ==> (
    v as u8) as u64 == v) && (b < 0x100_0000_0000_0000 ==> (g & 0x7f) as u64 | (b << 7) == (g
        % 128) as u64 + 128 * b)) by (bit_vector);
}

/// Groups add up to the same number bit by bit.
pub proof fn lemma_group_value(groups: Seq<u8>)
    requires
        groups.len() <= 8,
    ensures
        varint::group_value(groups) == groups_number(groups),
        groups_number(groups) < scale128(groups.len()),
    decreases groups.len(),
{
    if groups.len() > 0 {
        lemma_group_value(groups.skip(1));
        lemma_scale128((groups.len() - 1) as nat);
        lemma_seven_bits(0, groups[0], varint::group_value(groups.skip(1)));
    }
}

/// How many numbers `n` groups can hold.
pub open spec fn scale128(n: nat) -> int
    decreases n,
{
    if n == 0 {
        1
    } else {
        128 * scale128((n - 1) as nat)
    }
}

proof fn lemma_scale128(n: nat)
    requires
        n <= 7,
    ensures
        0 < scale128(n) <= 0x2_0000_0000_0000,
{
    reveal_with_fuel(scale128, 8);
}

/// One more field follows those that bytes already stand for.
pub proof fn lemma_then(bytes: Seq<u8>, fields: Seq<Field>, more: Seq<u8>, field: Field)
    requires
        spells(bytes, fields),
        is_field(more, field),
    ensures
        spells(bytes + more, fields.push(field)),
{
    reveal(spells);
    let (all, cut) = (bytes + more, bytes.len() as int);
    assert(all.take(cut) =~= bytes);
    assert(all.skip(cut) =~= more);
    assert(fields.push(field).drop_last() =~= fields);
    assert(fields.push(field).last() == field);
}

/// No bytes stand for no fields.
pub proof fn begin() -> (r: (Seq<u8>, Seq<Field>))
    ensures
        r == (Seq::<u8>::empty(), Seq::<Field>::empty()),
        spells(r.0, r.1),
{
    reveal(spells);
    (Seq::empty(), Seq::empty())
}

/// Fields follow fields where bytes follow bytes.
pub proof fn lemma_append(a: Seq<u8>, fs: Seq<Field>, b: Seq<u8>, gs: Seq<Field>)
    requires
        spells(a, fs),
        spells(b, gs),
    ensures
        spells(a + b, fs + gs),
    decreases gs.len(),
{
    if gs.len() == 0 {
        reveal(spells);
        assert(a + b =~= a);
        assert(fs + gs =~= fs);
    } else {
        let cut = lemma_last(b, gs);
        lemma_append(a, fs, b.take(cut), gs.drop_last());
        lemma_then(a + b.take(cut), fs + gs.drop_last(), b.skip(cut), gs.last());
        assert(a + b.take(cut) + b.skip(cut) =~= a + b);
        assert((fs + gs.drop_last()).push(gs.last()) =~= fs + gs);
    }
}

/// Where the last field starts.
proof fn lemma_last(bytes: Seq<u8>, fields: Seq<Field>) -> (cut: int)
    requires
        spells(bytes, fields),
        fields.len() > 0,
    ensures
        0 <= cut <= bytes.len(),
        spells(bytes.take(cut), fields.drop_last()),
        is_field(bytes.skip(cut), fields.last()),
{
    reveal(spells);
    choose|cut: int|
        0 <= cut <= bytes.len() && spells(#[trigger] bytes.take(cut), fields.drop_last())
            && is_field(bytes.skip(cut), fields.last())
}

/// Only one sequence of bytes stands for given fields.
pub proof fn law_spelling_is_unique(a: Seq<u8>, b: Seq<u8>, fields: Seq<Field>)
    requires
        spells(a, fields),
        spells(b, fields),
    ensures
        a == b,
    decreases fields.len(),
{
    if fields.len() == 0 {
        reveal(spells);
        assert(a =~= b);
    } else {
        let (i, j) = (lemma_last(a, fields), lemma_last(b, fields));
        law_spelling_is_unique(a.take(i), b.take(j), fields.drop_last());
        lemma_field_unique(a.skip(i), b.skip(j), fields.last());
        assert(a =~= a.take(i) + a.skip(i));
        assert(b =~= b.take(j) + b.skip(j));
    }
}

proof fn lemma_field_unique(a: Seq<u8>, b: Seq<u8>, field: Field)
    requires
        is_field(a, field),
        is_field(b, field),
    ensures
        a == b,
{
    match field {
        Field::Byte(_) | Field::SignedByte(_) | Field::Bool(_) => {
            assert(a =~= b);
        },
        Field::Short(_)
        | Field::Int(_)
        | Field::Long(_)
        | Field::Single(_)
        | Field::Double(_)
        | Field::Uuid(_) => lemma_number_injective(a, b),
        Field::VarInt(_) => lemma_groups_injective(a, b),
        Field::Text(text) => lemma_counted_unique(a, b, utf8::encode_utf8(text)),
        Field::Bytes(content) => lemma_counted_unique(a, b, content),
        Field::Raw(_) => {},
    }
}

proof fn lemma_counted_unique(a: Seq<u8>, b: Seq<u8>, content: Seq<u8>)
    requires
        is_counted(a, content),
        is_counted(b, content),
    ensures
        a == b,
{
    let (i, j) = (a.len() - content.len(), b.len() - content.len());
    lemma_groups_injective(a.take(i), b.take(j));
    assert(a =~= a.take(i) + a.skip(i));
    assert(b =~= b.take(j) + b.skip(j));
}

/// A byte array is its bytes behind their number.
pub proof fn lemma_is_byte_array(content: Seq<u8>)
    ensures
        is_counted(writer::byte_array_bytes(content), content),
{
    let bytes = writer::byte_array_bytes(content);
    let head = varint::varint_bytes(content.len() as i32);
    law_varint_bytes(content.len() as i32);
    assert(bytes.take(head.len() as int) =~= head);
    assert(bytes.skip(head.len() as int) =~= content);
}

/// Another field in its own bytes.
pub proof fn then_byte(s: Seq<u8>, fields: Seq<Field>, v: u8) -> (r: (Seq<u8>, Seq<Field>))
    requires
        spells(s, fields),
    ensures
        r == (s + seq![v], fields.push(Field::Byte(v))),
        spells(r.0, r.1),
{
    lemma_then(s, fields, seq![v], Field::Byte(v));
    (s + seq![v], fields.push(Field::Byte(v)))
}

/// Another field in its own bytes.
pub proof fn then_signed_byte(s: Seq<u8>, fields: Seq<Field>, v: i8) -> (r: (Seq<u8>, Seq<Field>))
    requires
        spells(s, fields),
    ensures
        r == (s + seq![v as u8], fields.push(Field::SignedByte(v))),
        spells(r.0, r.1),
{
    lemma_unsigned(v, 0, 0);
    lemma_then(s, fields, seq![v as u8], Field::SignedByte(v));
    (s + seq![v as u8], fields.push(Field::SignedByte(v)))
}

/// Another field in its own bytes.
pub proof fn then_bool(s: Seq<u8>, fields: Seq<Field>, v: bool) -> (r: (Seq<u8>, Seq<Field>))
    requires
        spells(s, fields),
    ensures
        r == (s + seq![writer::bool_byte(v)], fields.push(Field::Bool(v))),
        spells(r.0, r.1),
{
    lemma_then(s, fields, seq![writer::bool_byte(v)], Field::Bool(v));
    (s + seq![writer::bool_byte(v)], fields.push(Field::Bool(v)))
}

/// Another field in its own bytes.
pub proof fn then_short(s: Seq<u8>, fields: Seq<Field>, v: u16) -> (r: (Seq<u8>, Seq<Field>))
    requires
        spells(s, fields),
    ensures
        r == (s + wire::be16(v), fields.push(Field::Short(v))),
        spells(r.0, r.1),
{
    law_fixed_width_bytes(v, 0, 0, 0);
    lemma_then(s, fields, wire::be16(v), Field::Short(v));
    (s + wire::be16(v), fields.push(Field::Short(v)))
}

/// Another field in its own bytes.
pub proof fn then_int(s: Seq<u8>, fields: Seq<Field>, v: i32) -> (r: (Seq<u8>, Seq<Field>))
    requires
        spells(s, fields),
    ensures
        r == (s + wire::be32(v as u32), fields.push(Field::Int(v))),
        spells(r.0, r.1),
{
    lemma_unsigned(0, v, 0);
    law_fixed_width_bytes(0, v as u32, 0, 0);
    lemma_then(s, fields, wire::be32(v as u32), Field::Int(v));
    (s + wire::be32(v as u32), fields.push(Field::Int(v)))
}

/// Another field in its own bytes.
pub proof fn then_long(s: Seq<u8>, fields: Seq<Field>, v: i64) -> (r: (Seq<u8>, Seq<Field>))
    requires
        spells(s, fields),
    ensures
        r == (s + wire::be64(v as u64), fields.push(Field::Long(v))),
        spells(r.0, r.1),
{
    lemma_unsigned(0, 0, v);
    law_fixed_width_bytes(0, 0, v as u64, 0);
    lemma_then(s, fields, wire::be64(v as u64), Field::Long(v));
    (s + wire::be64(v as u64), fields.push(Field::Long(v)))
}

/// Another field in its own bytes.
pub proof fn then_single(s: Seq<u8>, fields: Seq<Field>, v: u32) -> (r: (Seq<u8>, Seq<Field>))
    requires
        spells(s, fields),
    ensures
        r == (s + wire::be32(v), fields.push(Field::Single(v))),
        spells(r.0, r.1),
{
    law_fixed_width_bytes(0, v, 0, 0);
    lemma_then(s, fields, wire::be32(v), Field::Single(v));
    (s + wire::be32(v), fields.push(Field::Single(v)))
}

/// Another field in its own bytes.
pub proof fn then_double(s: Seq<u8>, fields: Seq<Field>, v: u64) -> (r: (Seq<u8>, Seq<Field>))
    requires
        spells(s, fields),
    ensures
        r == (s + wire::be64(v), fields.push(Field::Double(v))),
        spells(r.0, r.1),
{
    law_fixed_width_bytes(0, 0, v, 0);
    lemma_then(s, fields, wire::be64(v), Field::Double(v));
    (s + wire::be64(v), fields.push(Field::Double(v)))
}

/// Another field in its own bytes.
pub proof fn then_uuid(s: Seq<u8>, fields: Seq<Field>, v: u128) -> (r: (Seq<u8>, Seq<Field>))
    requires
        spells(s, fields),
    ensures
        r == (s + wire::be128(v), fields.push(Field::Uuid(v))),
        spells(r.0, r.1),
{
    law_fixed_width_bytes(0, 0, 0, v);
    lemma_then(s, fields, wire::be128(v), Field::Uuid(v));
    (s + wire::be128(v), fields.push(Field::Uuid(v)))
}

/// Another field in its own bytes.
pub proof fn then_varint(s: Seq<u8>, fields: Seq<Field>, v: i32) -> (r: (Seq<u8>, Seq<Field>))
    requires
        spells(s, fields),
    ensures
        r == (s + varint::varint_bytes(v), fields.push(Field::VarInt(v))),
        spells(r.0, r.1),
{
    law_varint_bytes(v);
    lemma_then(s, fields, varint::varint_bytes(v), Field::VarInt(v));
    (s + varint::varint_bytes(v), fields.push(Field::VarInt(v)))
}

/// Another field in its own bytes.
pub proof fn then_text(s: Seq<u8>, fields: Seq<Field>, v: Seq<char>) -> (r: (Seq<u8>, Seq<Field>))
    requires
        spells(s, fields),
    ensures
        r == (s + writer::string_bytes(v), fields.push(Field::Text(v))),
        spells(r.0, r.1),
{
    lemma_is_byte_array(utf8::encode_utf8(v));
    lemma_then(s, fields, writer::string_bytes(v), Field::Text(v));
    (s + writer::string_bytes(v), fields.push(Field::Text(v)))
}

/// Another field in its own bytes.
pub proof fn then_bytes(s: Seq<u8>, fields: Seq<Field>, v: Seq<u8>) -> (r: (Seq<u8>, Seq<Field>))
    requires
        spells(s, fields),
    ensures
        r == (s + writer::byte_array_bytes(v), fields.push(Field::Bytes(v))),
        spells(r.0, r.1),
{
    lemma_is_byte_array(v);
    lemma_then(s, fields, writer::byte_array_bytes(v), Field::Bytes(v));
    (s + writer::byte_array_bytes(v), fields.push(Field::Bytes(v)))
}

/// Another field in its own bytes.
pub proof fn then_raw(s: Seq<u8>, fields: Seq<Field>, v: Seq<u8>) -> (r: (Seq<u8>, Seq<Field>))
    requires
        spells(s, fields),
    ensures
        r == (s + v, fields.push(Field::Raw(v))),
        spells(r.0, r.1),
{
    lemma_then(s, fields, v, Field::Raw(v));
    (s + v, fields.push(Field::Raw(v)))
}

/// The fields of items, one item after another.
pub open spec fn fields_of_each<T>(items: Seq<T>, fields: spec_fn(T) -> Seq<Field>) -> Seq<Field>
    decreases items.len(),
{
    if items.len() == 0 {
        Seq::empty()
    } else {
        fields_of_each(items.drop_last(), fields) + fields(items.last())
    }
}

/// Items one after another, each written as its image, stand for the fields of
/// each.
pub proof fn lemma_each<T, U>(
    items: Seq<T>,
    image: spec_fn(T) -> U,
    encoding: spec_fn(U) -> Seq<u8>,
    fields: spec_fn(T) -> Seq<Field>,
)
    requires
        forall|i: int|
            0 <= i < items.len() ==> spells(
                encoding(image(#[trigger] items[i])),
                fields(items[i]),
            ),
    ensures
        spells(
            writer::concat_bytes(Seq::new(items.len(), |i: int| image(items[i])), encoding),
            fields_of_each(items, fields),
        ),
    decreases items.len(),
{
    let images = Seq::new(items.len(), |i: int| image(items[i]));
    if items.len() == 0 {
        reveal(spells);
    } else {
        let rest = items.drop_last();
        assert forall|i: int| 0 <= i < rest.len() implies spells(
            encoding(image(#[trigger] rest[i])),
            fields(rest[i]),
        ) by {
            assert(rest[i] == items[i]);
        }
        lemma_each(rest, image, encoding, fields);
        assert(images.drop_last() =~= Seq::new(rest.len(), |i: int| image(rest[i])));
        let last = items[items.len() - 1];
        assert(spells(encoding(image(last)), fields(last)));
        lemma_append(
            writer::concat_bytes(images.drop_last(), encoding),
            fields_of_each(rest, fields),
            encoding(image(last)),
            fields(last),
        );
    }
}

/// Nothing in front of bytes changes them.
pub proof fn lemma_front(bytes: Seq<u8>)
    ensures
        Seq::<u8>::empty() + bytes == bytes,
{
    assert(Seq::<u8>::empty() + bytes =~= bytes);
}

} // verus!
