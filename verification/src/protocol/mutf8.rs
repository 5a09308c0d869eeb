//! Java's "modified UTF-8", in which NBT strings are written.
//!
//! Supplementary characters are written as a six-byte surrogate pair and
//! `U+0000` is written as `C0 80`, so plain UTF-8 bytes would corrupt anything
//! above the basic multilingual plane.

use vstd::prelude::*;

use crate::protocol::error::{ProtocolError, Result};
use crate::protocol::reader::{PacketReader, Parse};
use crate::protocol::reader;
use crate::protocol::wire;
use crate::protocol::writer::PacketWrite;

verus! {

/// The most bytes that a string can have: its length is a `u16`.
pub const MAX_TEXT_BYTES: usize = 0xFFFF;

/// A 16-bit unit in three bytes.
pub open spec fn unit_bytes(unit: u32) -> Seq<u8> {
    seq![
        0xE0 | (unit >> 12) as u8,
        0x80 | ((unit >> 6) & 0x3F) as u8,
        0x80 | (unit & 0x3F) as u8,
    ]
}

/// The high surrogate of a supplementary character.
pub open spec fn high_surrogate(cp: u32) -> u32 {
    (0xD800 + (((cp - 0x1_0000) as u32) >> 10)) as u32
}

/// The low surrogate of a supplementary character.
pub open spec fn low_surrogate(cp: u32) -> u32 {
    (0xDC00 + (((cp - 0x1_0000) as u32) & 0x3FF)) as u32
}

/// The bytes of one character.
pub open spec fn char_bytes(c: char) -> Seq<u8> {
    let cp = c as u32;
    if cp != 0 && cp < 0x80 {
        seq![cp as u8]
    } else if cp < 0x800 {
        seq![0xC0 | (cp >> 6) as u8, 0x80 | (cp & 0x3F) as u8]
    } else if cp < 0x1_0000 {
        unit_bytes(cp)
    } else {
        unit_bytes(high_surrogate(cp)) + unit_bytes(low_surrogate(cp))
    }
}

/// The bytes of a text.
pub open spec fn text_bytes(text: Seq<char>) -> Seq<u8>
    decreases text.len(),
{
    if text.len() == 0 {
        Seq::empty()
    } else {
        char_bytes(text[0]) + text_bytes(text.skip(1))
    }
}

/// The longest front of `text` that takes no more than `room` bytes.
pub open spec fn fitting(text: Seq<char>, room: int) -> Seq<char>
    decreases text.len(),
{
    if text.len() == 0 || char_bytes(text[0]).len() > room {
        Seq::empty()
    } else {
        seq![text[0]] + fitting(text.skip(1), room - char_bytes(text[0]).len())
    }
}

/// A string as NBT holds it: its length in bytes, then the bytes. What does not
/// fit a 16-bit length is cut off between two characters.
pub open spec fn nbt_string_bytes(text: Seq<char>) -> Seq<u8> {
    let kept = text_bytes(fitting(text, MAX_TEXT_BYTES as int));
    wire::be16(kept.len() as u16) + kept
}

/// The six bits of the continuation byte at `i`.
pub open spec fn continuation_at(bytes: Seq<u8>, i: int) -> Result<u32> {
    if i >= bytes.len() {
        Err(ProtocolError::Nbt("truncated modified UTF-8 sequence"))
    } else if bytes[i] & 0xC0 != 0x80 {
        Err(ProtocolError::Nbt("bad continuation byte"))
    } else {
        Ok((bytes[i] & 0x3F) as u32)
    }
}

/// The 16-bit unit whose lead byte, of the form `1110xxxx`, is at `i`.
pub open spec fn unit_at(bytes: Seq<u8>, i: int) -> Result<u32> {
    match continuation_at(bytes, i + 1) {
        Err(e) => Err(e),
        Ok(mid) => match continuation_at(bytes, i + 2) {
            Err(e) => Err(e),
            Ok(low) => Ok((((bytes[i] & 0x0F) as u32) << 12) | (mid << 6) | low),
        },
    }
}

/// The supplementary character of a surrogate pair.
pub open spec fn paired(high: u32, low: u32) -> char {
    (0x1_0000 + (((high - 0xD800) as u32) << 10) + (low - 0xDC00)) as char
}

/// The character at the front of `bytes`, with the number of its bytes.
pub open spec fn first_char(bytes: Seq<u8>) -> Result<(char, nat)> {
    let b = bytes[0];
    if b < 0x80 {
        Ok((b as char, 1))
    } else if b & 0xE0 == 0xC0 {
        match continuation_at(bytes, 1) {
            Err(e) => Err(e),
            Ok(low) => Ok((((((b & 0x1F) as u32) << 6) | low) as char, 2)),
        }
    } else if b & 0xF0 == 0xE0 {
        match unit_at(bytes, 0) {
            Err(e) => Err(e),
            Ok(unit) => if 0xD800 <= unit < 0xDC00 {
                if bytes.len() <= 3 || bytes[3] & 0xF0 != 0xE0 {
                    Err(ProtocolError::Nbt("unpaired high surrogate"))
                } else {
                    match unit_at(bytes, 3) {
                        Err(e) => Err(e),
                        Ok(low) => if 0xDC00 <= low < 0xE000 {
                            Ok((paired(unit, low), 6))
                        } else {
                            Err(ProtocolError::Nbt("unpaired high surrogate"))
                        },
                    }
                }
            } else if 0xDC00 <= unit < 0xE000 {
                Err(ProtocolError::Nbt("unpaired low surrogate"))
            } else {
                Ok((unit as char, 3))
            },
        }
    } else {
        Err(ProtocolError::Nbt("invalid modified UTF-8 lead byte"))
    }
}

/// The text that `bytes` hold, or the error of the first sequence that is none.
pub open spec fn text_of(bytes: Seq<u8>) -> Result<Seq<char>>
    decreases bytes.len(),
{
    if bytes.len() == 0 {
        Ok(Seq::empty())
    } else {
        match first_char(bytes) {
            Err(e) => Err(e),
            Ok((c, n)) => match text_of(bytes.skip(n as int)) {
                Err(e) => Err(e),
                Ok(rest) => Ok(seq![c] + rest),
            },
        }
    }
}

/// A string behind its length in bytes.
pub open spec fn parse_nbt_string(s: Seq<u8>) -> Parse<Seq<char>> {
    match reader::parse_u16(s) {
        (Err(e), t) => (Err(e), t),
        (Ok(len), t) => match reader::parse_bytes(t, len as usize) {
            (Err(e), u) => (Err(e), u),
            (Ok(bytes), u) => (text_of(bytes), u),
        },
    }
}

/// Calls `String::push`, which appends one character.
#[verifier::external_body]
pub(crate) fn push_char(text: &mut String, c: char)
    ensures
        final(text)@ == old(text)@.push(c),
{
    text.push(c);
}

/// Calls `char::from_u32`, which gives the character of a Unicode scalar value
/// and nothing for any other number.
#[verifier::external_body]
fn char_of(cp: u32) -> (c: Option<char>)
    ensures
        c is Some <==> cp < 0xD800 || 0xE000 <= cp <= 0x10_FFFF,
        c matches Some(c) ==> c == cp as char,
{
    char::from_u32(cp)
}

/// How many bytes one character takes.
fn char_len(c: char) -> (len: usize)
    ensures
        len == char_bytes(c).len(),
        1 <= len <= 6,
{
    let cp: u32 = c as u32;
    if cp == 0 {
        2
    } else if cp < 0x80 {
        1
    } else if cp < 0x800 {
        2
    } else if cp < 0x1_0000 {
        3
    } else {
        // Written as a surrogate pair, three bytes each.
        6
    }
}

/// Length of `s` in Java's modified UTF-8 encoding.
#[must_use]
pub fn modified_utf8_len(s: &str) -> (len: usize)
    requires
        text_bytes(s@).len() <= usize::MAX,
    ensures
        len == text_bytes(s@).len(),
{
    let mut len: usize = 0;
    assert(s@.skip(0) =~= s@);
    for c in it: s.chars()
        invariant
            it.seq() == s@,
            text_bytes(s@).len() <= usize::MAX,
            len + text_bytes(s@.skip(it.index())).len() == text_bytes(s@).len(),
    {
        proof {
            assert(s@.skip(it.index()).skip(1) =~= s@.skip(it.index() + 1));
        }
        len = len + char_len(c);
    }
    len
}

/// Writes one 16-bit unit in three bytes.
fn write_unit<W: PacketWrite>(unit: u32, out: &mut W)
    ensures
        final(out).written() == old(out).written() + unit_bytes(unit),
{
    out.write_u8(0xE0 | (unit >> 12) as u8);
    out.write_u8(0x80 | ((unit >> 6) & 0x3F) as u8);
    out.write_u8(0x80 | (unit & 0x3F) as u8);
    assert(out.written() =~= old(out).written() + unit_bytes(unit));
}

fn write_char<W: PacketWrite>(c: char, out: &mut W)
    ensures
        final(out).written() == old(out).written() + char_bytes(c),
{
    let cp: u32 = c as u32;
    if cp != 0 && cp < 0x80 {
        out.write_u8(cp as u8);
    } else if cp < 0x800 {
        out.write_u8(0xC0 | (cp >> 6) as u8);
        out.write_u8(0x80 | (cp & 0x3F) as u8);
    } else if cp < 0x1_0000 {
        write_unit(cp, out);
    } else {
        let v: u32 = cp - 0x1_0000;
        assert(v >> 10 <= 0x3FF_FFFF && v & 0x3FF <= 0x3FF) by (bit_vector);
        write_unit(0xD800 + (v >> 10), out);
        write_unit(0xDC00 + (v & 0x3FF), out);
    }
    assert(out.written() =~= old(out).written() + char_bytes(c));
}

/// How many characters of `s` fit a 16-bit length, and how many bytes they
/// take.
fn measure(s: &str) -> (kept: (usize, usize))
    ensures
        kept.0 == fitting(s@, MAX_TEXT_BYTES as int).len(),
        kept.1 == text_bytes(fitting(s@, MAX_TEXT_BYTES as int)).len(),
        kept.1 <= MAX_TEXT_BYTES,
{
    let ghost whole = fitting(s@, MAX_TEXT_BYTES as int);
    let mut chars: usize = 0;
    let mut used: usize = 0;
    let mut full: bool = false;
    assert(s@.skip(0) =~= s@);
    for c in it: s.chars()
        invariant
            it.seq() == s@,
            used <= MAX_TEXT_BYTES,
            chars <= used,
            whole == fitting(s@, MAX_TEXT_BYTES as int),
            !full ==> {
                let left = fitting(s@.skip(it.index()), MAX_TEXT_BYTES - used);
                whole.len() == chars + left.len() && text_bytes(whole).len() == used + text_bytes(
                    left,
                ).len()
            },
            full ==> whole.len() == chars && text_bytes(whole).len() == used,
    {
        proof {
            let left = fitting(s@.skip(it.index()), MAX_TEXT_BYTES - used);
            assert(s@.skip(it.index()).skip(1) =~= s@.skip(it.index() + 1));
            if left.len() > 0 {
                assert(left.skip(1) =~= fitting(
                    s@.skip(it.index() + 1),
                    MAX_TEXT_BYTES - used - char_bytes(c).len(),
                ));
            }
        }
        let need: usize = char_len(c);
        if !full && used + need <= MAX_TEXT_BYTES {
            used = used + need;
            chars = chars + 1;
        } else {
            full = true;
        }
    }
    (chars, used)
}

/// Writes a string behind its length in bytes.
///
/// The length is a `u16`; anything longer is unrepresentable, so it is
/// truncated at a character boundary rather than producing a corrupt frame.
pub fn write_modified_utf8<W: PacketWrite>(s: &str, out: &mut W)
    ensures
        final(out).written() == old(out).written() + nbt_string_bytes(s@),
{
    let (kept, len) = measure(s);
    let ghost whole = fitting(s@, MAX_TEXT_BYTES as int);
    out.write_u16(len as u16);
    let ghost prefixed = out.written();
    let mut written: usize = 0;
    proof {
        lemma_fitting_is_front(s@, MAX_TEXT_BYTES as int);
        assert(whole.skip(0) =~= whole);
    }
    for c in it: s.chars()
        invariant
            it.seq() == s@,
            kept == whole.len(),
            whole == s@.take(kept as int),
            kept <= s@.len(),
            written == if it.index() < kept { it.index() } else { kept as int },
            out.written() + text_bytes(whole.skip(written as int)) == prefixed + text_bytes(whole),
    {
        if written < kept {
            let ghost before = out.written();
            let ghost left = whole.skip(written as int);
            write_char(c, out);
            assert(left.skip(1) =~= whole.skip(written + 1));
            assert(before + text_bytes(left) =~= before + char_bytes(c) + text_bytes(left.skip(1)));
            written = written + 1;
        }
    }
    assert(whole.skip(written as int) =~= Seq::<char>::empty());
    assert(out.written() =~= prefixed + text_bytes(whole));
    assert(prefixed + text_bytes(whole) =~= old(out).written() + nbt_string_bytes(s@));
}

/// Reads a string behind its length in bytes.
pub fn read_modified_utf8(r: &mut PacketReader<'_>) -> (text: Result<String>)
    ensures
        final(r).input() == old(r).input(),
        (reader::viewed(text), final(r).rest()) == parse_nbt_string(old(r).rest()),
{
    let len: u16 = r.read_u16()?;
    let bytes = r.read_bytes(len as usize)?;
    decode_modified_utf8(bytes)
}

fn continuation(bytes: &[u8], i: usize) -> (bits: Result<u32>)
    ensures
        bits == continuation_at(bytes@, i as int),
{
    if i >= bytes.len() {
        return Err(ProtocolError::Nbt("truncated modified UTF-8 sequence"));
    }
    let b: u8 = bytes[i];
    if b & 0xC0 != 0x80 {
        return Err(ProtocolError::Nbt("bad continuation byte"));
    }
    Ok((b & 0x3F) as u32)
}

fn unit(bytes: &[u8], i: usize) -> (unit: Result<u32>)
    requires
        i < bytes@.len(),
        i + 2 <= usize::MAX,
    ensures
        unit == unit_at(bytes@, i as int),
        unit matches Ok(u) ==> u < 0x1_0000,
{
    let lead: u8 = bytes[i];
    let mid: u32 = continuation(bytes, i + 1)?;
    let low: u32 = continuation(bytes, i + 2)?;
    proof {
        let (m, l) = (bytes@[i + 1], bytes@[i + 2]);
        assert((((lead & 0x0F) as u32) << 12) | (((m & 0x3F) as u32) << 6) | ((l & 0x3F) as u32)
            < 0x1_0000) by (bit_vector);
    }
    Ok((((lead & 0x0F) as u32) << 12) | (mid << 6) | low)
}

fn decode_first(bytes: &[u8]) -> (first: Result<(char, usize)>)
    requires
        bytes@.len() > 0,
    ensures
        match first {
            Ok((c, n)) => first_char(bytes@) == Ok::<(char, nat), ProtocolError>((c, n as nat))
                && 1 <= n <= bytes@.len(),
            Err(e) => first_char(bytes@) == Err::<(char, nat), ProtocolError>(e),
        },
{
    let b: u8 = bytes[0];
    if b < 0x80 {
        Ok((b as char, 1))
    } else if b & 0xE0 == 0xC0 {
        let low: u32 = continuation(bytes, 1)?;
        let cp: u32 = (((b & 0x1F) as u32) << 6) | low;
        proof {
            let l = bytes@[1];
            assert((((b & 0x1F) as u32) << 6) | ((l & 0x3F) as u32) < 0x800) by (bit_vector);
        }
        match char_of(cp) {
            Some(c) => Ok((c, 2)),
            None => Err(ProtocolError::Nbt("invalid code point")),
        }
    } else if b & 0xF0 == 0xE0 {
        let first: u32 = unit(bytes, 0)?;
        if 0xD800 <= first && first < 0xDC00 {
            // High surrogate: the matching low surrogate follows as its own
            // three-byte sequence.
            if bytes.len() <= 3 {
                return Err(ProtocolError::Nbt("unpaired high surrogate"));
            }
            let lead: u8 = bytes[3];
            if lead & 0xF0 != 0xE0 {
                return Err(ProtocolError::Nbt("unpaired high surrogate"));
            }
            let low: u32 = unit(bytes, 3)?;
            if !(0xDC00 <= low && low < 0xE000) {
                return Err(ProtocolError::Nbt("unpaired high surrogate"));
            }
            let high: u32 = first - 0xD800;
            assert(high << 10 <= 0xF_FC00) by (bit_vector)
                requires
                    high < 0x400,
            ;
            match char_of(0x1_0000 + (high << 10) + (low - 0xDC00)) {
                Some(c) => Ok((c, 6)),
                None => Err(ProtocolError::Nbt("invalid code point")),
            }
        } else if 0xDC00 <= first && first < 0xE000 {
            Err(ProtocolError::Nbt("unpaired low surrogate"))
        } else {
            match char_of(first) {
                Some(c) => Ok((c, 3)),
                None => Err(ProtocolError::Nbt("invalid code point")),
            }
        }
    } else {
        Err(ProtocolError::Nbt("invalid modified UTF-8 lead byte"))
    }
}

/// Decodes modified UTF-8.
pub fn decode_modified_utf8(bytes: &[u8]) -> (text: Result<String>)
    ensures
        reader::viewed(text) == text_of(bytes@),
{
    let mut out: String = String::new();
    let mut i: usize = 0;
    assert(bytes@.skip(0) =~= bytes@);
    proof {
        assert(text_of(bytes@) is Ok ==> Seq::<char>::empty() + text_of(bytes@)->Ok_0 =~= text_of(
            bytes@,
        )->Ok_0);
    }
    while i < bytes.len()
        invariant
            i <= bytes@.len(),
            match text_of(bytes@.skip(i as int)) {
                Ok(rest) => text_of(bytes@) == Ok::<Seq<char>, ProtocolError>(out@ + rest),
                Err(e) => text_of(bytes@) == Err::<Seq<char>, ProtocolError>(e),
            },
        decreases bytes@.len() - i,
    {
        let tail = &bytes[i..bytes.len()];
        assert(tail@ =~= bytes@.skip(i as int));
        let (c, n) = decode_first(tail)?;
        proof {
            assert(tail@.skip(n as int) =~= bytes@.skip(i + n));
            if let Ok(rest) = text_of(tail@.skip(n as int)) {
                assert(out@ + (seq![c] + rest) =~= out@.push(c) + rest);
            }
        }
        push_char(&mut out, c);
        i = i + n;
    }
    assert(bytes@.skip(i as int) =~= Seq::<u8>::empty());
    assert(out@ + Seq::<char>::empty() =~= out@);
    Ok(out)
}

/// A text takes no more than six bytes for each character.
pub proof fn lemma_text_bytes_bound(text: Seq<char>)
    ensures
        text_bytes(text).len() <= 6 * text.len(),
    decreases text.len(),
{
    if text.len() > 0 {
        lemma_text_bytes_bound(text.skip(1));
    }
}

/// What fits is a front of the text.
proof fn lemma_fitting_is_front(text: Seq<char>, room: int)
    ensures
        fitting(text, room).len() <= text.len(),
        fitting(text, room) == text.take(fitting(text, room).len() as int),
    decreases text.len(),
{
    if text.len() > 0 && char_bytes(text[0]).len() <= room {
        let rest = fitting(text.skip(1), room - char_bytes(text[0]).len());
        lemma_fitting_is_front(text.skip(1), room - char_bytes(text[0]).len());
        assert(seq![text[0]] + rest =~= text.take(rest.len() as int + 1));
    } else {
        assert(fitting(text, room) =~= text.take(0));
    }
}

/// A text that takes no more bytes than there is room for is kept whole.
pub proof fn lemma_fitting_whole(text: Seq<char>, room: int)
    requires
        text_bytes(text).len() <= room,
    ensures
        fitting(text, room) == text,
    decreases text.len(),
{
    if text.len() > 0 {
        lemma_fitting_whole(text.skip(1), room - char_bytes(text[0]).len());
        assert(seq![text[0]] + text.skip(1) =~= text);
    } else {
        assert(fitting(text, room) =~= text);
    }
}

/// Every character is read back from its bytes, whatever follows them.
pub proof fn law_char_round_trip(c: char, tail: Seq<u8>)
    ensures
        first_char(char_bytes(c) + tail) == Ok::<(char, nat), ProtocolError>(
            (c, char_bytes(c).len()),
        ),
{
    let cp = c as u32;
    let bytes = char_bytes(c) + tail;
    assert(cp < 0xD800 || 0xE000 <= cp <= 0x10_FFFF);
    if cp != 0 && cp < 0x80 {
        assert(cp < 0x80 ==> (cp as u8) as u32 == cp) by (bit_vector);
        assert((cp as u8) as char == c);
    } else if cp < 0x800 {
        let (b, d) = (0xC0 | (cp >> 6) as u8, 0x80 | (cp & 0x3F) as u8);
        assert(b >= 0x80 && b & 0xE0 == 0xC0 && d & 0xC0 == 0x80 && (((b & 0x1F) as u32) << 6) | (
        (d & 0x3F) as u32) == cp) by (bit_vector)
            requires
                cp < 0x800,
                b == 0xC0 | (cp >> 6) as u8,
                d == 0x80 | (cp & 0x3F) as u8,
        ;
        assert(bytes[0] == b && bytes[1] == d);
    } else if cp < 0x1_0000 {
        lemma_unit_round_trip(cp, bytes, 0);
    } else {
        let (high, low) = (high_surrogate(cp), low_surrogate(cp));
        let v = (cp - 0x1_0000) as u32;
        assert(v >> 10 < 0x400 && v & 0x3FF < 0x400 && ((v >> 10) << 10) + (v & 0x3FF) == v)
            by (bit_vector)
            requires
                v <= 0xF_FFFF,
        ;
        lemma_unit_round_trip(high, bytes, 0);
        lemma_unit_round_trip(low, bytes, 3);
        assert(paired(high, low) == c);
    }
}

/// A 16-bit unit is read back from its bytes.
proof fn lemma_unit_round_trip(unit: u32, bytes: Seq<u8>, i: int)
    requires
        unit < 0x1_0000,
        0 <= i,
        i + 3 <= bytes.len(),
        forall|k: int| 0 <= k < 3 ==> bytes[i + k] == #[trigger] unit_bytes(unit)[k],
    ensures
        unit_at(bytes, i) == Ok::<u32, ProtocolError>(unit),
        bytes[i] & 0xF0 == 0xE0,
        bytes[i] & 0xE0 != 0xC0,
        bytes[i] >= 0x80,
{
    let (b, d, e) = (bytes[i], bytes[i + 1], bytes[i + 2]);
    assert(bytes[i + 0] == unit_bytes(unit)[0]);
    assert(bytes[i + 1] == unit_bytes(unit)[1]);
    assert(bytes[i + 2] == unit_bytes(unit)[2]);
    assert(b & 0xF0 == 0xE0 && b & 0xE0 != 0xC0 && b >= 0x80 && d & 0xC0 == 0x80 && e & 0xC0
        == 0x80 && (((b & 0x0F) as u32) << 12) | (((d & 0x3F) as u32) << 6) | ((e & 0x3F) as u32)
        == unit) by (bit_vector)
        requires
            unit < 0x1_0000,
            b == 0xE0 | (unit >> 12) as u8,
            d == 0x80 | ((unit >> 6) & 0x3F) as u8,
            e == 0x80 | (unit & 0x3F) as u8,
    ;
}

/// Every text is read back from its bytes.
pub proof fn law_text_round_trip(text: Seq<char>)
    ensures
        text_of(text_bytes(text)) == Ok::<Seq<char>, ProtocolError>(text),
    decreases text.len(),
{
    if text.len() > 0 {
        let rest = text_bytes(text.skip(1));
        law_char_round_trip(text[0], rest);
        law_text_round_trip(text.skip(1));
        assert(text_bytes(text).skip(char_bytes(text[0]).len() as int) =~= rest);
        assert(seq![text[0]] + text.skip(1) =~= text);
    } else {
        assert(text =~= Seq::<char>::empty());
    }
}

/// Every string whose bytes fit a 16-bit length is read back as it was written,
/// and exactly its bytes are consumed.
pub proof fn law_nbt_string_round_trip(text: Seq<char>, tail: Seq<u8>)
    requires
        text_bytes(text).len() <= MAX_TEXT_BYTES,
    ensures
        parse_nbt_string(nbt_string_bytes(text) + tail) == (
            Ok::<Seq<char>, ProtocolError>(text),
            tail,
        ),
{
    lemma_fitting_whole(text, MAX_TEXT_BYTES as int);
    law_text_round_trip(text);
    let bytes = text_bytes(text);
    let len = bytes.len() as u16;
    wire::law_be_round_trip(len, 0, 0, 0, bytes + tail);
    assert(nbt_string_bytes(text) + tail =~= wire::be16(len) + (bytes + tail));
    assert((wire::be16(len) + (bytes + tail)).skip(2) =~= bytes + tail);
    assert((bytes + tail).take(len as int) =~= bytes);
    assert((bytes + tail).skip(len as int) =~= tail);
}

} // verus!
