//! Error type shared by every decoding and encoding path.

use vstd::prelude::*;

use crate::protocol::json;
use crate::protocol::mutf8::push_char;
use crate::protocol::types;

verus! {

/// Anything that can go wrong while reading or writing the wire protocol.
///
/// Decoding errors are expected at run time: a peer can send anything at all,
/// so every variant is answered by dropping the connection, never by a panic.
#[derive(Debug)]
pub enum ProtocolError {
    /// The packet ended before the value that was being read did.
    UnexpectedEof { needed: usize, available: usize },
    /// A VarInt or VarLong ran past its maximum width.
    VarIntTooLong { max: usize },
    /// A string is over its limit in bytes.
    StringTooLong { len: usize, max: usize },
    /// A string is over its limit in characters.
    StringTooManyChars { len: usize, max: usize },
    /// The bytes of a string are not UTF-8.
    InvalidUtf8,
    /// A length prefix below zero.
    NegativeLength(i32),
    /// A length prefix over the limit of its collection.
    LengthLimitExceeded { len: usize, max: usize },
    /// A frame over the frame size limit.
    FrameTooLarge { len: usize, max: usize },
    /// A number that names no variant of `kind`.
    InvalidEnum { kind: &'static str, value: i64 },
    /// A packet id that means nothing in the current state.
    UnknownPacket { state: &'static str, id: i32 },
    /// Bytes left over after the last field of a packet.
    TrailingBytes { state: &'static str, id: i32, trailing: usize },
    /// NBT that does not follow the format.
    Nbt(&'static str),
    /// NBT nested past the depth limit.
    NbtTooDeep { max: usize },
    /// zlib data that could not be produced or read.
    Compression(String),
    /// The peer claimed a decompressed size that is over the limit, so that a
    /// few bytes cannot ask for gigabytes of memory.
    DecompressedTooLarge { len: usize, max: usize },
    /// Anything below the compression threshold has to be sent uncompressed.
    BadlyCompressed { size: usize, threshold: usize },
}

/// The hexadecimal digits of a number, without zeros in front.
pub open spec fn hex_digits(n: nat) -> Seq<char>
    decreases n,
{
    let last = types::hex_digit((n % 16) as u128);
    if n < 16 {
        seq![last]
    } else {
        hex_digits(n / 16).push(last)
    }
}

/// A packet id as it is shown: its bits in hexadecimal, in two digits at least.
pub open spec fn id_text(id: i32) -> Seq<char> {
    let bits = (id as u32) as nat;
    "0x"@ + (if bits < 16 {
        "0"@
    } else {
        Seq::empty()
    }) + hex_digits(bits)
}

/// A count as it is shown.
pub open spec fn count_text(count: usize) -> Seq<char> {
    json::decimal(count as int)
}

/// What an error says.
pub open spec fn error_text(e: ProtocolError) -> Seq<char> {
    match e {
        ProtocolError::UnexpectedEof { needed, available } => {
            "unexpected end of packet: needed "@ + count_text(needed) + " more byte(s), had "@
                + count_text(available)
        },
        ProtocolError::VarIntTooLong { max } => {
            "VarInt/VarLong longer than the "@ + count_text(max) + "-byte maximum"@
        },
        ProtocolError::StringTooLong { len, max } => {
            "string is "@ + count_text(len) + " bytes, over the "@ + count_text(max)
                + "-byte limit"@
        },
        ProtocolError::StringTooManyChars { len, max } => {
            "string is "@ + count_text(len) + " characters, over the "@ + count_text(max)
                + "-character limit"@
        },
        ProtocolError::InvalidUtf8 => "invalid UTF-8 in string"@,
        ProtocolError::NegativeLength(len) => {
            "negative length prefix: "@ + json::decimal(len as int)
        },
        ProtocolError::LengthLimitExceeded { len, max } => {
            "length prefix "@ + count_text(len) + " exceeds the "@ + count_text(max)
                + " element limit"@
        },
        ProtocolError::FrameTooLarge { len, max } => {
            "frame is "@ + count_text(len) + " bytes, over the "@ + count_text(max)
                + "-byte limit"@
        },
        ProtocolError::InvalidEnum { kind, value } => {
            json::decimal(value as int) + " is not a valid "@ + kind@
        },
        ProtocolError::UnknownPacket { state, id } => {
            "unknown packet id "@ + id_text(id) + " in state "@ + state@
        },
        ProtocolError::TrailingBytes { state, id, trailing } => {
            count_text(trailing) + " trailing byte(s) after packet "@ + id_text(id)
                + " in state "@ + state@
        },
        ProtocolError::Nbt(what) => "malformed NBT: "@ + what@,
        ProtocolError::NbtTooDeep { max } => {
            "NBT nested more than "@ + count_text(max) + " levels deep"@
        },
        ProtocolError::Compression(what) => "zlib error: "@ + what@,
        ProtocolError::DecompressedTooLarge { len, max } => {
            "declared uncompressed size "@ + count_text(len) + " exceeds the "@ + count_text(max)
                + "-byte limit"@
        },
        ProtocolError::BadlyCompressed { size, threshold } => {
            "packet of "@ + count_text(size) + " bytes was compressed despite being under the "@
                + count_text(threshold) + "-byte threshold"@
        },
    }
}

fn add_number(out: &mut String, value: i128)
    ensures
        final(out)@ == old(out)@ + json::decimal(value as int),
{
    out.append(json::number(value).as_str());
}

/// A text, a count, and a text.
fn around(before: &str, count: usize, after: &str) -> (text: String)
    ensures
        text@ == before@ + count_text(count) + after@,
{
    let mut text = before.to_owned();
    add_number(&mut text, count as i128);
    text.append(after);
    text
}

/// Two counts with texts before, between and after them.
fn compare_counts(
    before: &str,
    count: usize,
    between: &str,
    limit: usize,
    after: &str,
) -> (text: String)
    ensures
        text@ == before@ + count_text(count) + between@ + count_text(limit) + after@,
{
    let mut text = around(before, count, between);
    add_number(&mut text, limit as i128);
    text.append(after);
    text
}

fn add_hex(out: &mut String, n: u32)
    ensures
        final(out)@ == old(out)@ + hex_digits(n as nat),
    decreases n,
{
    if n >= 16 {
        add_hex(out, n / 16);
    }
    let digit: u32 = n % 16;
    let c: char = if digit < 10 {
        (48u8 + digit as u8) as char
    } else {
        (97u8 + (digit - 10) as u8) as char
    };
    push_char(out, c);
    assert(c == types::hex_digit((n as nat % 16) as u128));
    assert(out@ =~= old(out)@ + hex_digits(n as nat));
}

/// Adds a packet id: its bits in hexadecimal, in two digits at least.
pub(crate) fn add_id(out: &mut String, id: i32)
    ensures
        final(out)@ == old(out)@ + id_text(id),
{
    let bits: u32 = id as u32;
    out.append("0x");
    if bits < 16 {
        out.append("0");
    }
    add_hex(out, bits);
    assert(out@ =~= old(out)@ + id_text(id));
}

impl ProtocolError {
    /// The text to show.
    #[must_use]
    pub fn message(&self) -> (text: String)
        ensures
            text@ == error_text(*self),
    {
        match self {
            ProtocolError::UnexpectedEof { needed, available } => {
                let mut text = around(
                    "unexpected end of packet: needed ",
                    *needed,
                    " more byte(s), had ",
                );
                add_number(&mut text, *available as i128);
                text
            },
            ProtocolError::VarIntTooLong { max } => {
                around("VarInt/VarLong longer than the ", *max, "-byte maximum")
            },
            ProtocolError::StringTooLong { len, max } => {
                compare_counts("string is ", *len, " bytes, over the ", *max, "-byte limit")
            },
            ProtocolError::StringTooManyChars { len, max } => compare_counts(
                "string is ",
                *len,
                " characters, over the ",
                *max,
                "-character limit",
            ),
            ProtocolError::InvalidUtf8 => "invalid UTF-8 in string".to_owned(),
            ProtocolError::NegativeLength(len) => {
                let mut text = "negative length prefix: ".to_owned();
                add_number(&mut text, *len as i128);
                text
            },
            ProtocolError::LengthLimitExceeded { len, max } => {
                compare_counts("length prefix ", *len, " exceeds the ", *max, " element limit")
            },
            ProtocolError::FrameTooLarge { len, max } => {
                compare_counts("frame is ", *len, " bytes, over the ", *max, "-byte limit")
            },
            ProtocolError::InvalidEnum { kind, value } => {
                let mut text = json::number(*value as i128);
                text.append(" is not a valid ");
                text.append(kind);
                text
            },
            ProtocolError::UnknownPacket { state, id } => {
                let mut text = "unknown packet id ".to_owned();
                add_id(&mut text, *id);
                text.append(" in state ");
                text.append(state);
                text
            },
            ProtocolError::TrailingBytes { state, id, trailing } => {
                let mut text = json::number(*trailing as i128);
                text.append(" trailing byte(s) after packet ");
                add_id(&mut text, *id);
                text.append(" in state ");
                text.append(state);
                text
            },
            ProtocolError::Nbt(what) => {
                let mut text = "malformed NBT: ".to_owned();
                text.append(what);
                text
            },
            ProtocolError::NbtTooDeep { max } => {
                around("NBT nested more than ", *max, " levels deep")
            },
            ProtocolError::Compression(what) => {
                let mut text = "zlib error: ".to_owned();
                text.append(what.as_str());
                text
            },
            ProtocolError::DecompressedTooLarge { len, max } => compare_counts(
                "declared uncompressed size ",
                *len,
                " exceeds the ",
                *max,
                "-byte limit",
            ),
            ProtocolError::BadlyCompressed { size, threshold } => compare_counts(
                "packet of ",
                *size,
                " bytes was compressed despite being under the ",
                *threshold,
                "-byte threshold",
            ),
        }
    }
}

/// The result of every fallible operation of the protocol.
pub type Result<T> = core::result::Result<T, ProtocolError>;

} // verus!
