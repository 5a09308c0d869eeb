//! What errors say: which number or name stands where.

use vstd::prelude::*;

use crate::protocol;
use crate::protocol::error;
use crate::protocol::error::ProtocolError;
use crate::protocol::json;
use crate::protocol::layout;
use crate::protocol::types;
use crate::protocol::zlib;
use crate::protocol::State;

verus! {

/// A text that begins with `front` and a number, and ends with a number and
/// `back`.
pub open spec fn between(
    text: Seq<char>,
    front: Seq<char>,
    a: int,
    b: int,
    back: Seq<char>,
) -> bool {
    let (head, tail) = (front + json::decimal(a), json::decimal(b) + back);
    &&& head.is_prefix_of(text)
    &&& tail.is_suffix_of(text)
    &&& head.len() + tail.len() < text.len()
}

/// An error that compares two numbers tells the one that came first and the one
/// that it was held against last. One of a single number, name or reason ends or
/// begins with it.
pub proof fn law_errors_tell_their_numbers(e: ProtocolError)
    ensures
        ({
            let text = error::error_text(e);
            match e {
                ProtocolError::UnexpectedEof { needed, available } => between(
                    text,
                    "unexpected end of packet: needed "@,
                    needed as int,
                    available as int,
                    ""@,
                ),
                ProtocolError::VarIntTooLong { max } => (json::decimal(max as int)
                    + "-byte maximum"@).is_suffix_of(text),
                ProtocolError::StringTooLong { len, max } => between(
                    text,
                    "string is "@,
                    len as int,
                    max as int,
                    "-byte limit"@,
                ),
                ProtocolError::StringTooManyChars { len, max } => between(
                    text,
                    "string is "@,
                    len as int,
                    max as int,
                    "-character limit"@,
                ),
                ProtocolError::InvalidUtf8 => text == "invalid UTF-8 in string"@,
                ProtocolError::NegativeLength(len) => json::decimal(len as int).is_suffix_of(text),
                ProtocolError::LengthLimitExceeded { len, max } => between(
                    text,
                    "length prefix "@,
                    len as int,
                    max as int,
                    " element limit"@,
                ),
                ProtocolError::FrameTooLarge { len, max } => between(
                    text,
                    "frame is "@,
                    len as int,
                    max as int,
                    "-byte limit"@,
                ),
                ProtocolError::InvalidEnum { kind, value } => json::decimal(
                    value as int,
                ).is_prefix_of(text) && kind@.is_suffix_of(text),
                ProtocolError::UnknownPacket { state, id } => (error::id_text(id) + " in state "@
                    + state@).is_suffix_of(text),
                ProtocolError::TrailingBytes { state, id, trailing } => (json::decimal(
                    trailing as int,
                ) + " trailing"@).is_prefix_of(text) && (error::id_text(id) + " in state "@
                    + state@).is_suffix_of(text),
                ProtocolError::Nbt(what) => what@.is_suffix_of(text),
                ProtocolError::NbtTooDeep { max } => (json::decimal(max as int)
                    + " levels deep"@).is_suffix_of(text),
                ProtocolError::Compression(what) => what@.is_suffix_of(text),
                ProtocolError::DecompressedTooLarge { len, max } => between(
                    text,
                    "declared uncompressed size "@,
                    len as int,
                    max as int,
                    "-byte limit"@,
                ),
                ProtocolError::BadlyCompressed { size, threshold } => between(
                    text,
                    "packet of "@,
                    size as int,
                    threshold as int,
                    "-byte threshold"@,
                ),
            }
        }),
{
    reveal_strlit("");
    reveal_strlit(" more byte(s), had ");
    reveal_strlit(" bytes, over the ");
    reveal_strlit(" characters, over the ");
    reveal_strlit(" exceeds the ");
    reveal_strlit(" bytes was compressed despite being under the ");
    reveal_strlit(" trailing");
    reveal_strlit(" trailing byte(s) after packet ");
}

/// What a hexadecimal digit in lower case is worth.
pub open spec fn small_hex_worth(c: char) -> int {
    if '0' <= c <= '9' {
        c as int - '0' as int
    } else if 'a' <= c <= 'f' {
        c as int - 'a' as int + 10
    } else {
        -1
    }
}

/// The number that hexadecimal digits add up to.
pub open spec fn hex_value(digits: Seq<char>) -> int
    decreases digits.len(),
{
    if digits.len() == 0 {
        0
    } else {
        hex_value(digits.drop_last()) * 16 + small_hex_worth(digits.last())
    }
}

proof fn lemma_hex_digits(n: nat)
    ensures
        error::hex_digits(n).len() >= 1,
        hex_value(error::hex_digits(n)) == n,
        forall|i: int|
            0 <= i < error::hex_digits(n).len() ==> 0 <= small_hex_worth(
                #[trigger] error::hex_digits(n)[i],
            ) < 16,
        n >= 16 ==> error::hex_digits(n).len() >= 2 && error::hex_digits(n)[0] != '0',
        1 <= n < 16 ==> error::hex_digits(n)[0] != '0',
        n < 16 ==> error::hex_digits(n).len() == 1,
    decreases n,
{
    let all = error::hex_digits(n);
    let last = types::hex_digit((n % 16) as u128);
    assert(small_hex_worth(last) == n % 16);
    if n >= 16 {
        lemma_hex_digits(n / 16);
        let front = error::hex_digits(n / 16);
        assert(all.drop_last() =~= front);
        assert(forall|i: int| 0 <= i < front.len() ==> #[trigger] all[i] == front[i]);
    } else {
        assert(all.drop_last() =~= Seq::<char>::empty());
        assert(hex_value(all.drop_last()) == 0);
    }
}

/// A packet id is shown as `0x` and at least two hexadecimal digits that add up
/// to its 32 bits, without more zeros in front than that takes.
pub proof fn law_packet_ids_are_shown_in_hex(id: i32)
    ensures
        ({
            let text = error::id_text(id);
            let digits = text.skip(2);
            &&& text[0] == '0' && text[1] == 'x'
            &&& digits.len() >= 2
            &&& digits.len() > 2 ==> digits[0] != '0'
            &&& forall|i: int| 0 <= i < digits.len() ==> 0 <= small_hex_worth(#[trigger] digits[i])
                < 16
            &&& hex_value(digits) == id as int % 0x1_0000_0000
        }),
{
    layout::lemma_unsigned(0, id, 0);
    reveal_strlit("0x");
    reveal_strlit("0");
    let bits = (id as u32) as nat;
    let shown = error::hex_digits(bits);
    let digits = error::id_text(id).skip(2);
    lemma_hex_digits(bits);
    if bits < 16 {
        assert(digits =~= seq!['0'] + shown);
        assert(digits.drop_last() =~= seq!['0']);
        assert(seq!['0'].drop_last() =~= Seq::<char>::empty());
        reveal_with_fuel(hex_value, 3);
        assert(digits.last() == shown.last());
    } else {
        assert(digits =~= shown);
    }
}

/// Every connection state has its own name.
pub proof fn law_states_are_named(state: State)
    ensures
        ({
            let name = protocol::state_name(state)@;
            &&& name == "handshaking"@ <==> state == State::Handshaking
            &&& name == "status"@ <==> state == State::Status
            &&& name == "login"@ <==> state == State::Login
            &&& name == "configuration"@ <==> state == State::Configuration
            &&& name == "play"@ <==> state == State::Play
        }),
{
    reveal_strlit("handshaking");
    reveal_strlit("status");
    reveal_strlit("login");
    reveal_strlit("configuration");
    reveal_strlit("play");
    assert("handshaking"@.len() == 11 && "status"@.len() == 6 && "login"@.len() == 5);
    assert("configuration"@.len() == 13 && "play"@.len() == 4);
}

/// Content is accepted just where all that was declared of it is there, no more
/// and no less; otherwise the amount found is told before the amount declared.
pub proof fn law_content_is_exact(inflated: Option<Seq<u8>>, expected: usize)
    ensures
        zlib::content_fault(inflated, expected) is None <==> (inflated matches Some(out)
            && out.len() == expected),
        inflated matches Some(out) ==> (zlib::content_fault(inflated, expected) matches Some(why)
            ==> between(why, "zlib stream produced "@, out.len() as int, expected as int, ""@)),
{
    reveal_strlit("");
    reveal_strlit(" bytes, declared ");
}

} // verus!
