//! What the packets of a client may not hold.

use vstd::prelude::*;
use vstd::utf8;

use crate::protocol::error::{ProtocolError, Result};
use crate::protocol::layout::Field;
use crate::protocol::layout;
use crate::protocol::packets;
use crate::protocol::packets::config;
use crate::protocol::packets::handshake;
use crate::protocol::packets::login;
use crate::protocol::packets::play;
use crate::protocol::reader;
use crate::protocol::reading;
use crate::protocol::types;
use crate::protocol::varint;
use crate::protocol::writer;

verus! {

/// A read fails with an error.
pub open spec fn fails<T>(read: Result<T>, why: ProtocolError) -> bool {
    read matches Err(e) && e == why
}

/// What is said of a text of more than `max` characters: how many there are, or
/// how many bytes, where those are more than three for each.
pub open spec fn too_long(text: Seq<char>, max: int) -> ProtocolError {
    let bytes = utf8::encode_utf8(text);
    if bytes.len() > 3 * max {
        ProtocolError::LengthLimitExceeded { len: bytes.len() as usize, max: (3 * max) as usize }
    } else {
        ProtocolError::StringTooManyChars { len: text.len() as usize, max: max as usize }
    }
}

proof fn lemma_too_long(head: Seq<u8>, text: Seq<char>, max: usize, tail: Seq<u8>)
    requires
        layout::spells(head, seq![Field::Text(text)]),
        text.len() > max,
        utf8::encode_utf8(text).len() <= i32::MAX,
        3 * max <= 0xFFFF_FFFF,
    ensures
        reader::parse_string(head + tail, max).0 == Err::<Seq<char>, ProtocolError>(
            too_long(text, max as int),
        ),
{
    reveal(reader::parse_string);
    let (s, f) = layout::begin();
    layout::lemma_front(writer::string_bytes(text));
    let (s, f) = layout::then_text(s, f, text);
    assert(f =~= seq![Field::Text(text)]);
    layout::law_spelling_is_unique(head, s, f);
    let bytes = utf8::encode_utf8(text);
    assert(text.len() <= bytes.len()) by {
        lemma_char_takes_a_byte(text);
    }
    assert(head + tail =~= varint::varint_bytes(bytes.len() as i32) + bytes + tail);
    reading::law_byte_arrays_read(bytes, reader::max_string_bytes(max), tail);
    reading::law_strings_are_limited(text, bytes, max);
}

proof fn lemma_char_takes_a_byte(text: Seq<char>)
    ensures
        text.len() <= utf8::encode_utf8(text).len(),
    decreases text.len(),
{
    reveal_with_fuel(utf8::encode_utf8, 2);
    if text.len() > 0 {
        lemma_char_takes_a_byte(text.drop_first());
    }
}

/// Names, locales and commands are limited: a player is called by at most 16
/// characters, a locale is named by 16, and a command has 256. A channel has as
/// many as any string.
pub proof fn law_texts_are_limited(
    head: Seq<u8>,
    text: Seq<char>,
    tail: Seq<u8>,
    state: &'static str,
)
    requires
        layout::spells(head, seq![Field::Text(text)]),
        utf8::encode_utf8(text).len() <= i32::MAX,
    ensures
        text.len() > 16 ==> fails(
            packets::parse_exact::<login::Hello>(head + tail, state),
            too_long(text, 16),
        ),
        text.len() > 16 ==> fails(
            packets::parse_exact::<config::ClientInformation>(head + tail, state),
            too_long(text, 16),
        ),
        text.len() > 256 ==> fails(
            packets::parse_exact::<play::ChatCommand>(head + tail, state),
            too_long(text, 256),
        ),
        text.len() > 32767 ==> fails(
            packets::parse_exact::<config::PluginMessage>(head + tail, state),
            too_long(text, 32767),
        ),
{
    if text.len() > 16 {
        lemma_too_long(head, text, 16, tail);
    }
    if text.len() > 256 {
        lemma_too_long(head, text, 256, tail);
    }
    if text.len() > 32767 {
        lemma_too_long(head, text, 32767, tail);
    }
}

/// The address that a client names has at most 255 characters.
pub proof fn law_addresses_are_limited(
    version: i32,
    head: Seq<u8>,
    address: Seq<char>,
    tail: Seq<u8>,
    state: &'static str,
)
    requires
        layout::spells(head, seq![Field::Text(address)]),
        utf8::encode_utf8(address).len() <= i32::MAX,
        address.len() > 255,
    ensures
        fails(
            packets::parse_exact::<handshake::Intention>(
                varint::varint_bytes(version) + (head + tail),
                state,
            ),
            too_long(address, 255),
        ),
{
    reader::lemma_reads_varint(version, head + tail);
    lemma_too_long(head, address, 255, tail);
}

/// The secret and the token of a client have at most 1024 bytes each.
pub proof fn law_keys_are_limited(
    secret: Seq<u8>,
    token: Seq<u8>,
    tail: Seq<u8>,
    state: &'static str,
)
    requires
        secret.len() <= i32::MAX && token.len() <= i32::MAX,
    ensures
        ({
            let second = varint::varint_bytes(token.len() as i32) + token + tail;
            let s = varint::varint_bytes(secret.len() as i32) + secret + second;
            let read = packets::parse_exact::<login::EncryptionResponse>(s, state);
            &&& secret.len() > 1024 ==> fails(
                read,
                ProtocolError::LengthLimitExceeded { len: secret.len() as usize, max: 1024 },
            )
            &&& secret.len() <= 1024 && token.len() > 1024 ==> fails(
                read,
                ProtocolError::LengthLimitExceeded { len: token.len() as usize, max: 1024 },
            )
        }),
{
    let second = varint::varint_bytes(token.len() as i32) + token + tail;
    reading::law_byte_arrays_read(secret, 1024, second);
    reading::law_byte_arrays_read(token, 1024, tail);
}

/// A client names at most 1024 data packs.
pub proof fn law_packs_are_limited(count: i32, tail: Seq<u8>, state: &'static str)
    ensures
        ({
            let read = packets::parse_exact::<config::SelectKnownPacks>(
                varint::varint_bytes(count) + tail,
                state,
            );
            &&& count < 0 ==> fails(
                read,
                ProtocolError::NegativeLength(count),
            )
            &&& count > 1024 ==> fails(
                read,
                ProtocolError::LengthLimitExceeded { len: count as usize, max: 1024 },
            )
        }),
{
    reading::law_lengths_are_limited(count, 1024, tail);
}

/// A number that stands for no choice is told, with what it was read as.
pub proof fn law_other_choices_are_refused(n: i32, small: u8)
    ensures
        !(0 <= n <= 3) ==> fails(
            types::parse_game_mode(n),
            ProtocolError::InvalidEnum { kind: "GameMode", value: n as i64 },
        ),
        small > 3 ==> fails(
            types::parse_difficulty(small),
            ProtocolError::InvalidEnum { kind: "Difficulty", value: small as i64 },
        ),
        !(0 <= n <= 2) ==> fails(
            config::parse_chat_mode(n),
            ProtocolError::InvalidEnum { kind: "ChatMode", value: n as i64 },
        ),
        !(1 <= n <= 3) ==> fails(
            handshake::parse_next_state(n),
            ProtocolError::InvalidEnum { kind: "NextState", value: n as i64 },
        ),
{
}

} // verus!
