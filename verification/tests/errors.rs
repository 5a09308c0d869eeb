//! Inputs that are refused, each with its own error.

use bytes::BytesMut;
use rukkit::protocol::codec::{Decoder, Encoder, MAX_FRAME_LEN};
use rukkit::protocol::nbt::{decode_modified_utf8, read_named, read_network, MAX_DEPTH, TAG_LIST};
use rukkit::protocol::packets::config::ChatMode;
use rukkit::protocol::packets::handshake::NextState;
use rukkit::protocol::packets::status::PingRequest;
use rukkit::protocol::packets::{decode_exact, handshake};
use rukkit::protocol::varint::{read_varint, read_varlong};
use rukkit::protocol::zlib::{decompress_exact, exact_content};
use rukkit::protocol::{Difficulty, GameMode, PacketReader, PacketWrite, ProtocolError};

/// The bytes of a frame around `body`.
fn framed(body: &[u8]) -> Vec<u8> {
    let mut frame = Vec::new();
    frame.write_varint(body.len() as i32);
    frame.write_bytes(body);
    frame
}

fn decode(compression: Option<usize>, bytes: &[u8]) -> ProtocolError {
    let mut decoder = Decoder::new();
    if let Some(threshold) = compression {
        decoder.enable_compression(threshold);
    }
    decoder.feed(&mut bytes.to_vec());
    decoder.decode().unwrap_err()
}

#[test]
fn a_short_packet_names_what_is_missing() {
    let mut r = PacketReader::new(&[1, 2, 3]);
    assert!(matches!(
        r.read_i64().unwrap_err(),
        ProtocolError::UnexpectedEof {
            needed: 8,
            available: 3
        }
    ));
}

#[test]
fn an_endless_varint_is_too_long() {
    assert!(matches!(
        read_varint(&[0x80; 6]).unwrap_err(),
        ProtocolError::VarIntTooLong { max: 5 }
    ));
    assert!(matches!(
        read_varlong(&[0x80; 11]).unwrap_err(),
        ProtocolError::VarIntTooLong { max: 10 }
    ));
}

#[test]
fn a_string_over_its_limit_in_bytes_is_refused_before_it_is_read() {
    let mut body = Vec::new();
    body.write_string(&"a".repeat(13));
    let mut r = PacketReader::new(&body);
    assert!(matches!(
        r.read_string(4).unwrap_err(),
        ProtocolError::LengthLimitExceeded { len: 13, max: 12 }
    ));
}

#[test]
fn a_string_over_its_limit_in_characters_is_refused() {
    let mut body = Vec::new();
    body.write_string("abcde");
    let mut r = PacketReader::new(&body);
    assert!(matches!(
        r.read_string(4).unwrap_err(),
        ProtocolError::StringTooManyChars { len: 5, max: 4 }
    ));
}

#[test]
fn bytes_that_are_not_utf8_are_refused() {
    // A continuation byte on its own, an overlong slash, and a surrogate.
    for bad in [&[0x80u8][..], &[0xC0, 0xAF], &[0xED, 0xA0, 0x80]] {
        let mut body = Vec::new();
        body.write_byte_array(bad);
        let mut r = PacketReader::new(&body);
        assert!(matches!(
            r.read_string(16).unwrap_err(),
            ProtocolError::InvalidUtf8
        ));
    }
}

#[test]
fn a_negative_length_is_refused() {
    let mut body = Vec::new();
    body.write_varint(-5);
    let mut r = PacketReader::new(&body);
    assert!(matches!(
        r.read_length(10).unwrap_err(),
        ProtocolError::NegativeLength(-5)
    ));
}

#[test]
fn a_collection_over_its_limit_is_refused() {
    let mut body = Vec::new();
    body.write_varint(11);
    let mut r = PacketReader::new(&body);
    assert!(matches!(
        r.read_array(10, PacketReader::read_u8).unwrap_err(),
        ProtocolError::LengthLimitExceeded { len: 11, max: 10 }
    ));
}

#[test]
fn numbers_that_name_nothing_are_refused() {
    assert!(matches!(
        GameMode::from_id(4).unwrap_err(),
        ProtocolError::InvalidEnum {
            kind: "GameMode",
            value: 4
        }
    ));
    assert!(matches!(
        Difficulty::from_id(4).unwrap_err(),
        ProtocolError::InvalidEnum { value: 4, .. }
    ));
    assert!(matches!(
        NextState::from_id(0).unwrap_err(),
        ProtocolError::InvalidEnum { value: 0, .. }
    ));
    assert!(matches!(
        ChatMode::from_id(-1).unwrap_err(),
        ProtocolError::InvalidEnum { value: -1, .. }
    ));
}

#[test]
fn bytes_after_a_packet_are_counted() {
    let body = [0u8; 10];
    let Err(error) = decode_exact::<PingRequest>(&body, "status") else {
        panic!("two bytes are left over");
    };
    assert!(matches!(
        error,
        ProtocolError::TrailingBytes {
            state: "status",
            id: 1,
            trailing: 2
        }
    ));
}

#[test]
fn a_packet_that_ends_early_is_refused() {
    assert!(decode_exact::<handshake::Intention>(&[], "handshaking").is_err());
}

#[test]
fn malformed_tags_are_refused() {
    // An unknown tag type.
    assert!(matches!(
        read_network(&mut PacketReader::new(&[13])).unwrap_err(),
        ProtocolError::InvalidEnum { value: 13, .. }
    ));
    // Nothing at all, in the network form and in the file form.
    assert!(matches!(
        read_network(&mut PacketReader::new(&[0])).unwrap_err(),
        ProtocolError::Nbt("root tag is TAG_End")
    ));
    assert!(matches!(
        read_named(&mut PacketReader::new(&[0, 0, 0])).unwrap_err(),
        ProtocolError::Nbt("root tag is TAG_End")
    ));
    // A list of two ends.
    assert!(matches!(
        read_network(&mut PacketReader::new(&[TAG_LIST, 0, 0, 0, 0, 2])).unwrap_err(),
        ProtocolError::Nbt("non-empty list of TAG_End")
    ));
}

#[test]
fn malformed_texts_are_refused_each_for_its_own_reason() {
    let cases: [(&[u8], &str); 6] = [
        (&[0xC3], "truncated modified UTF-8 sequence"),
        (&[0xC3, 0x20], "bad continuation byte"),
        (&[0xED, 0xA0, 0xBD], "unpaired high surrogate"),
        (&[0xED, 0xA0, 0xBD, 0xED, 0xA0, 0xBD], "unpaired high surrogate"),
        (&[0xED, 0xB8, 0x80], "unpaired low surrogate"),
        (&[0xF0, 0x9F, 0x98, 0x80], "invalid modified UTF-8 lead byte"),
    ];
    for (bytes, why) in cases {
        match decode_modified_utf8(bytes) {
            Err(ProtocolError::Nbt(what)) => assert_eq!(what, why),
            other => panic!("{bytes:?} gave {other:?}"),
        }
    }
}

#[test]
fn nesting_is_allowed_up_to_the_limit_and_no_further() {
    // Lists of one list each, the innermost empty.
    let nested = |depth: usize| {
        let mut bytes = vec![TAG_LIST];
        for _ in 1..depth {
            bytes.extend_from_slice(&[TAG_LIST, 0, 0, 0, 1]);
        }
        bytes.extend_from_slice(&[0, 0, 0, 0, 0]);
        bytes
    };
    assert!(read_network(&mut PacketReader::new(&nested(MAX_DEPTH + 1))).is_ok());
    assert!(matches!(
        read_network(&mut PacketReader::new(&nested(MAX_DEPTH + 2))).unwrap_err(),
        ProtocolError::NbtTooDeep { max: MAX_DEPTH }
    ));
}

#[test]
fn a_frame_over_the_limit_is_refused_both_ways() {
    let mut prefix = Vec::new();
    prefix.write_varint(MAX_FRAME_LEN as i32 + 1);
    assert!(matches!(
        decode(None, &prefix),
        ProtocolError::FrameTooLarge {
            max: MAX_FRAME_LEN,
            ..
        }
    ));

    let mut out = BytesMut::new();
    let packet = vec![0u8; MAX_FRAME_LEN + 1];
    let error = Encoder::new().encode(&packet, &mut out).unwrap_err();
    assert!(matches!(error, ProtocolError::FrameTooLarge { .. }));
    assert!(out.is_empty(), "a refused packet leaves the buffer alone");
}

#[test]
fn a_negative_frame_length_is_refused() {
    let mut prefix = Vec::new();
    prefix.write_varint(-1);
    assert!(matches!(
        decode(None, &prefix),
        ProtocolError::NegativeLength(-1)
    ));
}

#[test]
fn a_broken_stream_is_a_compression_error() {
    let mut body = Vec::new();
    body.write_varint(300);
    body.write_bytes(&[0xDE, 0xAD, 0xBE, 0xEF]);
    assert!(matches!(
        decode(Some(256), &framed(&body)),
        ProtocolError::Compression(_)
    ));
    let mut zlib = flate2::Decompress::new(true);
    assert!(matches!(
        decompress_exact(&mut zlib, &[1, 2, 3], 10).unwrap_err(),
        ProtocolError::Compression(_)
    ));
}

#[test]
fn a_declared_size_over_the_limit_is_refused() {
    let mut body = Vec::new();
    body.write_varint(i32::MAX);
    assert!(matches!(
        decode(Some(256), &framed(&body)),
        ProtocolError::DecompressedTooLarge { .. }
    ));
}

#[test]
fn a_packet_compressed_under_the_threshold_is_refused() {
    let mut body = Vec::new();
    body.write_varint(255);
    assert!(matches!(
        decode(Some(256), &framed(&body)),
        ProtocolError::BadlyCompressed {
            size: 255,
            threshold: 256
        }
    ));
}

#[test]
fn content_of_another_size_than_declared_is_refused() {
    assert_eq!(exact_content(Some(vec![1, 2]), 2).unwrap(), vec![1, 2]);
    let Err(ProtocolError::Compression(why)) = exact_content(Some(vec![1, 2]), 3) else {
        panic!("two bytes are not three");
    };
    assert_eq!(why, "zlib stream produced 2 bytes, declared 3");
    let Err(ProtocolError::Compression(why)) = exact_content(None, 3) else {
        panic!("nothing is not three bytes");
    };
    assert_eq!(why, "truncated zlib stream, or larger than its declared size");
}
