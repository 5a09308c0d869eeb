//! Reading fields out of a packet body.

use rukkit::protocol::reader::{DEFAULT_MAX_COLLECTION_LEN, DEFAULT_MAX_STRING_LEN};
use rukkit::protocol::types::{Float32, Float64, Uuid};
use rukkit::protocol::{PacketReader, PacketWrite, ProtocolError};

fn single(value: f32) -> Float32 {
    Float32 {
        bits: value.to_bits(),
    }
}

fn double(value: f64) -> Float64 {
    Float64 {
        bits: value.to_bits(),
    }
}

#[test]
fn reads_primitives_in_order() {
    let mut buf = Vec::new();
    buf.write_bool(true);
    buf.write_i8(-5);
    buf.write_u16(65535);
    buf.write_i32(-123456);
    buf.write_i64(i64::MIN);
    buf.write_f32(single(1.5));
    buf.write_f64(double(-2.25));
    buf.write_varint(25565);

    let mut r = PacketReader::new(&buf);
    assert!(r.read_bool().unwrap());
    assert_eq!(r.read_i8().unwrap(), -5);
    assert_eq!(r.read_u16().unwrap(), 65535);
    assert_eq!(r.read_i32().unwrap(), -123456);
    assert_eq!(r.read_i64().unwrap(), i64::MIN);
    assert_eq!(r.read_f32().unwrap(), single(1.5));
    assert_eq!(r.read_f64().unwrap(), double(-2.25));
    assert_eq!(r.read_varint().unwrap(), 25565);
    assert!(r.is_empty());
}

#[test]
fn reading_past_the_end_errors_instead_of_panicking() {
    let mut r = PacketReader::new(&[0x01]);
    assert_eq!(r.read_u8().unwrap(), 1);
    assert!(matches!(
        r.read_u8().unwrap_err(),
        ProtocolError::UnexpectedEof { .. }
    ));
    assert!(matches!(
        PacketReader::new(&[0, 0]).read_i32().unwrap_err(),
        ProtocolError::UnexpectedEof { .. }
    ));
}

#[test]
fn strings_round_trip_including_multibyte() {
    for original in ["", "hello", "서버", "emoji \u{1F600} ok"] {
        let mut buf = Vec::new();
        buf.write_string(original);
        let mut r = PacketReader::new(&buf);
        assert_eq!(r.read_string(DEFAULT_MAX_STRING_LEN).unwrap(), original);
        assert!(r.is_empty());
    }
}

#[test]
fn string_limit_accepts_multibyte_up_to_the_character_count() {
    // Four 3-byte characters: 12 bytes but only 4 characters. A byte-based
    // limit would wrongly reject this at a limit of 4.
    let mut buf = Vec::new();
    buf.write_string("가나다라");
    assert_eq!(PacketReader::new(&buf).read_string(4).unwrap(), "가나다라");
    // Over the limit it is refused, here by the byte prefix check, which
    // runs first.
    assert!(PacketReader::new(&buf).read_string(3).is_err());
}

#[test]
fn string_char_limit_catches_what_the_byte_limit_misses() {
    // Five ASCII characters are 5 bytes, comfortably under the 4*3 byte
    // allowance, so only the character count can reject them.
    let mut buf = Vec::new();
    buf.write_string("abcde");
    let err = PacketReader::new(&buf).read_string(4).unwrap_err();
    assert!(
        matches!(err, ProtocolError::StringTooManyChars { len: 5, max: 4 }),
        "{err:?}"
    );
    assert_eq!(PacketReader::new(&buf).read_string(5).unwrap(), "abcde");
}

#[test]
fn invalid_utf8_is_rejected() {
    let mut buf = Vec::new();
    buf.write_varint(2);
    buf.extend_from_slice(&[0xFF, 0xFE]);
    let err = PacketReader::new(&buf)
        .read_string(DEFAULT_MAX_STRING_LEN)
        .unwrap_err();
    assert!(matches!(err, ProtocolError::InvalidUtf8));
}

#[test]
fn negative_and_oversized_lengths_are_rejected() {
    let mut buf = Vec::new();
    buf.write_varint(-1);
    assert!(matches!(
        PacketReader::new(&buf).read_length(16).unwrap_err(),
        ProtocolError::NegativeLength(-1)
    ));

    let mut buf = Vec::new();
    buf.write_varint(9999);
    assert!(matches!(
        PacketReader::new(&buf).read_length(16).unwrap_err(),
        ProtocolError::LengthLimitExceeded { .. }
    ));
}

#[test]
fn huge_length_prefix_does_not_preallocate() {
    // A 3-byte packet claiming a million elements must fail on the element
    // read, not by reserving a million slots.
    let mut buf = Vec::new();
    buf.write_varint(1_000_000);
    let mut r = PacketReader::new(&buf);
    let err = r
        .read_array(DEFAULT_MAX_COLLECTION_LEN, |r| r.read_i64())
        .unwrap_err();
    assert!(matches!(err, ProtocolError::UnexpectedEof { .. }));
}

#[test]
fn uuid_round_trips() {
    let id = Uuid::from_u128(0x0123_4567_89AB_CDEF_0123_4567_89AB_CDEF);
    let mut buf = Vec::new();
    buf.write_uuid(id);
    assert_eq!(buf.len(), 16);
    assert_eq!(PacketReader::new(&buf).read_uuid().unwrap(), id);
}

#[test]
fn options_and_arrays_round_trip() {
    let mut buf = Vec::new();
    buf.write_option(Some(7i32), |b, v| b.write_varint(v));
    buf.write_option(None::<i32>, |b, v| b.write_varint(v));
    buf.write_array(&[1i32, 2, 3], |b, v| b.write_varint(*v));

    let mut r = PacketReader::new(&buf);
    assert_eq!(r.read_option(|r| r.read_varint()).unwrap(), Some(7));
    assert_eq!(r.read_option(|r| r.read_varint()).unwrap(), None);
    assert_eq!(
        r.read_array(16, |r| r.read_varint()).unwrap(),
        vec![1, 2, 3]
    );
    assert!(r.is_empty());
}

#[test]
fn trailing_bytes_are_flagged() {
    let r = PacketReader::new(&[0x00, 0x01]);
    assert!(matches!(
        r.expect_finished("play", 0).unwrap_err(),
        ProtocolError::TrailingBytes { trailing: 2, .. }
    ));
    assert!(PacketReader::new(&[]).expect_finished("play", 0).is_ok());
}
