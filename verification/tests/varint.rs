//! Variable-width integers.

use rukkit::protocol::varint::{
    read_varint, read_varlong, varint_len, varlong_len, write_varint, write_varlong,
    MAX_VARINT_BYTES,
};
use rukkit::protocol::ProtocolError;

/// Encodings taken from the vanilla protocol documentation's sample table.
const VARINT_VECTORS: &[(i32, &[u8])] = &[
    (0, &[0x00]),
    (1, &[0x01]),
    (2, &[0x02]),
    (127, &[0x7F]),
    (128, &[0x80, 0x01]),
    (255, &[0xFF, 0x01]),
    (25565, &[0xDD, 0xC7, 0x01]),
    (2097151, &[0xFF, 0xFF, 0x7F]),
    (2147483647, &[0xFF, 0xFF, 0xFF, 0xFF, 0x07]),
    (-1, &[0xFF, 0xFF, 0xFF, 0xFF, 0x0F]),
    (-2147483648, &[0x80, 0x80, 0x80, 0x80, 0x08]),
];

const VARLONG_VECTORS: &[(i64, &[u8])] = &[
    (0, &[0x00]),
    (1, &[0x01]),
    (127, &[0x7F]),
    (128, &[0x80, 0x01]),
    (2147483647, &[0xFF, 0xFF, 0xFF, 0xFF, 0x07]),
    (
        9223372036854775807,
        &[0xFF, 0xFF, 0xFF, 0xFF, 0xFF, 0xFF, 0xFF, 0xFF, 0x7F],
    ),
    (
        -1,
        &[0xFF, 0xFF, 0xFF, 0xFF, 0xFF, 0xFF, 0xFF, 0xFF, 0xFF, 0x01],
    ),
    (
        -2147483648,
        &[0x80, 0x80, 0x80, 0x80, 0xF8, 0xFF, 0xFF, 0xFF, 0xFF, 0x01],
    ),
];

#[test]
fn varint_matches_reference_encodings() {
    for &(value, expected) in VARINT_VECTORS {
        let mut out = Vec::new();
        write_varint(&mut out, value);
        assert_eq!(out, expected, "encoding {value}");

        let (decoded, used) = read_varint(expected).unwrap();
        assert_eq!(decoded, value, "decoding {expected:?}");
        assert_eq!(used, expected.len());
    }
}

#[test]
fn varlong_matches_reference_encodings() {
    for &(value, expected) in VARLONG_VECTORS {
        let mut out = Vec::new();
        write_varlong(&mut out, value);
        assert_eq!(out, expected, "encoding {value}");

        let (decoded, used) = read_varlong(expected).unwrap();
        assert_eq!(decoded, value, "decoding {expected:?}");
        assert_eq!(used, expected.len());
    }
}

#[test]
fn len_agrees_with_the_encoder() {
    for &(value, expected) in VARINT_VECTORS {
        assert_eq!(varint_len(value), expected.len(), "len of {value}");
    }
    for &(value, expected) in VARLONG_VECTORS {
        assert_eq!(varlong_len(value), expected.len(), "len of {value}");
    }
}

#[test]
fn len_agrees_with_the_encoder_across_bit_widths() {
    // Walk every power-of-two boundary, where the byte count changes.
    for shift in 0..32 {
        for value in [1i32 << shift, (1i32 << shift).wrapping_sub(1)] {
            let mut out = Vec::new();
            write_varint(&mut out, value);
            assert_eq!(varint_len(value), out.len(), "len of {value}");
        }
    }
    for shift in 0..64 {
        for value in [1i64 << shift, (1i64 << shift).wrapping_sub(1)] {
            let mut out = Vec::new();
            write_varlong(&mut out, value);
            assert_eq!(varlong_len(value), out.len(), "len of {value}");
        }
    }
}

#[test]
fn truncated_varint_is_reported_as_eof() {
    // Every byte has the continuation bit set but the buffer runs out.
    let err = read_varint(&[0x80, 0x80]).unwrap_err();
    assert!(matches!(err, ProtocolError::UnexpectedEof { .. }));
    assert!(matches!(
        read_varint(&[]).unwrap_err(),
        ProtocolError::UnexpectedEof { .. }
    ));
}

#[test]
fn oversized_varint_is_rejected() {
    // Six continuation bytes: a malicious client trying to stall the parser.
    let err = read_varint(&[0x80, 0x80, 0x80, 0x80, 0x80, 0x01]).unwrap_err();
    assert!(matches!(err, ProtocolError::VarIntTooLong { .. }));

    let err = read_varlong(&[0x80; 11]).unwrap_err();
    assert!(matches!(err, ProtocolError::VarIntTooLong { .. }));
}

#[test]
fn round_trips_over_the_whole_i32_range() {
    let mut out = Vec::with_capacity(MAX_VARINT_BYTES);
    // Step by a large prime so the sweep hits every byte-length class and
    // both signs without testing four billion values.
    let mut value = i32::MIN;
    loop {
        out.clear();
        write_varint(&mut out, value);
        let (decoded, used) = read_varint(&out).unwrap();
        assert_eq!(decoded, value);
        assert_eq!(used, out.len());
        match value.checked_add(7_654_321) {
            Some(next) => value = next,
            None => break,
        }
    }
}
