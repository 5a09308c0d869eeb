//! Writing fields into a growing buffer.

use rukkit::protocol::reader::DEFAULT_MAX_STRING_LEN;
use rukkit::protocol::{BlockPos, PacketReader, PacketWrite};

#[test]
fn string_is_byte_length_prefixed() {
    let mut buf = Vec::new();
    buf.write_string("가"); // one character, three UTF-8 bytes
    assert_eq!(buf[0], 3);
    assert_eq!(buf.len(), 4);
}

fn fill(out: &mut impl PacketWrite) {
    out.write_varint(42);
    out.write_string("rukkit");
}

#[test]
fn works_over_bytes_mut_as_well_as_vec() {
    let mut vec = Vec::new();
    let mut bytes = bytes::BytesMut::new();
    fill(&mut vec);
    fill(&mut bytes);
    assert_eq!(&vec[..], &bytes[..]);

    let mut r = PacketReader::new(&vec);
    assert_eq!(r.read_varint().unwrap(), 42);
    assert_eq!(r.read_string(DEFAULT_MAX_STRING_LEN).unwrap(), "rukkit");
    assert!(r.is_empty());
}

#[test]
fn long_array_round_trips() {
    let values = [1i64, -1, i64::MAX, i64::MIN];
    let mut buf = Vec::new();
    buf.write_long_array(&values);

    let mut r = PacketReader::new(&buf);
    let decoded = r.read_array(16, |r| r.read_i64()).unwrap();
    assert_eq!(decoded, values);
}

#[test]
fn position_round_trips_through_the_writer() {
    let pos = BlockPos::new(-1234, -60, 5678);
    let mut buf = Vec::new();
    buf.write_position(pos);
    assert_eq!(PacketReader::new(&buf).read_position().unwrap(), pos);
}
