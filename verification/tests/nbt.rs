//! Binary tags, in their file and network forms.

use rukkit::protocol::nbt::{
    decode_modified_utf8, modified_utf8_len, read_named, read_network, write_named, write_network,
    NbtCompound, NbtList, NbtTag, MAX_ARRAY_LEN, MAX_DEPTH, TAG_BYTE_ARRAY, TAG_COMPOUND, TAG_END,
    TAG_INT_ARRAY, TAG_LIST,
};
use rukkit::protocol::types::{Float32, Float64};
use rukkit::protocol::{PacketReader, ProtocolError};

fn single(value: f32) -> Float32 {
    Float32 {
        bits: value.to_bits(),
    }
}

fn double(value: f64) -> Float64 {
    Float64 {
        bits: value.to_bits(),
    }
}

fn round_trip_network(tag: &NbtTag) -> NbtTag {
    let mut buf = Vec::new();
    write_network(tag, &mut buf);
    let mut r = PacketReader::new(&buf);
    let decoded = read_network(&mut r).expect("decode");
    assert!(r.is_empty(), "decoder left {} bytes", r.remaining());
    decoded
}

#[test]
fn primitives_round_trip() {
    for tag in [
        NbtTag::Byte(-128),
        NbtTag::Short(-32768),
        NbtTag::Int(i32::MIN),
        NbtTag::Long(i64::MAX),
        NbtTag::Float(single(1.5)),
        NbtTag::Double(double(-2.25)),
        NbtTag::String("hello".into()),
        NbtTag::ByteArray(vec![-1, 0, 1]),
        NbtTag::IntArray(vec![1, -2, 3]),
        NbtTag::LongArray(vec![i64::MIN, 0, i64::MAX]),
    ] {
        assert_eq!(round_trip_network(&tag), tag);
    }
}

#[test]
fn nested_compound_round_trips_and_keeps_order() {
    let mut inner = NbtCompound::new();
    inner.insert("z_first", 1i32).insert("a_second", "text");

    let mut root = NbtCompound::new();
    root.insert("name", "Rukkit")
        .insert("count", 7i32)
        .insert("flag", true)
        .insert("inner", inner);

    let decoded = round_trip_network(&NbtTag::Compound(root.clone()));
    assert_eq!(decoded, NbtTag::Compound(root.clone()));

    // Insertion order is preserved, which keeps encodings byte-stable.
    let keys: Vec<_> = decoded
        .as_compound()
        .unwrap()
        .iter()
        .map(|(k, _)| k)
        .collect();
    assert_eq!(keys, ["name", "count", "flag", "inner"]);
}

#[test]
fn empty_list_keeps_its_element_type() {
    let tag = NbtTag::List(NbtList::empty());
    let decoded = round_trip_network(&tag);
    match decoded {
        NbtTag::List(list) => {
            assert_eq!(list.element_type(), TAG_END);
            assert!(list.is_empty());
        }
        other => panic!("expected list, got {other:?}"),
    }
}

#[test]
fn list_rejects_mixed_element_types() {
    assert!(NbtList::new(vec![NbtTag::Int(1), NbtTag::String("x".into())]).is_none());
    assert!(NbtList::new(vec![NbtTag::Int(1), NbtTag::Int(2)]).is_some());
}

#[test]
fn named_root_round_trips() {
    let tag = NbtTag::Compound({
        let mut c = NbtCompound::new();
        c.insert("DataVersion", 4903i32);
        c
    });
    let mut buf = Vec::new();
    write_named("Level", &tag, &mut buf);
    let (name, decoded) = read_named(&mut PacketReader::new(&buf)).unwrap();
    assert_eq!(name, "Level");
    assert_eq!(decoded, tag);
}

#[test]
fn network_root_carries_no_name() {
    let tag = NbtTag::Compound(NbtCompound::new());
    let mut network = Vec::new();
    write_network(&tag, &mut network);
    // Type byte plus the compound's own TAG_End terminator, nothing else.
    assert_eq!(network, vec![TAG_COMPOUND, TAG_END]);

    let mut named = Vec::new();
    write_named("", &tag, &mut named);
    assert_eq!(named, vec![TAG_COMPOUND, 0x00, 0x00, TAG_END]);
}

#[test]
fn modified_utf8_handles_supplementary_characters() {
    // U+1F600 is outside the BMP: modified UTF-8 writes it as a six-byte
    // surrogate pair where plain UTF-8 would use four bytes.
    let text = "hi \u{1F600}!";
    assert_eq!(modified_utf8_len(text), 3 + 6 + 1);
    assert_ne!(modified_utf8_len(text), text.len());

    let tag = NbtTag::String(text.into());
    assert_eq!(round_trip_network(&tag), tag);
}

#[test]
fn modified_utf8_encodes_nul_as_two_bytes() {
    let tag = NbtTag::String("a\u{0}b".into());
    let mut buf = Vec::new();
    write_network(&tag, &mut buf);
    // type, u16 length, then 'a', C0 80, 'b'
    assert_eq!(&buf[1..3], &[0x00, 0x04]);
    assert_eq!(&buf[3..], &[b'a', 0xC0, 0x80, b'b']);
    assert_eq!(round_trip_network(&tag), tag);
}

#[test]
fn unpaired_surrogates_are_rejected() {
    // A lone high surrogate, hand-encoded.
    let bytes = [0xED, 0xA0, 0x80];
    assert!(decode_modified_utf8(&bytes).is_err());
    // A lone low surrogate.
    let bytes = [0xED, 0xB0, 0x80];
    assert!(decode_modified_utf8(&bytes).is_err());
}

#[test]
fn truncated_sequences_are_rejected() {
    assert!(decode_modified_utf8(&[0xC2]).is_err());
    assert!(decode_modified_utf8(&[0xE0, 0xA0]).is_err());
    assert!(decode_modified_utf8(&[0xFF]).is_err());
}

#[test]
fn deep_nesting_is_rejected_instead_of_overflowing_the_stack() {
    // MAX_DEPTH + 2 nested lists, each one element long.
    let mut buf = Vec::new();
    buf.push(TAG_LIST);
    let depth = MAX_DEPTH + 2;
    for _ in 0..depth {
        buf.push(TAG_LIST);
        buf.extend_from_slice(&1i32.to_be_bytes());
    }
    buf.push(TAG_END);
    buf.extend_from_slice(&0i32.to_be_bytes());

    let err = read_network(&mut PacketReader::new(&buf)).unwrap_err();
    assert!(matches!(err, ProtocolError::NbtTooDeep { .. }));
}

#[test]
fn bogus_array_length_does_not_preallocate() {
    // Claims 16 million ints in a 5-byte payload.
    let mut buf = Vec::new();
    buf.push(TAG_INT_ARRAY);
    buf.extend_from_slice(&(MAX_ARRAY_LEN as i32).to_be_bytes());
    let err = read_network(&mut PacketReader::new(&buf)).unwrap_err();
    assert!(matches!(err, ProtocolError::UnexpectedEof { .. }));

    // Over the cap it is refused outright.
    let mut buf = Vec::new();
    buf.push(TAG_INT_ARRAY);
    buf.extend_from_slice(&i32::MAX.to_be_bytes());
    let err = read_network(&mut PacketReader::new(&buf)).unwrap_err();
    assert!(matches!(err, ProtocolError::LengthLimitExceeded { .. }));
}

#[test]
fn negative_array_length_is_rejected() {
    let mut buf = Vec::new();
    buf.push(TAG_BYTE_ARRAY);
    buf.extend_from_slice(&(-1i32).to_be_bytes());
    let err = read_network(&mut PacketReader::new(&buf)).unwrap_err();
    assert!(matches!(err, ProtocolError::NegativeLength(-1)));
}

#[test]
fn unknown_tag_type_is_rejected() {
    let err = read_network(&mut PacketReader::new(&[99])).unwrap_err();
    assert!(matches!(err, ProtocolError::InvalidEnum { .. }));
}

#[test]
fn a_key_set_again_is_written_once_at_every_depth() {
    let mut deepest = NbtCompound::new();
    deepest.insert("k", 1i32).insert("other", 2i32).insert("k", "last");
    let list = NbtList::new(vec![
        NbtTag::Compound(deepest.clone()),
        NbtTag::Compound(NbtCompound::new()),
    ])
    .expect("one element type");
    let mut root = NbtCompound::new();
    root.insert("list", NbtTag::Byte(1))
        .insert(String::from("after"), NbtTag::Long(9))
        .insert("list", NbtTag::List(list));
    let tag = NbtTag::Compound(root);

    let decoded = round_trip_network(&tag);
    assert_eq!(decoded, tag);
    let root = decoded.as_compound().unwrap();
    assert_eq!(root.len(), 2);
    assert_eq!(root.get("after"), Some(&NbtTag::Long(9)));
    assert_eq!(deepest.len(), 2);
    assert_eq!(deepest.get("k"), Some(&NbtTag::String("last".into())));

    let mut buf = Vec::new();
    write_named("root", &tag, &mut buf);
    let mut r = PacketReader::new(&buf);
    assert_eq!(read_named(&mut r).expect("decode"), ("root".to_owned(), tag));
    assert!(r.is_empty());
}
