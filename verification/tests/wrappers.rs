//! What the library has from other crates, seen through its own functions.

use aes::Aes128;
use bytes::BytesMut;
use cfb8::cipher::{AsyncStreamCipher, KeyIvInit};
use rukkit::protocol::codec::{Decoder, Encoder};
use rukkit::protocol::crypt::{Decryptor, Encryptor};
use rukkit::protocol::nbt::{decode_modified_utf8, NbtCompound};
use rukkit::protocol::packets::status::ServerStatus;
use rukkit::protocol::types::Uuid;
use rukkit::protocol::zlib::{compress_into, decompress_exact, COMPRESSION_LEVEL};
use rukkit::protocol::{Component, PacketReader, PacketWrite};
use rukkit::server::offline_uuid;
use rukkit::server::player::uuid_from_digest;

const SECRET: [u8; 16] = *b"0123456789abcdef";

#[test]
fn the_cipher_is_aes_128_in_cfb8_mode() {
    let plain: Vec<u8> = (0..200u8).collect();

    let mut expected = plain.clone();
    cfb8::Encryptor::<Aes128>::new_from_slices(&SECRET, &SECRET)
        .unwrap()
        .encrypt(&mut expected);

    let mut data = plain.clone();
    Encryptor::new(&SECRET).unwrap().encrypt(&mut data);
    assert_eq!(data, expected);

    let mut opened = expected.clone();
    cfb8::Decryptor::<Aes128>::new_from_slices(&SECRET, &SECRET)
        .unwrap()
        .decrypt(&mut opened);
    Decryptor::new(&SECRET).unwrap().decrypt(&mut data);
    assert_eq!(data, opened);
    assert_eq!(data, plain);
}

#[test]
fn streams_are_zlib_streams() {
    let plain: Vec<u8> = std::iter::repeat_n(b'z', 1000).collect();
    let stream = compress_into(&plain).unwrap();
    assert!(stream.len() < plain.len());

    let mut expected = Vec::with_capacity(plain.len());
    flate2::Compress::new(flate2::Compression::new(COMPRESSION_LEVEL), true)
        .compress_vec(&plain, &mut expected, flate2::FlushCompress::Finish)
        .unwrap();
    assert_eq!(stream, expected);

    let mut inflated = Vec::with_capacity(plain.len());
    flate2::Decompress::new(true)
        .decompress_vec(&stream, &mut inflated, flate2::FlushDecompress::Finish)
        .unwrap();
    assert_eq!(inflated, plain);

    let mut zlib = flate2::Decompress::new(true);
    assert_eq!(decompress_exact(&mut zlib, &stream, 1000).unwrap(), plain);
    assert!(decompress_exact(&mut zlib, &stream, 999).is_err());
    assert!(decompress_exact(&mut zlib, &stream, 1001).is_err());
    // A decompressor can be used again.
    assert_eq!(decompress_exact(&mut zlib, &stream, 1000).unwrap(), plain);
}

#[test]
fn data_that_does_not_compress_is_compressed_all_the_same() {
    let mut state = 1u32;
    let noise: Vec<u8> = (0..5000)
        .map(|_| {
            state = state.wrapping_mul(1_664_525).wrapping_add(1_013_904_223);
            (state >> 24) as u8
        })
        .collect();
    let stream = compress_into(&noise).unwrap();
    let mut zlib = flate2::Decompress::new(true);
    assert_eq!(
        decompress_exact(&mut zlib, &stream, noise.len()).unwrap(),
        noise
    );
}

#[test]
fn offline_identities_are_md5_digests() {
    assert_eq!(
        offline_uuid("Notch").to_string(),
        "b50ad385-829d-3141-a216-7e7d7539ba7f"
    );
    // The digest of nothing, with the version and the variant forced.
    let digest = [
        0xD4, 0x1D, 0x8C, 0xD9, 0x8F, 0x00, 0xB2, 0x04, 0xE9, 0x80, 0x09, 0x98, 0xEC, 0xF8, 0x42,
        0x7E,
    ];
    assert_eq!(
        uuid_from_digest(digest).to_string(),
        "d41d8cd9-8f00-3204-a980-0998ecf8427e"
    );
}

#[test]
fn identities_are_shown_with_hyphens() {
    let uuid = Uuid::from_u128(0x0123_4567_89AB_CDEF_FEDC_BA98_7654_3210);
    assert_eq!(uuid.to_string(), "01234567-89ab-cdef-fedc-ba9876543210");
    assert_eq!(Uuid::nil().to_string(), "00000000-0000-0000-0000-000000000000");
    assert_eq!(
        uuid.to_string(),
        uuid::Uuid::from_u128(uuid.as_u128()).to_string()
    );
}

#[test]
fn texts_are_quoted_and_numbers_are_decimal() {
    let odd = "a\"b\\c\nd\te\u{1}f/é\u{7f}\u{1F600}";
    assert_eq!(
        Component::text(odd).to_json(),
        "{\"text\":\"a\\\"b\\\\c\\nd\\te\\u0001f/é\u{7f}\u{1F600}\"}"
    );
    let status = ServerStatus::new(Component::text("x"), -3, i32::MAX);
    let json: serde_json::Value = serde_json::from_str(&status.to_json()).unwrap();
    assert_eq!(json["players"]["online"], -3);
    assert_eq!(json["players"]["max"], i32::MAX);
}

#[test]
fn buffers_keep_what_was_put_into_them() {
    let mut out = BytesMut::from(&b"before"[..]);
    Encoder::new().encode(b"packet", &mut out).unwrap();
    assert_eq!(&out[..], b"before\x06packet");

    let mut decoder = Decoder::new();
    decoder.feed(&mut b"\x06packet\x03two\x05par".to_vec());
    assert_eq!(decoder.buffered(), 15);
    assert_eq!(&decoder.decode().unwrap().unwrap()[..], b"packet");
    assert_eq!(decoder.buffered(), 8);
    assert_eq!(&decoder.decode().unwrap().unwrap()[..], b"two");
    assert!(decoder.decode().unwrap().is_none());
    assert_eq!(decoder.buffered(), 4);
}

#[test]
fn a_buffer_of_either_kind_is_written_alike() {
    let mut vec = Vec::new();
    let mut buffer = BytesMut::new();
    vec.write_string("héllo");
    buffer.write_string("héllo");
    vec.write_u16(0x1234);
    buffer.write_u16(0x1234);
    assert_eq!(&buffer[..], &vec[..]);
    assert_eq!(vec, b"\x06h\xC3\xA9llo\x12\x34");
}

#[test]
fn strings_are_read_as_utf8() {
    let mut r = PacketReader::new(b"\x06h\xC3\xA9llo");
    assert_eq!(r.read_string(16).unwrap(), "héllo");
}

#[test]
fn characters_outside_the_basic_plane_are_put_together() {
    let text = decode_modified_utf8(&[0xED, 0xA0, 0xBD, 0xED, 0xB8, 0x80, b'!']).unwrap();
    assert_eq!(text, "\u{1F600}!");
}

#[test]
fn keys_are_compared_by_their_text() {
    let mut compound = NbtCompound::new();
    compound.insert("key", 1i32);
    let key = String::from("ke") + "y";
    assert!(compound.contains_key(&key));
    assert!(!compound.contains_key("ke"));
    assert!(!compound.contains_key("Key"));
}
