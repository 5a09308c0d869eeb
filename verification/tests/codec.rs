//! Framing, compression and encryption of the byte stream.

use bytes::BytesMut;
use rukkit::protocol::codec::{Decoder, Encoder, DEFAULT_COMPRESSION_THRESHOLD, MAX_FRAME_LEN};
use rukkit::protocol::crypt::{Decryptor, Encryptor};
use rukkit::protocol::varint;
use rukkit::protocol::zlib::compress_into;
use rukkit::protocol::{PacketWrite, ProtocolError};

fn round_trip(encoder: &mut Encoder, decoder: &mut Decoder, packet: &[u8]) -> Vec<u8> {
    let mut wire = BytesMut::new();
    encoder.encode(packet, &mut wire).expect("encode");
    let mut bytes = wire.to_vec();
    decoder.feed(&mut bytes);
    let decoded = decoder.decode().expect("decode").expect("complete frame");
    decoded.to_vec()
}

#[test]
fn uncompressed_round_trip() {
    let mut enc = Encoder::new();
    let mut dec = Decoder::new();
    let packet = b"\x00hello world";
    assert_eq!(round_trip(&mut enc, &mut dec, packet), packet);
}

#[test]
fn frame_layout_is_length_then_body() {
    let mut enc = Encoder::new();
    let mut out = BytesMut::new();
    enc.encode(b"\x00abc", &mut out).unwrap();
    assert_eq!(&out[..], &[4, 0x00, b'a', b'b', b'c']);
}

#[test]
fn partial_frames_are_buffered_until_complete() {
    let mut enc = Encoder::new();
    let mut out = BytesMut::new();
    enc.encode(b"\x00some payload here", &mut out).unwrap();
    let wire = out.to_vec();

    let mut dec = Decoder::new();
    // Feed one byte at a time; only the final byte may yield a packet.
    for (i, byte) in wire.iter().enumerate() {
        let mut chunk = [*byte];
        dec.feed(&mut chunk);
        let got = dec.decode().unwrap();
        if i + 1 == wire.len() {
            assert_eq!(got.unwrap().to_vec(), b"\x00some payload here");
        } else {
            assert!(got.is_none(), "yielded a packet after {} bytes", i + 1);
        }
    }
}

#[test]
fn multiple_packets_in_one_read_are_all_decoded() {
    let mut enc = Encoder::new();
    let mut out = BytesMut::new();
    for payload in [&b"\x00one"[..], b"\x01two", b"\x02three"] {
        enc.encode(payload, &mut out).unwrap();
    }

    let mut dec = Decoder::new();
    let mut bytes = out.to_vec();
    dec.feed(&mut bytes);

    assert_eq!(dec.decode().unwrap().unwrap().to_vec(), b"\x00one");
    assert_eq!(dec.decode().unwrap().unwrap().to_vec(), b"\x01two");
    assert_eq!(dec.decode().unwrap().unwrap().to_vec(), b"\x02three");
    assert!(dec.decode().unwrap().is_none());
}

#[test]
fn small_packets_pass_through_uncompressed() {
    let mut enc = Encoder::new();
    let mut dec = Decoder::new();
    enc.enable_compression(DEFAULT_COMPRESSION_THRESHOLD);
    dec.enable_compression(DEFAULT_COMPRESSION_THRESHOLD);

    let packet = b"\x00tiny";
    let mut out = BytesMut::new();
    enc.encode(packet, &mut out).unwrap();
    // frame length, then a zero uncompressed-size marker, then the body.
    assert_eq!(out[1], 0);
    assert_eq!(
        round_trip(&mut Encoder::new(), &mut Decoder::new(), packet),
        packet
    );
}

#[test]
fn large_packets_are_compressed_and_shrink() {
    let mut enc = Encoder::new();
    let mut dec = Decoder::new();
    enc.enable_compression(DEFAULT_COMPRESSION_THRESHOLD);
    dec.enable_compression(DEFAULT_COMPRESSION_THRESHOLD);

    // Highly repetitive, as chunk data is in practice.
    let mut packet = vec![0x22u8];
    packet.extend(std::iter::repeat_n(b'A', 4096));

    let mut out = BytesMut::new();
    enc.encode(&packet, &mut out).unwrap();
    assert!(
        out.len() < packet.len() / 4,
        "compressed {} bytes to {}",
        packet.len(),
        out.len()
    );

    let mut bytes = out.to_vec();
    dec.feed(&mut bytes);
    assert_eq!(dec.decode().unwrap().unwrap().to_vec(), packet);
}

#[test]
fn compressed_codec_handles_a_long_sequence() {
    // Exercises compressor/decompressor reset across many packets, mixing
    // both sides of the threshold.
    let mut enc = Encoder::new();
    let mut dec = Decoder::new();
    enc.enable_compression(DEFAULT_COMPRESSION_THRESHOLD);
    dec.enable_compression(DEFAULT_COMPRESSION_THRESHOLD);

    for i in 0..200usize {
        let len = if i % 2 == 0 { 10 } else { 1000 };
        let packet: Vec<u8> = (0..len).map(|n| (n % 251) as u8).collect();
        assert_eq!(
            round_trip(&mut enc, &mut dec, &packet),
            packet,
            "packet {i}"
        );
    }
}

#[test]
fn encrypted_round_trip_across_many_packets() {
    let secret = [7u8; 16];
    let mut enc = Encoder::new();
    let mut dec = Decoder::new();
    enc.enable_encryption(Encryptor::new(&secret).unwrap());
    dec.enable_encryption(Decryptor::new(&secret).unwrap());

    for i in 0..50u8 {
        let packet = vec![i; 64];
        assert_eq!(
            round_trip(&mut enc, &mut dec, &packet),
            packet,
            "packet {i}"
        );
    }
}

#[test]
fn encryption_and_compression_compose() {
    let secret = [3u8; 16];
    let mut enc = Encoder::new();
    let mut dec = Decoder::new();
    enc.enable_compression(DEFAULT_COMPRESSION_THRESHOLD);
    dec.enable_compression(DEFAULT_COMPRESSION_THRESHOLD);
    enc.enable_encryption(Encryptor::new(&secret).unwrap());
    dec.enable_encryption(Decryptor::new(&secret).unwrap());

    for i in 0..20usize {
        let packet: Vec<u8> = (0..500).map(|n| ((n + i) % 251) as u8).collect();
        assert_eq!(
            round_trip(&mut enc, &mut dec, &packet),
            packet,
            "packet {i}"
        );
    }
}

#[test]
fn oversized_length_prefix_is_rejected() {
    let mut dec = Decoder::new();
    let mut bytes = Vec::new();
    varint::write_varint(&mut bytes, (MAX_FRAME_LEN + 1) as i32);
    dec.feed(&mut bytes);
    assert!(matches!(
        dec.decode().unwrap_err(),
        ProtocolError::FrameTooLarge { .. }
    ));
}

#[test]
fn negative_length_prefix_is_rejected() {
    let mut dec = Decoder::new();
    let mut bytes = Vec::new();
    varint::write_varint(&mut bytes, -1);
    dec.feed(&mut bytes);
    assert!(matches!(
        dec.decode().unwrap_err(),
        ProtocolError::NegativeLength(-1)
    ));
}

#[test]
fn packet_compressed_below_the_threshold_is_rejected() {
    // Vanilla requires sub-threshold packets to be sent raw; a peer that
    // compresses them anyway is violating the protocol.
    let mut dec = Decoder::new();
    dec.enable_compression(DEFAULT_COMPRESSION_THRESHOLD);

    let body = [0x78u8, 0x9c, 0x03, 0x00, 0x00, 0x00, 0x00, 0x01];
    let mut inner = Vec::new();
    inner.write_varint(10); // declared uncompressed size, under 256
    inner.extend_from_slice(&body);

    let mut bytes = Vec::new();
    bytes.write_varint(inner.len() as i32);
    bytes.extend_from_slice(&inner);

    dec.feed(&mut bytes);
    assert!(matches!(
        dec.decode().unwrap_err(),
        ProtocolError::BadlyCompressed { .. }
    ));
}

#[test]
fn zip_bomb_declaring_a_huge_size_is_rejected() {
    let mut dec = Decoder::new();
    dec.enable_compression(DEFAULT_COMPRESSION_THRESHOLD);

    let mut inner = Vec::new();
    inner.write_varint((MAX_FRAME_LEN + 1) as i32);
    inner.extend_from_slice(&[0x78, 0x9c, 0x01]);

    let mut bytes = Vec::new();
    bytes.write_varint(inner.len() as i32);
    bytes.extend_from_slice(&inner);

    dec.feed(&mut bytes);
    assert!(matches!(
        dec.decode().unwrap_err(),
        ProtocolError::DecompressedTooLarge { .. }
    ));
}

#[test]
fn stream_smaller_than_its_declared_size_is_rejected() {
    // Compress 300 bytes but claim 4096 on the wire.
    let real: Vec<u8> = std::iter::repeat_n(b'Z', 300).collect();
    let compressed = compress_into(&real).unwrap();

    let mut inner = Vec::new();
    inner.write_varint(4096);
    inner.extend_from_slice(&compressed);

    let mut bytes = Vec::new();
    bytes.write_varint(inner.len() as i32);
    bytes.extend_from_slice(&inner);

    let mut dec = Decoder::new();
    dec.enable_compression(DEFAULT_COMPRESSION_THRESHOLD);
    dec.feed(&mut bytes);
    assert!(matches!(
        dec.decode().unwrap_err(),
        ProtocolError::Compression(_)
    ));
}

#[test]
fn corrupt_zlib_payload_is_rejected() {
    let mut inner = Vec::new();
    inner.write_varint(1024);
    inner.extend_from_slice(&[0xFF; 32]);

    let mut bytes = Vec::new();
    bytes.write_varint(inner.len() as i32);
    bytes.extend_from_slice(&inner);

    let mut dec = Decoder::new();
    dec.enable_compression(DEFAULT_COMPRESSION_THRESHOLD);
    dec.feed(&mut bytes);
    assert!(dec.decode().is_err());
}

#[test]
fn empty_packet_round_trips() {
    let mut enc = Encoder::new();
    let mut dec = Decoder::new();
    assert_eq!(round_trip(&mut enc, &mut dec, b""), b"");
}
