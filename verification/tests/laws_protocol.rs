//! Promises of the wire format, on concrete values.

use bytes::BytesMut;
use rukkit::protocol::codec::{Decoder, Encoder};
use rukkit::protocol::crypt::{Decryptor, Encryptor};
use rukkit::protocol::mutf8::{read_modified_utf8, write_modified_utf8};
use rukkit::protocol::nbt::{
    decode_modified_utf8, modified_utf8_len, read_named, read_network, write_named, write_network,
    NbtCompound, NbtList, NbtTag,
};
use rukkit::protocol::packets::config::{
    self, ChatMode, ClientInformation, KnownPack, PluginMessage, RegistryData, RegistryEntry,
    SelectKnownPacks,
};
use rukkit::protocol::packets::handshake::{Intention, NextState};
use rukkit::protocol::packets::login::{EncryptionResponse, Hello};
use rukkit::protocol::packets::play::{
    self, AcceptTeleportation, MoveFlags, MovePlayerPos, MovePlayerRot, MovePlayerStatusOnly,
};
use rukkit::protocol::packets::status::{PingRequest, PongResponse};
use rukkit::protocol::packets::{decode_exact, encode, ClientboundPacket};
use rukkit::protocol::types::{Float32, Float64, Uuid};
use rukkit::protocol::varint::{read_varint, read_varlong, write_varint, write_varlong};
use rukkit::protocol::{
    BlockPos, ChunkPos, Component, Difficulty, GameMode, PacketReader, PacketWrite, ProtocolError,
};

const SECRET: [u8; 16] = *b"fedcba9876543210";

fn single(value: f32) -> Float32 {
    Float32 {
        bits: value.to_bits(),
    }
}

fn double(value: f64) -> Float64 {
    Float64 {
        bits: value.to_bits(),
    }
}

/// The body of a packet that is sent, without its id.
fn body_of<P: ClientboundPacket>(packet: &P) -> Vec<u8> {
    let mut body = Vec::new();
    packet.encode_body(&mut body);
    body
}

#[test]
fn fixed_width_fields_are_read_back() {
    let mut out = Vec::new();
    out.write_bool(true);
    out.write_i8(-2);
    out.write_u16(0xBEEF);
    out.write_i16(-300);
    out.write_i32(i32::MIN);
    out.write_u32(u32::MAX);
    out.write_i64(i64::MIN);
    out.write_u64(u64::MAX);
    out.write_f32(single(-0.0));
    out.write_f64(double(f64::NAN));
    out.write_uuid(Uuid::from_u128(7));
    let mut r = PacketReader::new(&out);
    assert!(r.read_bool().unwrap());
    assert_eq!(r.read_i8().unwrap(), -2);
    assert_eq!(r.read_u16().unwrap(), 0xBEEF);
    assert_eq!(r.read_i16().unwrap(), -300);
    assert_eq!(r.read_i32().unwrap(), i32::MIN);
    assert_eq!(r.read_u32().unwrap(), u32::MAX);
    assert_eq!(r.read_i64().unwrap(), i64::MIN);
    assert_eq!(r.read_u64().unwrap(), u64::MAX);
    assert_eq!(r.read_f32().unwrap().bits, (-0.0f32).to_bits());
    assert_eq!(r.read_f64().unwrap().bits, f64::NAN.to_bits());
    assert_eq!(r.read_uuid().unwrap(), Uuid::from_u128(7));
    assert!(r.is_empty());
}

#[test]
fn integers_of_any_width_are_read_back_and_wait_for_their_last_byte() {
    for value in [0, 1, 127, 128, 16_383, 16_384, i32::MAX, -1, i32::MIN] {
        let mut out = Vec::new();
        write_varint(&mut out, value);
        let len = out.len();
        out.push(0xFF);
        assert_eq!(read_varint(&out).unwrap(), (value, len));
        for cut in 0..len {
            assert!(matches!(
                read_varint(&out[..cut]).unwrap_err(),
                ProtocolError::UnexpectedEof { .. }
            ));
        }
    }
    for value in [0, -1, i64::MAX, i64::MIN, 1 << 35] {
        let mut out = Vec::new();
        write_varlong(&mut out, value);
        assert_eq!(read_varlong(&out).unwrap(), (value, out.len()));
    }
}

#[test]
fn positions_are_packed_and_unpacked() {
    for pos in [
        BlockPos::new(-0x200_0000, -0x800, 0x1FF_FFFF),
        BlockPos::new(0x1FF_FFFF, 0x7FF, -0x200_0000),
        BlockPos::new(-1, -1, -1),
    ] {
        assert_eq!(BlockPos::decode(pos.encode()), pos);
    }
    // Every packed number is the packed form of the position that it gives.
    for packed in [0, -1, i64::MAX, i64::MIN, 0x1234_5678_9ABC_DEF0] {
        assert_eq!(BlockPos::decode(packed).encode(), packed);
        assert_eq!(ChunkPos::from_long(packed).to_long(), packed);
    }
    let chunk = ChunkPos::new(i32::MIN, i32::MAX);
    assert_eq!(ChunkPos::from_long(chunk.to_long()), chunk);
}

#[test]
fn modes_and_difficulties_are_numbered_from_zero() {
    for id in 0..4u8 {
        assert_eq!(GameMode::from_id(i32::from(id)).unwrap().id(), id);
        assert_eq!(Difficulty::from_id(id).unwrap().id(), id);
    }
}

#[test]
fn arrays_strings_and_options_are_read_back() {
    let mut out = Vec::new();
    out.write_array(&[3i32, 1, 2], |out, v| out.write_varint(*v));
    out.write_string("naïve");
    out.write_byte_array(&[9, 8]);
    out.write_option(Some(4u8), |out, v| out.write_u8(v));
    out.write_option(None::<u8>, |out, v| out.write_u8(v));
    let mut r = PacketReader::new(&out);
    assert_eq!(
        r.read_array(3, PacketReader::read_varint).unwrap(),
        vec![3, 1, 2]
    );
    assert_eq!(r.read_string(5).unwrap(), "naïve");
    assert_eq!(r.read_byte_array(2).unwrap(), &[9, 8]);
    assert_eq!(r.read_option(PacketReader::read_u8).unwrap(), Some(4));
    assert_eq!(r.read_option(PacketReader::read_u8).unwrap(), None);
    assert!(r.is_empty());
}

#[test]
fn a_string_of_wide_characters_can_be_over_the_limit_of_bytes() {
    // Four bytes each, where three are allowed for.
    let text = "\u{1F600}".repeat(4);
    let mut out = Vec::new();
    out.write_string(&text);
    assert!(PacketReader::new(&out).read_string(4).is_err());
    assert_eq!(PacketReader::new(&out).read_string(6).unwrap(), text);
}

#[test]
fn modified_text_is_read_back() {
    let text = "a\0é\u{20AC}\u{1F600}";
    let mut out = Vec::new();
    write_modified_utf8(text, &mut out);
    assert_eq!(out.len(), 2 + modified_utf8_len(text));
    assert_eq!(
        &out[2..],
        &[
            b'a', 0xC0, 0x80, 0xC3, 0xA9, 0xE2, 0x82, 0xAC, 0xED, 0xA0, 0xBD, 0xED, 0xB8, 0x80
        ]
    );
    assert_eq!(decode_modified_utf8(&out[2..]).unwrap(), text);
    assert_eq!(
        read_modified_utf8(&mut PacketReader::new(&out)).unwrap(),
        text
    );
}

#[test]
fn tags_are_read_back_in_both_forms() {
    let mut inner = NbtCompound::new();
    inner.insert("flag", true).insert("name", "x");
    let list = NbtList::new(vec![NbtTag::Long(1), NbtTag::Long(-1)]).unwrap();
    let mut root = NbtCompound::new();
    root.insert("list", list).insert("inner", inner);
    root.insert("ints", NbtTag::IntArray(vec![1, -1]));
    root.insert("longs", NbtTag::LongArray(vec![i64::MIN]));
    root.insert("bytes", NbtTag::ByteArray(vec![1, 2]));
    root.insert("half", NbtTag::Double(double(0.5)));
    let tag = NbtTag::Compound(root);

    let mut out = Vec::new();
    write_network(&tag, &mut out);
    let mut r = PacketReader::new(&out);
    assert_eq!(read_network(&mut r).unwrap(), tag);
    assert!(r.is_empty());

    let mut out = Vec::new();
    write_named("root", &tag, &mut out);
    let mut r = PacketReader::new(&out);
    assert_eq!(read_named(&mut r).unwrap(), ("root".to_owned(), tag));
    assert!(r.is_empty());
}

#[test]
fn a_key_is_held_once_and_gives_what_was_last_put() {
    let mut compound = NbtCompound::new();
    compound.insert("a", 1i32).insert("b", 2i32).insert("a", 3i32);
    assert_eq!(compound.len(), 2);
    assert_eq!(compound.get("a"), Some(&NbtTag::Int(3)));
    assert_eq!(compound.get("b"), Some(&NbtTag::Int(2)));
    assert_eq!(compound.get("c"), None);
}

#[test]
fn the_keystream_does_not_depend_on_how_the_data_is_cut() {
    let plain: Vec<u8> = (0..100).collect();
    let mut whole = plain.clone();
    Encryptor::new(&SECRET).unwrap().encrypt(&mut whole);

    let mut pieces = plain.clone();
    let mut enc = Encryptor::new(&SECRET).unwrap();
    let (first, second) = pieces.split_at_mut(33);
    enc.encrypt(first);
    enc.encrypt(second);
    assert_eq!(pieces, whole);

    let mut dec = Decryptor::new(&SECRET).unwrap();
    for byte in pieces.iter_mut() {
        dec.decrypt(std::slice::from_mut(byte));
    }
    assert_eq!(pieces, plain);
}

#[test]
fn packets_arrive_in_every_combination_and_in_pieces() {
    let small: Vec<u8> = (1..20).collect();
    let large: Vec<u8> = (0..3000).map(|i| (i % 7) as u8).collect();
    for compression in [None, Some(0), Some(256)] {
        for encrypted in [false, true] {
            let (mut enc, mut dec) = (Encoder::new(), Decoder::new());
            if let Some(threshold) = compression {
                enc.enable_compression(threshold);
                dec.enable_compression(threshold);
            }
            if encrypted {
                enc.enable_encryption(Encryptor::new(&SECRET).unwrap());
                dec.enable_encryption(Decryptor::new(&SECRET).unwrap());
            }
            let mut wire = BytesMut::new();
            enc.encode(&small, &mut wire).unwrap();
            let first = wire.len();
            enc.encode(&large, &mut wire).unwrap();

            let mut arrived = Vec::new();
            for (i, byte) in wire.iter().enumerate() {
                dec.feed(&mut [*byte]);
                match dec.decode().unwrap() {
                    Some(packet) => arrived.push((i + 1, packet.to_vec())),
                    None => assert!(i + 1 != first && i + 1 != wire.len()),
                }
            }
            assert_eq!(
                arrived,
                vec![(first, small.clone()), (wire.len(), large.clone())]
            );
            assert_eq!(dec.buffered(), 0);
        }
    }
}

#[test]
fn an_empty_packet_at_threshold_zero_is_not_deliverable() {
    let (mut enc, mut dec) = (Encoder::new(), Decoder::new());
    enc.enable_compression(0);
    dec.enable_compression(0);
    let mut wire = BytesMut::new();
    enc.encode(&[], &mut wire).unwrap();
    dec.feed(&mut wire);
    // A declared size of nothing says that the rest is not compressed.
    let packet = dec.decode().unwrap().unwrap();
    assert!(!packet.is_empty());
}

#[test]
fn opening_packets_are_read_back() {
    for next_state in [NextState::Status, NextState::Login, NextState::Transfer] {
        let intention = Intention {
            protocol_version: -1,
            server_address: "example.org".into(),
            server_port: 65535,
            next_state,
        };
        let mut body = Vec::new();
        intention.encode_body(&mut body);
        let read: Intention = decode_exact(&body, "handshaking").unwrap();
        assert_eq!(read, intention);
    }

    let hello = Hello {
        name: "x".repeat(16),
        profile_id: Uuid::from_u128(u128::MAX),
    };
    let mut body = Vec::new();
    hello.encode_body(&mut body);
    assert_eq!(decode_exact::<Hello>(&body, "login").unwrap(), hello);

    let mut body = Vec::new();
    body.write_byte_array(&[1; 128]);
    body.write_byte_array(&[2; 128]);
    let read: EncryptionResponse = decode_exact(&body, "login").unwrap();
    assert_eq!(read.shared_secret, vec![1; 128]);
    assert_eq!(read.verify_token, vec![2; 128]);
}

#[test]
fn a_ping_and_its_pong_have_the_same_body() {
    let body = body_of(&PongResponse { payload: i64::MIN });
    let ping: PingRequest = decode_exact(&body, "status").unwrap();
    assert_eq!(ping.payload, i64::MIN);
}

#[test]
fn client_settings_are_read_back() {
    let info = ClientInformation {
        locale: "ko_kr".into(),
        view_distance: -1,
        chat_mode: ChatMode::Hidden,
        chat_colors: true,
        displayed_skin_parts: 0x7F,
        main_hand: 1,
        text_filtering_enabled: true,
        allows_listing: false,
        particle_status: 2,
    };
    let mut body = Vec::new();
    info.encode_body(&mut body);
    let read: ClientInformation = decode_exact(&body, "configuration").unwrap();
    assert_eq!(read, info);
}

#[test]
fn configuration_packets_are_read_back() {
    let alive = config::KeepAlive { id: -1 };
    let read: config::KeepAlive = decode_exact(&body_of(&alive), "configuration").unwrap();
    assert_eq!(read, alive);

    let packs = SelectKnownPacks {
        packs: vec![
            KnownPack {
                namespace: "a".into(),
                id: "b".into(),
                version: "c".into(),
            },
            KnownPack {
                namespace: String::new(),
                id: "d".into(),
                version: "é".into(),
            },
        ],
    };
    let read: SelectKnownPacks = decode_exact(&body_of(&packs), "configuration").unwrap();
    assert_eq!(read, packs);

    let message = PluginMessage {
        channel: "a:b".into(),
        data: vec![0, 255],
    };
    let read: PluginMessage = decode_exact(&body_of(&message), "configuration").unwrap();
    assert_eq!(read, message);

    let registry = RegistryData {
        registry_id: "minecraft:dimension_type".into(),
        entries: vec![
            RegistryEntry {
                entry_id: "a".into(),
                data: Some(NbtTag::Int(3)),
            },
            RegistryEntry {
                entry_id: "b".into(),
                data: None,
            },
        ],
    };
    let body = body_of(&registry);
    let mut r = PacketReader::new(&body);
    assert_eq!(RegistryData::decode_body(&mut r).unwrap(), registry);
    assert!(r.is_empty());
}

#[test]
fn play_packets_are_read_back() {
    let alive = play::KeepAlive { id: i64::MAX };
    let read: play::KeepAlive = decode_exact(&body_of(&alive), "play").unwrap();
    assert_eq!(read, alive);

    // The id of a teleport comes first, and alone confirms it.
    let teleport = play::PlayerPosition::absolute(
        300,
        double(1.0),
        double(2.0),
        double(3.0),
        single(4.0),
        single(5.0),
    );
    let body = body_of(&teleport);
    let (id, used) = read_varint(&body).unwrap();
    assert_eq!(id, 300);
    let confirmed: AcceptTeleportation = decode_exact(&body[..used], "play").unwrap();
    assert_eq!(confirmed.teleport_id, 300);

    let mut body = Vec::new();
    body.write_f64(double(-1.0));
    body.write_f64(double(64.5));
    body.write_f64(double(1e9));
    body.write_u8(3);
    let moved: MovePlayerPos = decode_exact(&body, "play").unwrap();
    assert_eq!((moved.x, moved.y, moved.z), (double(-1.0), double(64.5), double(1e9)));
    assert!(moved.flags.on_ground() && moved.flags.horizontal_collision());

    let mut body = Vec::new();
    body.write_f32(single(180.0));
    body.write_f32(single(-90.0));
    body.write_u8(1);
    let turned: MovePlayerRot = decode_exact(&body, "play").unwrap();
    assert_eq!((turned.yaw, turned.pitch), (single(180.0), single(-90.0)));
    assert!(turned.flags.on_ground() && !turned.flags.horizontal_collision());

    let stood: MovePlayerStatusOnly = decode_exact(&[2], "play").unwrap();
    assert_eq!(stood.flags, MoveFlags(2));
}

#[test]
fn a_packet_is_its_id_and_its_body() {
    let mut out = vec![1, 2, 3];
    encode(&PongResponse { payload: 1 }, &mut out);
    assert_eq!(out, vec![1, 0, 0, 0, 0, 0, 0, 0, 1]);
}

#[test]
fn both_forms_of_a_message_say_the_same() {
    let message = Component::text("a").hex_color(0x00FF0A).append(Component::translate("b"));
    assert_eq!(
        message.to_json(),
        "{\"text\":\"a\",\"color\":\"#00FF0A\",\"extra\":[{\"translate\":\"b\"}]}"
    );
    let tag = message.to_nbt();
    let root = tag.as_compound().unwrap();
    assert_eq!(root.get("text").unwrap().as_str(), Some("a"));
    assert_eq!(root.get("color").unwrap().as_str(), Some("#00FF0A"));
    let Some(NbtTag::List(children)) = root.get("extra") else {
        panic!("the children are a list");
    };
    assert_eq!(children.len(), 1);

    let mut out = Vec::new();
    write_network(&tag, &mut out);
    assert_eq!(read_network(&mut PacketReader::new(&out)).unwrap(), tag);
}

#[test]
fn chunk_positions_are_read_back() {
    let pos = ChunkPos::new(-3, i32::MAX);
    let mut out = Vec::new();
    out.write_chunk_pos(pos);
    out.write_position(BlockPos::new(-1, 64, 7));
    let mut r = PacketReader::new(&out);
    assert_eq!(r.read_chunk_pos().unwrap(), pos);
    assert_eq!(r.read_position().unwrap(), BlockPos::new(-1, 64, 7));
    assert!(r.is_empty());
}

#[test]
fn the_client_is_told_to_wait_for_chunks() {
    let event = play::GameEvent::start_waiting_for_chunks();
    assert_eq!(body_of(&event), vec![13, 0, 0, 0, 0]);
}

#[test]
fn a_list_is_what_the_calls_give_whatever_they_do() {
    let mut body = Vec::new();
    body.write_varint(3);
    body.write_bytes(&[7, 8, 9, 10]);

    let mut calls = 0;
    let mut r = PacketReader::new(&body);
    let read = r
        .read_array(3, |r| {
            calls += 1;
            Ok((calls, r.read_u8()?))
        })
        .unwrap();
    assert_eq!(read, vec![(1, 7), (2, 8), (3, 9)]);
    assert_eq!(r.remaining(), 1);

    // The first error ends the calls.
    let mut calls = 0;
    let mut r = PacketReader::new(&body);
    let failed = r.read_array(3, |r| {
        calls += 1;
        let byte = r.read_u8()?;
        if byte == 8 {
            return Err(ProtocolError::Nbt("eight"));
        }
        Ok(byte)
    });
    assert!(matches!(failed, Err(ProtocolError::Nbt("eight"))));
    assert_eq!((calls, r.remaining()), (2, 2));

    // A count over the limit is refused before any call.
    let mut calls = 0;
    let mut r = PacketReader::new(&body);
    let refused = r.read_array(2, |_| {
        calls += 1;
        Ok(())
    });
    assert!(matches!(
        refused,
        Err(ProtocolError::LengthLimitExceeded { len: 3, max: 2 })
    ));
    assert_eq!((calls, r.remaining()), (0, 4));
}

#[test]
fn an_option_is_what_the_call_gives_where_it_is_present() {
    let text = |r: &mut PacketReader<'_>| r.read_string(4);
    assert!(matches!(
        PacketReader::new(&[]).read_option(text),
        Err(ProtocolError::UnexpectedEof { .. })
    ));
    let mut r = PacketReader::new(&[0, 9]);
    assert_eq!(r.read_option(text).unwrap(), None);
    assert_eq!(r.remaining(), 1);
    let mut r = PacketReader::new(&[1, 1, b'x', 9]);
    assert_eq!(r.read_option(text).unwrap(), Some("x".to_owned()));
    assert_eq!(r.remaining(), 1);
}

#[test]
fn a_list_is_written_by_the_calls_in_order() {
    let mut calls = 0u8;
    let mut out = vec![0xFF];
    out.write_array(&["a", "bc"], |out, text| {
        calls += 1;
        out.write_u8(calls);
        out.write_string(text);
    });
    assert_eq!(out, b"\xFF\x02\x01\x01a\x02\x02bc");
    let mut out = Vec::new();
    out.write_array(&[] as &[u8], |out, byte| out.write_u8(*byte));
    assert_eq!(out, vec![0]);
}
