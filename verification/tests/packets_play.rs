//! Packets of the play state.

use rukkit::protocol::packets::play::{
    ChatCommand, ChunkData, ClientTickEnd, KeepAlive, Login, MoveFlags, MovePlayerPosRot,
    PlayerPosition, MAX_COMMAND_LEN,
};
use rukkit::protocol::packets::{decode_exact, encode, ClientboundPacket};
use rukkit::protocol::types::{Float32, Float64};
use rukkit::protocol::{BlockPos, GameMode, PacketReader, PacketWrite};

fn single(value: f32) -> Float32 {
    Float32 {
        bits: value.to_bits(),
    }
}

fn double(value: f64) -> Float64 {
    Float64 {
        bits: value.to_bits(),
    }
}

fn sample_login() -> Login {
    Login {
        entity_id: 1,
        hardcore: false,
        dimension_names: vec!["minecraft:overworld".into()],
        max_players: 20,
        view_distance: 10,
        simulation_distance: 10,
        reduced_debug_info: false,
        enable_respawn_screen: true,
        do_limited_crafting: false,
        dimension_type: 0,
        dimension_name: "minecraft:overworld".into(),
        hashed_seed: 0,
        game_mode: GameMode::Creative,
        previous_game_mode: -1,
        is_debug: false,
        is_flat: true,
        death_location: None,
        portal_cooldown: 0,
        sea_level: 63,
        enforces_secure_chat: false,
    }
}

#[test]
fn login_round_trips() {
    let original = sample_login();
    let mut body = Vec::new();
    original.encode_body(&mut body);
    let decoded = Login::decode_body(&mut PacketReader::new(&body)).unwrap();
    assert_eq!(decoded, original);
}

#[test]
fn login_round_trips_with_a_death_location() {
    let mut original = sample_login();
    original.death_location = Some(("minecraft:the_nether".into(), BlockPos::new(-10, 64, 30)));
    let mut body = Vec::new();
    original.encode_body(&mut body);
    assert_eq!(
        Login::decode_body(&mut PacketReader::new(&body)).unwrap(),
        original
    );
}

#[test]
fn keep_alive_round_trips() {
    let mut out = Vec::new();
    encode(&KeepAlive { id: 12345 }, &mut out);
    let mut r = PacketReader::new(&out);
    assert_eq!(
        r.read_varint().unwrap(),
        <KeepAlive as ClientboundPacket>::ID
    );
    assert_eq!(
        decode_exact::<KeepAlive>(r.read_remaining(), "play")
            .unwrap()
            .id,
        12345
    );
}

#[test]
fn movement_flags_decode_bitwise() {
    assert!(!MoveFlags(0).on_ground());
    assert!(MoveFlags(0b01).on_ground());
    assert!(!MoveFlags(0b01).horizontal_collision());
    assert!(MoveFlags(0b11).horizontal_collision());
}

#[test]
fn movement_packets_round_trip() {
    let mut body = Vec::new();
    body.write_f64(double(1.5));
    body.write_f64(double(64.0));
    body.write_f64(double(-2.5));
    body.write_f32(single(90.0));
    body.write_f32(single(-45.0));
    body.write_u8(1);

    let packet = decode_exact::<MovePlayerPosRot>(&body, "play").unwrap();
    assert_eq!(packet.x, double(1.5));
    assert_eq!(packet.y, double(64.0));
    assert_eq!(packet.z, double(-2.5));
    assert_eq!(packet.yaw, single(90.0));
    assert_eq!(packet.pitch, single(-45.0));
    assert!(packet.flags.on_ground());
}

#[test]
fn overlong_command_is_rejected() {
    let mut body = Vec::new();
    body.write_string(&"a".repeat(MAX_COMMAND_LEN + 1));
    assert!(decode_exact::<ChatCommand>(&body, "play").is_err());
}

#[test]
fn chunk_data_prefixes_coordinates_then_opaque_payload() {
    let packet = ChunkData {
        chunk_x: -3,
        chunk_z: 7,
        payload: vec![0xAA, 0xBB],
    };
    let mut out = Vec::new();
    encode(&packet, &mut out);

    let mut r = PacketReader::new(&out);
    assert_eq!(r.read_varint().unwrap(), ChunkData::ID);
    assert_eq!(r.read_i32().unwrap(), -3);
    assert_eq!(r.read_i32().unwrap(), 7);
    assert_eq!(r.read_remaining(), &[0xAA, 0xBB]);
}

#[test]
fn player_position_helper_zeroes_velocity_and_flags() {
    let packet = PlayerPosition::absolute(
        1,
        double(0.5),
        double(64.0),
        double(0.5),
        single(0.0),
        single(0.0),
    );
    assert_eq!(packet.velocity_x, double(0.0));
    assert_eq!(packet.flags, 0);

    let mut out = Vec::new();
    encode(&packet, &mut out);
    let mut r = PacketReader::new(&out);
    assert_eq!(r.read_varint().unwrap(), PlayerPosition::ID);
    assert_eq!(r.read_varint().unwrap(), 1);
    assert_eq!(r.read_f64().unwrap(), double(0.5));
}

#[test]
fn empty_body_packets_reject_trailing_data() {
    assert!(decode_exact::<ClientTickEnd>(&[], "play").is_ok());
    assert!(decode_exact::<ClientTickEnd>(&[0], "play").is_err());
}
