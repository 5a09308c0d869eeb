//! Packets of the configuration state.

use rukkit::protocol::nbt;
use rukkit::protocol::nbt::{NbtCompound, NbtTag};
use rukkit::protocol::packets::config::{
    ChatMode, ClientInformation, Disconnect, KeepAlive, PluginMessage, RegistryData, RegistryEntry,
    SelectKnownPacks,
};
use rukkit::protocol::packets::{decode_exact, encode, ClientboundPacket};
use rukkit::protocol::reader::DEFAULT_MAX_STRING_LEN;
use rukkit::protocol::{Component, PacketReader, PacketWrite, MINECRAFT_VERSION};

fn sample_client_info() -> ClientInformation {
    ClientInformation {
        locale: "ko_kr".into(),
        view_distance: 12,
        chat_mode: ChatMode::Enabled,
        chat_colors: true,
        displayed_skin_parts: 0x7F,
        main_hand: 1,
        text_filtering_enabled: false,
        allows_listing: true,
        particle_status: 0,
    }
}

#[test]
fn client_information_round_trips() {
    let original = sample_client_info();
    let mut body = Vec::new();
    original.encode_body(&mut body);
    assert_eq!(
        decode_exact::<ClientInformation>(&body, "configuration").unwrap(),
        original
    );
}

#[test]
fn unknown_chat_mode_is_rejected() {
    let mut body = Vec::new();
    body.write_string("en_us");
    body.write_i8(8);
    body.write_varint(9); // not a chat mode
    assert!(decode_exact::<ClientInformation>(&body, "configuration").is_err());
}

#[test]
fn keep_alive_round_trips_in_both_directions() {
    let id = -0x1234_5678_9ABC_DEF0;
    let mut out = Vec::new();
    encode(&KeepAlive { id }, &mut out);

    let mut r = PacketReader::new(&out);
    assert_eq!(
        r.read_varint().unwrap(),
        <KeepAlive as ClientboundPacket>::ID
    );
    let body = r.read_remaining();
    assert_eq!(
        decode_exact::<KeepAlive>(body, "configuration").unwrap().id,
        id
    );
}

#[test]
fn registry_data_round_trips_with_and_without_definitions() {
    let mut definition = NbtCompound::new();
    definition
        .insert("has_skylight", true)
        .insert("height", 384i32);

    let original = RegistryData {
        registry_id: "minecraft:dimension_type".into(),
        entries: vec![
            RegistryEntry {
                entry_id: "minecraft:overworld".into(),
                data: Some(NbtTag::Compound(definition)),
            },
            RegistryEntry {
                entry_id: "minecraft:the_nether".into(),
                data: None,
            },
        ],
    };

    let mut body = Vec::new();
    original.encode_body(&mut body);
    let decoded = RegistryData::decode_body(&mut PacketReader::new(&body)).unwrap();
    assert_eq!(decoded, original);
}

#[test]
fn known_packs_round_trip() {
    let original = SelectKnownPacks::vanilla();
    assert_eq!(original.packs[0].version, MINECRAFT_VERSION);

    let mut body = Vec::new();
    original.encode_body(&mut body);
    assert_eq!(
        decode_exact::<SelectKnownPacks>(&body, "configuration").unwrap(),
        original
    );
}

#[test]
fn plugin_message_payload_runs_to_the_end_of_the_packet() {
    let original = PluginMessage::brand("Rukkit");
    let mut body = Vec::new();
    original.encode_body(&mut body);
    let decoded = decode_exact::<PluginMessage>(&body, "configuration").unwrap();
    assert_eq!(decoded, original);

    // The brand payload is itself a length-prefixed string.
    let mut r = PacketReader::new(&decoded.data);
    assert_eq!(r.read_string(DEFAULT_MAX_STRING_LEN).unwrap(), "Rukkit");
}

#[test]
fn disconnect_reason_is_nbt_not_json() {
    let packet = Disconnect {
        reason: Component::text("bye"),
    };
    let mut body = Vec::new();
    packet.encode_body(&mut body);
    // First byte is the NBT compound tag id, not '{'.
    assert_eq!(body[0], nbt::TAG_COMPOUND);
    let decoded = nbt::read_network(&mut PacketReader::new(&body)).unwrap();
    assert_eq!(decoded, packet.reason.to_nbt());
}
