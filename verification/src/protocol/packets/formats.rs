//! The formats of the packets, field by field.
//!
//! A packet that the server sends stands for its fields in the order in which a
//! client reads them. Bytes that stand for the fields of a packet that a client
//! sends are read as that packet.

use vstd::prelude::*;
use vstd::utf8;

use crate::protocol::error::ProtocolError;
use crate::protocol::layout::Field;
use crate::protocol::layout;
use crate::protocol::nbt;
use crate::protocol::packets;
use crate::protocol::packets::config;
use crate::protocol::packets::handshake;
use crate::protocol::packets::login;
use crate::protocol::packets::play;
use crate::protocol::packets::status;
use crate::protocol::packets::{ClientboundPacket, ServerboundPacket};
use crate::protocol::reader;
use crate::protocol::text;
use crate::protocol::types::{BlockPos, Difficulty, Float32, Float64, GameMode};
use crate::protocol::types;
use crate::protocol::varint;
use crate::protocol::wire;
use crate::protocol::writer;

verus! {

/// A framed packet is its id, as a VarInt, and its body.
pub proof fn law_packet_is_id_and_body<P: ClientboundPacket>(packet: P, fields: Seq<Field>)
    requires
        layout::spells(packet.body(), fields),
    ensures
        layout::spells(
            packets::packet_bytes(packet),
            seq![Field::VarInt(P::packet_id())] + fields,
        ),
{
    let id = varint::varint_bytes(P::packet_id());
    layout::lemma_front(id);
    let (s, f) = layout::begin();
    let (s, f) = layout::then_varint(s, f, P::packet_id());
    layout::lemma_append(s, f, packet.body(), fields);
}

proof fn lemma_whole(s: Seq<u8>)
    ensures
        s + Seq::<u8>::empty() == s,
{
    assert(s + Seq::<u8>::empty() =~= s);
}

// ---------------------------------------------------------------------------
// Play
// ---------------------------------------------------------------------------

/// A teleport is its id, where the player is put, how fast they move, where they
/// look and which of these are relative, in this order: along x, y and z.
pub proof fn law_player_position_format(p: play::PlayerPosition)
    ensures
        <play::PlayerPosition as ClientboundPacket>::packet_id() == 0x42,
        layout::spells(
            p.body(),
            seq![
                Field::VarInt(p.teleport_id),
                Field::Double(p.x.bits),
                Field::Double(p.y.bits),
                Field::Double(p.z.bits),
                Field::Double(p.velocity_x.bits),
                Field::Double(p.velocity_y.bits),
                Field::Double(p.velocity_z.bits),
                Field::Single(p.yaw.bits),
                Field::Single(p.pitch.bits),
                Field::Int(p.flags),
            ],
        ),
{
    let (s, f) = layout::begin();
    layout::lemma_front(varint::varint_bytes(p.teleport_id));
    let (s, f) = layout::then_varint(s, f, p.teleport_id);
    let (s, f) = layout::then_double(s, f, p.x.bits);
    let (s, f) = layout::then_double(s, f, p.y.bits);
    let (s, f) = layout::then_double(s, f, p.z.bits);
    let (s, f) = layout::then_double(s, f, p.velocity_x.bits);
    let (s, f) = layout::then_double(s, f, p.velocity_y.bits);
    let (s, f) = layout::then_double(s, f, p.velocity_z.bits);
    let (s, f) = layout::then_single(s, f, p.yaw.bits);
    let (s, f) = layout::then_single(s, f, p.pitch.bits);
    let (s, f) = layout::then_int(s, f, p.flags);
    assert(f =~= seq![
        Field::VarInt(p.teleport_id),
        Field::Double(p.x.bits),
        Field::Double(p.y.bits),
        Field::Double(p.z.bits),
        Field::Double(p.velocity_x.bits),
        Field::Double(p.velocity_y.bits),
        Field::Double(p.velocity_z.bits),
        Field::Single(p.yaw.bits),
        Field::Single(p.pitch.bits),
        Field::Int(p.flags),
    ]);
}

/// A player who is put somewhere comes to rest there: the coordinates and angles
/// are sent as they are, with no speed and nothing relative.
pub proof fn law_absolute_position_format(
    id: i32,
    x: Float64,
    y: Float64,
    z: Float64,
    yaw: Float32,
    pitch: Float32,
)
    ensures
        layout::spells(
            play::absolute_position(id, x, y, z, yaw, pitch).body(),
            seq![
                Field::VarInt(id),
                Field::Double(x.bits),
                Field::Double(y.bits),
                Field::Double(z.bits),
                Field::Double(0),
                Field::Double(0),
                Field::Double(0),
                Field::Single(yaw.bits),
                Field::Single(pitch.bits),
                Field::Int(0),
            ],
        ),
{
    law_player_position_format(play::absolute_position(id, x, y, z, yaw, pitch));
}

/// A play keep-alive is its number in eight bytes.
pub proof fn law_play_keep_alive_format(p: play::KeepAlive)
    ensures
        <play::KeepAlive as ClientboundPacket>::packet_id() == 0x26,
        layout::spells(
            p.body(),
            seq![
                Field::Long(p.id),
            ],
        ),
{
    let (s, f) = layout::begin();
    layout::lemma_front(wire::be64(p.id as u64));
    let (s, f) = layout::then_long(s, f, p.id);
}

/// A play disconnect is its reason as a tag without a name.
pub proof fn law_play_disconnect_format(p: play::Disconnect)
    ensures
        <play::Disconnect as ClientboundPacket>::packet_id() == 0x1D,
        layout::spells(
            p.body(),
            seq![
                Field::Raw(nbt::network_bytes(text::nbt_form(p.reason@))),
            ],
        ),
{
    let (s, f) = layout::begin();
    layout::lemma_front(nbt::network_bytes(text::nbt_form(p.reason@)));
    let (s, f) = layout::then_raw(s, f, nbt::network_bytes(text::nbt_form(p.reason@)));
}

/// A chat message is its content as a tag without a name, and whether it is shown
/// above the hotbar.
pub proof fn law_system_chat_format(p: play::SystemChat)
    ensures
        <play::SystemChat as ClientboundPacket>::packet_id() == 0x73,
        layout::spells(
            p.body(),
            seq![
                Field::Raw(nbt::network_bytes(text::nbt_form(p.content@))),
                Field::Bool(p.overlay),
            ],
        ),
{
    let (s, f) = layout::begin();
    layout::lemma_front(nbt::network_bytes(text::nbt_form(p.content@)));
    let (s, f) = layout::then_raw(s, f, nbt::network_bytes(text::nbt_form(p.content@)));
    let (s, f) = layout::then_bool(s, f, p.overlay);
    assert(f =~= seq![
        Field::Raw(nbt::network_bytes(text::nbt_form(p.content@))),
        Field::Bool(p.overlay),
    ]);
}

/// The centre of the chunk cache is its x and its z.
pub proof fn law_cache_center_format(p: play::SetChunkCacheCenter)
    ensures
        <play::SetChunkCacheCenter as ClientboundPacket>::packet_id() == 0x58,
        layout::spells(
            p.body(),
            seq![
                Field::VarInt(p.chunk_x),
                Field::VarInt(p.chunk_z),
            ],
        ),
{
    let (s, f) = layout::begin();
    layout::lemma_front(varint::varint_bytes(p.chunk_x));
    let (s, f) = layout::then_varint(s, f, p.chunk_x);
    let (s, f) = layout::then_varint(s, f, p.chunk_z);
    assert(f =~= seq![
        Field::VarInt(p.chunk_x),
        Field::VarInt(p.chunk_z),
    ]);
}

/// The compass target is its packed position and its angle.
pub proof fn law_spawn_position_format(p: play::SetDefaultSpawnPosition)
    ensures
        <play::SetDefaultSpawnPosition as ClientboundPacket>::packet_id() == 0x5A,
        layout::spells(
            p.body(),
            seq![
                Field::Long(types::packed_block_pos(p.position)),
                Field::Single(p.angle.bits),
            ],
        ),
{
    let (s, f) = layout::begin();
    layout::lemma_front(wire::be64(types::packed_block_pos(p.position) as u64));
    let (s, f) = layout::then_long(s, f, types::packed_block_pos(p.position));
    let (s, f) = layout::then_single(s, f, p.angle.bits);
    assert(f =~= seq![
        Field::Long(types::packed_block_pos(p.position)),
        Field::Single(p.angle.bits),
    ]);
}

/// A game event is its number and its value.
pub proof fn law_game_event_format(p: play::GameEvent)
    ensures
        <play::GameEvent as ClientboundPacket>::packet_id() == 0x22,
        layout::spells(
            p.body(),
            seq![
                Field::Byte(p.event),
                Field::Single(p.value.bits),
            ],
        ),
{
    let (s, f) = layout::begin();
    layout::lemma_front(seq![p.event]);
    let (s, f) = layout::then_byte(s, f, p.event);
    let (s, f) = layout::then_single(s, f, p.value.bits);
    assert(f =~= seq![
        Field::Byte(p.event),
        Field::Single(p.value.bits),
    ]);
}

/// The event that makes a client wait for chunks is number 13, whatever value
/// comes with it.
pub proof fn law_waiting_event_format(p: play::GameEvent)
    requires
        p.event == play::GameEvent::START_WAITING_FOR_CHUNKS,
    ensures
        layout::spells(p.body(), seq![Field::Byte(13), Field::Single(p.value.bits)]),
{
    law_game_event_format(p);
}

/// Chunk data is the x and the z of the chunk, and what follows as it is.
pub proof fn law_chunk_data_format(p: play::ChunkData)
    ensures
        <play::ChunkData as ClientboundPacket>::packet_id() == 0x27,
        layout::spells(
            p.body(),
            seq![
                Field::Int(p.chunk_x),
                Field::Int(p.chunk_z),
                Field::Raw(p.payload@),
            ],
        ),
{
    let (s, f) = layout::begin();
    layout::lemma_front(wire::be32(p.chunk_x as u32));
    let (s, f) = layout::then_int(s, f, p.chunk_x);
    let (s, f) = layout::then_int(s, f, p.chunk_z);
    let (s, f) = layout::then_raw(s, f, p.payload@);
    assert(f =~= seq![
        Field::Int(p.chunk_x),
        Field::Int(p.chunk_z),
        Field::Raw(p.payload@),
    ]);
}

/// Eight bytes are read as a play keep-alive of their number.
pub proof fn law_play_keep_alive_reads(s: Seq<u8>, p: play::KeepAlive, state: &'static str)
    requires
        layout::spells(
            s,
            seq![
                Field::Long(p.id),
            ],
        ),
    ensures
        <play::KeepAlive as ServerboundPacket>::packet_id() == 0x1A,
        packets::parse_exact::<play::KeepAlive>(s, state) == Ok::<_, ProtocolError>(
            ServerboundPacket::fields(&p),
        ),
{
    let bytes = s;
    let (s, f) = layout::begin();
    layout::lemma_front(wire::be64(p.id as u64));
    let (s, f) = layout::then_long(s, f, p.id);
    layout::law_spelling_is_unique(bytes, s, f);
    lemma_whole(s);
    reader::lemma_reads_i64(p.id, Seq::empty());
}

/// A VarInt is read as the confirmation of the teleport of its number.
pub proof fn law_accept_teleportation_reads(
    s: Seq<u8>,
    p: play::AcceptTeleportation,
    state: &'static str,
)
    requires
        layout::spells(
            s,
            seq![
                Field::VarInt(p.teleport_id),
            ],
        ),
    ensures
        <play::AcceptTeleportation as ServerboundPacket>::packet_id() == 0x00,
        packets::parse_exact::<play::AcceptTeleportation>(s, state) == Ok::<_, ProtocolError>(
            ServerboundPacket::fields(&p),
        ),
{
    let bytes = s;
    let (s, f) = layout::begin();
    layout::lemma_front(varint::varint_bytes(p.teleport_id));
    let (s, f) = layout::then_varint(s, f, p.teleport_id);
    layout::law_spelling_is_unique(bytes, s, f);
    lemma_whole(s);
    reader::lemma_reads_varint(p.teleport_id, Seq::empty());
}

/// Three doubles are read as x, y and z of a movement, and the byte after them as
/// its flags.
pub proof fn law_move_pos_reads(s: Seq<u8>, p: play::MovePlayerPos, state: &'static str)
    requires
        layout::spells(
            s,
            seq![
                Field::Double(p.x.bits),
                Field::Double(p.y.bits),
                Field::Double(p.z.bits),
                Field::Byte(p.flags.0),
            ],
        ),
    ensures
        <play::MovePlayerPos as ServerboundPacket>::packet_id() == 0x1C,
        packets::parse_exact::<play::MovePlayerPos>(s, state) == Ok::<_, ProtocolError>(
            ServerboundPacket::fields(&p),
        ),
{
    let bytes = s;
    let (s, f) = layout::begin();
    layout::lemma_front(wire::be64(p.x.bits));
    let (s, f) = layout::then_double(s, f, p.x.bits);
    let (s, f) = layout::then_double(s, f, p.y.bits);
    let (s, f) = layout::then_double(s, f, p.z.bits);
    let (s, f) = layout::then_byte(s, f, p.flags.0);
    assert(f =~= seq![
        Field::Double(p.x.bits),
        Field::Double(p.y.bits),
        Field::Double(p.z.bits),
        Field::Byte(p.flags.0),
    ]);
    layout::law_spelling_is_unique(bytes, s, f);
    lemma_whole(s);
    let full = play::MovePlayerPosRot {
        x: p.x,
        y: p.y,
        z: p.z,
        yaw: Float32 { bits: 0 },
        pitch: Float32 { bits: 0 },
        flags: p.flags,
    };
    play::law_movement_reads(full, Seq::empty());
}

/// Three doubles, two singles and a byte are read as x, y, z, yaw, pitch and flags.
pub proof fn law_move_pos_rot_reads(s: Seq<u8>, p: play::MovePlayerPosRot, state: &'static str)
    requires
        layout::spells(
            s,
            seq![
                Field::Double(p.x.bits),
                Field::Double(p.y.bits),
                Field::Double(p.z.bits),
                Field::Single(p.yaw.bits),
                Field::Single(p.pitch.bits),
                Field::Byte(p.flags.0),
            ],
        ),
    ensures
        <play::MovePlayerPosRot as ServerboundPacket>::packet_id() == 0x1D,
        packets::parse_exact::<play::MovePlayerPosRot>(s, state) == Ok::<_, ProtocolError>(
            ServerboundPacket::fields(&p),
        ),
{
    let bytes = s;
    let (s, f) = layout::begin();
    layout::lemma_front(wire::be64(p.x.bits));
    let (s, f) = layout::then_double(s, f, p.x.bits);
    let (s, f) = layout::then_double(s, f, p.y.bits);
    let (s, f) = layout::then_double(s, f, p.z.bits);
    let (s, f) = layout::then_single(s, f, p.yaw.bits);
    let (s, f) = layout::then_single(s, f, p.pitch.bits);
    let (s, f) = layout::then_byte(s, f, p.flags.0);
    assert(f =~= seq![
        Field::Double(p.x.bits),
        Field::Double(p.y.bits),
        Field::Double(p.z.bits),
        Field::Single(p.yaw.bits),
        Field::Single(p.pitch.bits),
        Field::Byte(p.flags.0),
    ]);
    layout::law_spelling_is_unique(bytes, s, f);
    lemma_whole(s);
    play::law_movement_reads(p, Seq::empty());
}

/// Two singles and a byte are read as yaw, pitch and flags.
pub proof fn law_move_rot_reads(s: Seq<u8>, p: play::MovePlayerRot, state: &'static str)
    requires
        layout::spells(
            s,
            seq![
                Field::Single(p.yaw.bits),
                Field::Single(p.pitch.bits),
                Field::Byte(p.flags.0),
            ],
        ),
    ensures
        <play::MovePlayerRot as ServerboundPacket>::packet_id() == 0x1E,
        packets::parse_exact::<play::MovePlayerRot>(s, state) == Ok::<_, ProtocolError>(
            ServerboundPacket::fields(&p),
        ),
{
    let bytes = s;
    let (s, f) = layout::begin();
    layout::lemma_front(wire::be32(p.yaw.bits));
    let (s, f) = layout::then_single(s, f, p.yaw.bits);
    let (s, f) = layout::then_single(s, f, p.pitch.bits);
    let (s, f) = layout::then_byte(s, f, p.flags.0);
    assert(f =~= seq![
        Field::Single(p.yaw.bits),
        Field::Single(p.pitch.bits),
        Field::Byte(p.flags.0),
    ]);
    layout::law_spelling_is_unique(bytes, s, f);
    lemma_whole(s);
    let full = play::MovePlayerPosRot {
        x: Float64 { bits: 0 },
        y: Float64 { bits: 0 },
        z: Float64 { bits: 0 },
        yaw: p.yaw,
        pitch: p.pitch,
        flags: p.flags,
    };
    play::law_movement_reads(full, Seq::empty());
}

/// A byte is read as the flags of a player that stays put.
pub proof fn law_move_status_reads(s: Seq<u8>, p: play::MovePlayerStatusOnly, state: &'static str)
    requires
        layout::spells(
            s,
            seq![
                Field::Byte(p.flags.0),
            ],
        ),
    ensures
        <play::MovePlayerStatusOnly as ServerboundPacket>::packet_id() == 0x1F,
        packets::parse_exact::<play::MovePlayerStatusOnly>(s, state) == Ok::<_, ProtocolError>(
            ServerboundPacket::fields(&p),
        ),
{
    let bytes = s;
    let (s, f) = layout::begin();
    layout::lemma_front(seq![p.flags.0]);
    let (s, f) = layout::then_byte(s, f, p.flags.0);
    layout::law_spelling_is_unique(bytes, s, f);
    lemma_whole(s);
    reader::lemma_reads_u8(p.flags.0, Seq::empty());
}

/// A string of up to 256 characters is read as a command.
pub proof fn law_chat_command_reads(s: Seq<u8>, p: play::ChatCommand, state: &'static str)
    requires
        layout::spells(
            s,
            seq![
                Field::Text(p.command@),
            ],
        ),
        p.command@.len() <= 256,
        utf8::encode_utf8(p.command@).len() <= 768,
    ensures
        <play::ChatCommand as ServerboundPacket>::packet_id() == 0x05,
        packets::parse_exact::<play::ChatCommand>(s, state) == Ok::<_, ProtocolError>(
            ServerboundPacket::fields(&p),
        ),
{
    let bytes = s;
    let (s, f) = layout::begin();
    layout::lemma_front(writer::string_bytes(p.command@));
    let (s, f) = layout::then_text(s, f, p.command@);
    layout::law_spelling_is_unique(bytes, s, f);
    lemma_whole(s);
    reader::law_string_round_trip(p.command@, play::MAX_COMMAND_LEN, Seq::empty());
}

// ---------------------------------------------------------------------------
// Configuration
// ---------------------------------------------------------------------------

/// A configuration keep-alive is its number in eight bytes.
pub proof fn law_config_keep_alive_format(p: config::KeepAlive)
    ensures
        <config::KeepAlive as ClientboundPacket>::packet_id() == 0x04,
        layout::spells(
            p.body(),
            seq![
                Field::Long(p.id),
            ],
        ),
{
    let (s, f) = layout::begin();
    layout::lemma_front(wire::be64(p.id as u64));
    let (s, f) = layout::then_long(s, f, p.id);
}

/// Eight bytes are read as a configuration keep-alive of their number.
pub proof fn law_config_keep_alive_reads(s: Seq<u8>, p: config::KeepAlive, state: &'static str)
    requires
        layout::spells(
            s,
            seq![
                Field::Long(p.id),
            ],
        ),
    ensures
        <config::KeepAlive as ServerboundPacket>::packet_id() == 0x04,
        packets::parse_exact::<config::KeepAlive>(s, state) == Ok::<_, ProtocolError>(
            ServerboundPacket::fields(&p),
        ),
{
    let bytes = s;
    let (s, f) = layout::begin();
    layout::lemma_front(wire::be64(p.id as u64));
    let (s, f) = layout::then_long(s, f, p.id);
    layout::law_spelling_is_unique(bytes, s, f);
    lemma_whole(s);
    reader::lemma_reads_i64(p.id, Seq::empty());
}

/// A configuration disconnect is its reason as a tag without a name.
pub proof fn law_config_disconnect_format(p: config::Disconnect)
    ensures
        <config::Disconnect as ClientboundPacket>::packet_id() == 0x02,
        layout::spells(
            p.body(),
            seq![
                Field::Raw(nbt::network_bytes(text::nbt_form(p.reason@))),
            ],
        ),
{
    let (s, f) = layout::begin();
    layout::lemma_front(nbt::network_bytes(text::nbt_form(p.reason@)));
    let (s, f) = layout::then_raw(s, f, nbt::network_bytes(text::nbt_form(p.reason@)));
}

/// A plugin message is its channel and its payload, which has no length.
pub proof fn law_plugin_message_format(p: config::PluginMessage)
    ensures
        <config::PluginMessage as ClientboundPacket>::packet_id() == 0x01,
        layout::spells(
            p.body(),
            seq![
                Field::Text(p.channel@),
                Field::Raw(p.data@),
            ],
        ),
{
    let (s, f) = layout::begin();
    layout::lemma_front(writer::string_bytes(p.channel@));
    let (s, f) = layout::then_text(s, f, p.channel@);
    let (s, f) = layout::then_raw(s, f, p.data@);
    assert(f =~= seq![
        Field::Text(p.channel@),
        Field::Raw(p.data@),
    ]);
}

/// A string within the default limit is read as the channel of a plugin message,
/// and all that follows it as the payload.
pub proof fn law_plugin_message_reads(s: Seq<u8>, p: config::PluginMessage, state: &'static str)
    requires
        layout::spells(
            s,
            seq![
                Field::Text(p.channel@),
                Field::Raw(p.data@),
            ],
        ),
        p.channel@.len() <= 32767,
        utf8::encode_utf8(p.channel@).len() <= 98301,
    ensures
        <config::PluginMessage as ServerboundPacket>::packet_id() == 0x02,
        packets::parse_exact::<config::PluginMessage>(s, state) == Ok::<_, ProtocolError>(
            ServerboundPacket::fields(&p),
        ),
{
    let bytes = s;
    let (s, f) = layout::begin();
    layout::lemma_front(writer::string_bytes(p.channel@));
    let (s, f) = layout::then_text(s, f, p.channel@);
    let (s, f) = layout::then_raw(s, f, p.data@);
    assert(f =~= seq![
        Field::Text(p.channel@),
        Field::Raw(p.data@),
    ]);
    layout::law_spelling_is_unique(bytes, s, f);
    lemma_whole(s);
    config::law_plugin_message_round_trip(ServerboundPacket::fields(&p));
}

/// Client settings are read field by field: locale, view distance, chat mode, chat
/// colours, skin parts, main hand, text filtering, listing and particles.
pub proof fn law_client_information_reads(
    s: Seq<u8>,
    p: config::ClientInformation,
    state: &'static str,
)
    requires
        layout::spells(
            s,
            seq![
                Field::Text(p.locale@),
                Field::SignedByte(p.view_distance),
                Field::VarInt(config::chat_mode_id(p.chat_mode)),
                Field::Bool(p.chat_colors),
                Field::Byte(p.displayed_skin_parts),
                Field::VarInt(p.main_hand),
                Field::Bool(p.text_filtering_enabled),
                Field::Bool(p.allows_listing),
                Field::VarInt(p.particle_status),
            ],
        ),
        p.locale@.len() <= 16,
        utf8::encode_utf8(p.locale@).len() <= 48,
    ensures
        <config::ClientInformation as ServerboundPacket>::packet_id() == 0x00,
        packets::parse_exact::<config::ClientInformation>(s, state) == Ok::<_, ProtocolError>(
            ServerboundPacket::fields(&p),
        ),
{
    let bytes = s;
    let (s, f) = layout::begin();
    layout::lemma_front(writer::string_bytes(p.locale@));
    let (s, f) = layout::then_text(s, f, p.locale@);
    let (s, f) = layout::then_signed_byte(s, f, p.view_distance);
    let (s, f) = layout::then_varint(s, f, config::chat_mode_id(p.chat_mode));
    let (s, f) = layout::then_bool(s, f, p.chat_colors);
    let (s, f) = layout::then_byte(s, f, p.displayed_skin_parts);
    let (s, f) = layout::then_varint(s, f, p.main_hand);
    let (s, f) = layout::then_bool(s, f, p.text_filtering_enabled);
    let (s, f) = layout::then_bool(s, f, p.allows_listing);
    let (s, f) = layout::then_varint(s, f, p.particle_status);
    assert(f =~= seq![
        Field::Text(p.locale@),
        Field::SignedByte(p.view_distance),
        Field::VarInt(config::chat_mode_id(p.chat_mode)),
        Field::Bool(p.chat_colors),
        Field::Byte(p.displayed_skin_parts),
        Field::VarInt(p.main_hand),
        Field::Bool(p.text_filtering_enabled),
        Field::Bool(p.allows_listing),
        Field::VarInt(p.particle_status),
    ]);
    layout::law_spelling_is_unique(bytes, s, f);
    lemma_whole(s);
    config::law_client_information_round_trip(ServerboundPacket::fields(&p), Seq::empty());
}

// ---------------------------------------------------------------------------
// Login
// ---------------------------------------------------------------------------

/// A string of up to 16 characters and a UUID are read as a hello.
pub proof fn law_hello_reads(s: Seq<u8>, p: login::Hello, state: &'static str)
    requires
        layout::spells(
            s,
            seq![
                Field::Text(p.name@),
                Field::Uuid(p.profile_id.value),
            ],
        ),
        p.name@.len() <= 16,
        utf8::encode_utf8(p.name@).len() <= 48,
    ensures
        <login::Hello as ServerboundPacket>::packet_id() == 0x00,
        packets::parse_exact::<login::Hello>(s, state) == Ok::<_, ProtocolError>(
            ServerboundPacket::fields(&p),
        ),
{
    let bytes = s;
    let (s, f) = layout::begin();
    layout::lemma_front(writer::string_bytes(p.name@));
    let (s, f) = layout::then_text(s, f, p.name@);
    let (s, f) = layout::then_uuid(s, f, p.profile_id.value);
    assert(f =~= seq![
        Field::Text(p.name@),
        Field::Uuid(p.profile_id.value),
    ]);
    layout::law_spelling_is_unique(bytes, s, f);
    lemma_whole(s);
    login::law_hello_round_trip(ServerboundPacket::fields(&p), Seq::empty());
}

/// Two byte arrays are read as the secret and the token of the client.
pub proof fn law_encryption_response_reads(
    s: Seq<u8>,
    p: login::EncryptionResponse,
    state: &'static str,
)
    requires
        layout::spells(
            s,
            seq![
                Field::Bytes(p.shared_secret@),
                Field::Bytes(p.verify_token@),
            ],
        ),
        p.shared_secret@.len() <= 1024,
        p.verify_token@.len() <= 1024,
    ensures
        <login::EncryptionResponse as ServerboundPacket>::packet_id() == 0x01,
        packets::parse_exact::<login::EncryptionResponse>(s, state) == Ok::<_, ProtocolError>(
            ServerboundPacket::fields(&p),
        ),
{
    let bytes = s;
    let (s, f) = layout::begin();
    layout::lemma_front(writer::byte_array_bytes(p.shared_secret@));
    let (s, f) = layout::then_bytes(s, f, p.shared_secret@);
    let (s, f) = layout::then_bytes(s, f, p.verify_token@);
    assert(f =~= seq![
        Field::Bytes(p.shared_secret@),
        Field::Bytes(p.verify_token@),
    ]);
    layout::law_spelling_is_unique(bytes, s, f);
    lemma_whole(s);
    login::law_encryption_response_reads(ServerboundPacket::fields(&p), Seq::empty());
}

/// A login disconnect is its reason as JSON.
pub proof fn law_login_disconnect_format(p: login::LoginDisconnect)
    ensures
        <login::LoginDisconnect as ClientboundPacket>::packet_id() == 0x00,
        layout::spells(
            p.body(),
            seq![
                Field::Text(p.reason_json@),
            ],
        ),
{
    let (s, f) = layout::begin();
    layout::lemma_front(writer::string_bytes(p.reason_json@));
    let (s, f) = layout::then_text(s, f, p.reason_json@);
}

/// An encryption request is the server id, the public key, the token to verify and
/// whether to authenticate.
pub proof fn law_encryption_request_format(p: login::EncryptionRequest)
    ensures
        <login::EncryptionRequest as ClientboundPacket>::packet_id() == 0x01,
        layout::spells(
            p.body(),
            seq![
                Field::Text(p.server_id@),
                Field::Bytes(p.public_key@),
                Field::Bytes(p.verify_token@),
                Field::Bool(p.should_authenticate),
            ],
        ),
{
    let (s, f) = layout::begin();
    layout::lemma_front(writer::string_bytes(p.server_id@));
    let (s, f) = layout::then_text(s, f, p.server_id@);
    let (s, f) = layout::then_bytes(s, f, p.public_key@);
    let (s, f) = layout::then_bytes(s, f, p.verify_token@);
    let (s, f) = layout::then_bool(s, f, p.should_authenticate);
    assert(f =~= seq![
        Field::Text(p.server_id@),
        Field::Bytes(p.public_key@),
        Field::Bytes(p.verify_token@),
        Field::Bool(p.should_authenticate),
    ]);
}

/// The compression threshold is a VarInt.
pub proof fn law_set_compression_format(p: login::SetCompression)
    ensures
        <login::SetCompression as ClientboundPacket>::packet_id() == 0x03,
        layout::spells(
            p.body(),
            seq![
                Field::VarInt(p.threshold),
            ],
        ),
{
    let (s, f) = layout::begin();
    layout::lemma_front(varint::varint_bytes(p.threshold));
    let (s, f) = layout::then_varint(s, f, p.threshold);
}

// ---------------------------------------------------------------------------
// Handshake and status
// ---------------------------------------------------------------------------

/// A VarInt, a string of up to 255 characters, a short and a VarInt are read as the
/// protocol version, the address, the port and what comes next.
pub proof fn law_intention_reads(s: Seq<u8>, p: handshake::Intention, state: &'static str)
    requires
        layout::spells(
            s,
            seq![
                Field::VarInt(p.protocol_version),
                Field::Text(p.server_address@),
                Field::Short(p.server_port),
                Field::VarInt(handshake::next_state_id(p.next_state)),
            ],
        ),
        p.server_address@.len() <= 255,
        utf8::encode_utf8(p.server_address@).len() <= 765,
    ensures
        <handshake::Intention as ServerboundPacket>::packet_id() == 0x00,
        packets::parse_exact::<handshake::Intention>(s, state) == Ok::<_, ProtocolError>(
            ServerboundPacket::fields(&p),
        ),
{
    let bytes = s;
    let (s, f) = layout::begin();
    layout::lemma_front(varint::varint_bytes(p.protocol_version));
    let (s, f) = layout::then_varint(s, f, p.protocol_version);
    let (s, f) = layout::then_text(s, f, p.server_address@);
    let (s, f) = layout::then_short(s, f, p.server_port);
    let (s, f) = layout::then_varint(s, f, handshake::next_state_id(p.next_state));
    assert(f =~= seq![
        Field::VarInt(p.protocol_version),
        Field::Text(p.server_address@),
        Field::Short(p.server_port),
        Field::VarInt(handshake::next_state_id(p.next_state)),
    ]);
    layout::law_spelling_is_unique(bytes, s, f);
    lemma_whole(s);
    handshake::law_intention_round_trip(ServerboundPacket::fields(&p), Seq::empty());
}

/// Eight bytes are read as a ping of their number.
pub proof fn law_ping_reads(s: Seq<u8>, p: status::PingRequest, state: &'static str)
    requires
        layout::spells(
            s,
            seq![
                Field::Long(p.payload),
            ],
        ),
    ensures
        <status::PingRequest as ServerboundPacket>::packet_id() == 0x01,
        packets::parse_exact::<status::PingRequest>(s, state) == Ok::<_, ProtocolError>(
            ServerboundPacket::fields(&p),
        ),
{
    let bytes = s;
    let (s, f) = layout::begin();
    layout::lemma_front(wire::be64(p.payload as u64));
    let (s, f) = layout::then_long(s, f, p.payload);
    layout::law_spelling_is_unique(bytes, s, f);
    lemma_whole(s);
    reader::lemma_reads_i64(p.payload, Seq::empty());
}

/// A pong is its number in eight bytes.
pub proof fn law_pong_format(p: status::PongResponse)
    ensures
        <status::PongResponse as ClientboundPacket>::packet_id() == 0x01,
        layout::spells(
            p.body(),
            seq![
                Field::Long(p.payload),
            ],
        ),
{
    let (s, f) = layout::begin();
    layout::lemma_front(wire::be64(p.payload as u64));
    let (s, f) = layout::then_long(s, f, p.payload);
}

/// A status response is its document.
pub proof fn law_status_response_format(p: status::StatusResponse)
    ensures
        <status::StatusResponse as ClientboundPacket>::packet_id() == 0x00,
        layout::spells(
            p.body(),
            seq![
                Field::Text(p.json@),
            ],
        ),
{
    let (s, f) = layout::begin();
    layout::lemma_front(writer::string_bytes(p.json@));
    let (s, f) = layout::then_text(s, f, p.json@);
}

/// What a client writes of its settings.
pub proof fn law_client_information_format(p: config::ClientInformation)
    ensures
        layout::spells(
            config::client_information_bytes(ServerboundPacket::fields(&p)),
            seq![
                Field::Text(p.locale@),
                Field::SignedByte(p.view_distance),
                Field::VarInt(config::chat_mode_id(p.chat_mode)),
                Field::Bool(p.chat_colors),
                Field::Byte(p.displayed_skin_parts),
                Field::VarInt(p.main_hand),
                Field::Bool(p.text_filtering_enabled),
                Field::Bool(p.allows_listing),
                Field::VarInt(p.particle_status),
            ],
        ),
{
    let (s, f) = layout::begin();
    layout::lemma_front(writer::string_bytes(p.locale@));
    let (s, f) = layout::then_text(s, f, p.locale@);
    let (s, f) = layout::then_signed_byte(s, f, p.view_distance);
    let (s, f) = layout::then_varint(s, f, config::chat_mode_id(p.chat_mode));
    let (s, f) = layout::then_bool(s, f, p.chat_colors);
    let (s, f) = layout::then_byte(s, f, p.displayed_skin_parts);
    let (s, f) = layout::then_varint(s, f, p.main_hand);
    let (s, f) = layout::then_bool(s, f, p.text_filtering_enabled);
    let (s, f) = layout::then_bool(s, f, p.allows_listing);
    let (s, f) = layout::then_varint(s, f, p.particle_status);
    assert(f =~= seq![
        Field::Text(p.locale@),
        Field::SignedByte(p.view_distance),
        Field::VarInt(config::chat_mode_id(p.chat_mode)),
        Field::Bool(p.chat_colors),
        Field::Byte(p.displayed_skin_parts),
        Field::VarInt(p.main_hand),
        Field::Bool(p.text_filtering_enabled),
        Field::Bool(p.allows_listing),
        Field::VarInt(p.particle_status),
    ]);
}

/// What a client writes of a hello.
pub proof fn law_hello_format(p: login::Hello)
    ensures
        layout::spells(
            login::hello_bytes(ServerboundPacket::fields(&p)),
            seq![
                Field::Text(p.name@),
                Field::Uuid(p.profile_id.value),
            ],
        ),
{
    let (s, f) = layout::begin();
    layout::lemma_front(writer::string_bytes(p.name@));
    let (s, f) = layout::then_text(s, f, p.name@);
    let (s, f) = layout::then_uuid(s, f, p.profile_id.value);
    assert(f =~= seq![
        Field::Text(p.name@),
        Field::Uuid(p.profile_id.value),
    ]);
}

/// What a client writes of an intention.
pub proof fn law_intention_format(p: handshake::Intention)
    ensures
        layout::spells(
            handshake::intention_bytes(ServerboundPacket::fields(&p)),
            seq![
                Field::VarInt(p.protocol_version),
                Field::Text(p.server_address@),
                Field::Short(p.server_port),
                Field::VarInt(handshake::next_state_id(p.next_state)),
            ],
        ),
{
    let (s, f) = layout::begin();
    layout::lemma_front(varint::varint_bytes(p.protocol_version));
    let (s, f) = layout::then_varint(s, f, p.protocol_version);
    let (s, f) = layout::then_text(s, f, p.server_address@);
    let (s, f) = layout::then_short(s, f, p.server_port);
    let (s, f) = layout::then_varint(s, f, handshake::next_state_id(p.next_state));
    assert(f =~= seq![
        Field::VarInt(p.protocol_version),
        Field::Text(p.server_address@),
        Field::Short(p.server_port),
        Field::VarInt(handshake::next_state_id(p.next_state)),
    ]);
}

// ---------------------------------------------------------------------------
// Packets without a body
// ---------------------------------------------------------------------------

/// Packets that only signal something have an id and nothing else: an empty body
/// is read as the signal, and any other body is refused.
pub proof fn law_signals_are_empty(s: Seq<u8>, state: &'static str)
    ensures
        <config::FinishConfiguration as ClientboundPacket>::packet_id() == 0x03,
        (config::FinishConfiguration).body().len() == 0,
        <config::FinishConfigurationAck as ServerboundPacket>::packet_id() == 0x03,
        <login::LoginAcknowledged as ServerboundPacket>::packet_id() == 0x03,
        <status::StatusRequest as ServerboundPacket>::packet_id() == 0x00,
        <play::ClientTickEnd as ServerboundPacket>::packet_id() == 0x0B,
        packets::parse_exact::<config::FinishConfigurationAck>(s, state) is Ok <==> s.len() == 0,
        packets::parse_exact::<login::LoginAcknowledged>(s, state) is Ok <==> s.len() == 0,
        packets::parse_exact::<status::StatusRequest>(s, state) is Ok <==> s.len() == 0,
        packets::parse_exact::<play::ClientTickEnd>(s, state) is Ok <==> s.len() == 0,
{
}

// ---------------------------------------------------------------------------
// Packets that hold lists
// ---------------------------------------------------------------------------

/// The fields of a known pack.
pub open spec fn pack_layout(pack: config::KnownPack) -> Seq<Field> {
    seq![Field::Text(pack.namespace@), Field::Text(pack.id@), Field::Text(pack.version@)]
}

proof fn lemma_pack(pack: config::KnownPack)
    ensures
        layout::spells(config::pack_bytes(pack@), pack_layout(pack)),
{
    layout::lemma_front(writer::string_bytes(pack.namespace@));
    let (s, f) = layout::begin();
    let (s, f) = layout::then_text(s, f, pack.namespace@);
    let (s, f) = layout::then_text(s, f, pack.id@);
    let (s, f) = layout::then_text(s, f, pack.version@);
    assert(f =~= pack_layout(pack));
}

/// Known packs are their number, and of each its namespace, id and version.
pub proof fn law_known_packs_format(p: config::SelectKnownPacks)
    ensures
        <config::SelectKnownPacks as ClientboundPacket>::packet_id() == 0x0E,
        layout::spells(
            p.body(),
            seq![Field::VarInt(p.packs@.len() as i32)] + layout::fields_of_each(
                p.packs@,
                |pack: config::KnownPack| pack_layout(pack),
            ),
        ),
{
    let image = |pack: config::KnownPack| pack@;
    let encoding = |pack: config::PackFields| config::pack_bytes(pack);
    let fields = |pack: config::KnownPack| pack_layout(pack);
    assert forall|i: int| 0 <= i < p.packs@.len() implies layout::spells(
        encoding(image(#[trigger] p.packs@[i])),
        fields(p.packs@[i]),
    ) by {
        lemma_pack(p.packs@[i]);
    }
    layout::lemma_each(p.packs@, image, encoding, fields);
    assert(Seq::new(p.packs@.len(), |i: int| image(p.packs@[i])) =~= config::packs_fields(
        p.packs@,
    ));
    let count = p.packs@.len() as i32;
    layout::lemma_front(varint::varint_bytes(count));
    let (s, f) = layout::begin();
    let (s, f) = layout::then_varint(s, f, count);
    layout::lemma_append(
        s,
        f,
        writer::concat_bytes(config::packs_fields(p.packs@), encoding),
        layout::fields_of_each(p.packs@, fields),
    );
}

/// A number and as many packs, each of three strings, are read as these packs.
pub proof fn law_known_packs_reads(
    s: Seq<u8>,
    p: config::SelectKnownPacks,
    state: &'static str,
)
    requires
        layout::spells(
            s,
            seq![Field::VarInt(p.packs@.len() as i32)] + layout::fields_of_each(
                p.packs@,
                |pack: config::KnownPack| pack_layout(pack),
            ),
        ),
        p.packs@.len() <= 1024,
        forall|i: int| 0 <= i < p.packs@.len() ==> config::pack_fits((#[trigger] p.packs@[i])@),
    ensures
        <config::SelectKnownPacks as ServerboundPacket>::packet_id() == 0x07,
        packets::parse_exact::<config::SelectKnownPacks>(s, state) == Ok::<_, ProtocolError>(
            ServerboundPacket::fields(&p),
        ),
{
    law_known_packs_format(p);
    layout::law_spelling_is_unique(
        s,
        p.body(),
        seq![Field::VarInt(p.packs@.len() as i32)] + layout::fields_of_each(
            p.packs@,
            |pack: config::KnownPack| pack_layout(pack),
        ),
    );
    let packs = config::packs_fields(p.packs@);
    assert forall|i: int| 0 <= i < packs.len() implies config::pack_fits(#[trigger] packs[i]) by {
        assert(config::pack_fits(p.packs@[i]@));
    }
    config::law_known_packs_round_trip(packs, Seq::empty());
    lemma_whole(s);
}

/// The fields of a registry entry: its id, and whether its definition follows.
pub open spec fn entry_layout(entry: config::RegistryEntry) -> Seq<Field> {
    match entry.data {
        Some(tag) => seq![
            Field::Text(entry.entry_id@),
            Field::Bool(true),
            Field::Raw(nbt::network_bytes(tag@)),
        ],
        None => seq![Field::Text(entry.entry_id@), Field::Bool(false)],
    }
}

proof fn lemma_entry(entry: config::RegistryEntry)
    ensures
        layout::spells(config::entry_bytes(entry@), entry_layout(entry)),
{
    let id = writer::string_bytes(entry.entry_id@);
    layout::lemma_front(id);
    let (s, f) = layout::begin();
    let (s, f) = layout::then_text(s, f, entry.entry_id@);
    match entry.data {
        Some(tag) => {
            let (s, f) = layout::then_bool(s, f, true);
            let (s, f) = layout::then_raw(s, f, nbt::network_bytes(tag@));
            assert(f =~= entry_layout(entry));
            assert(s =~= id + (seq![1u8] + nbt::network_bytes(tag@)));
        },
        None => {
            let (s, f) = layout::then_bool(s, f, false);
            assert(f =~= entry_layout(entry));
        },
    }
}

/// A registry is its id, the number of its entries, and the entries.
pub proof fn law_registry_format(p: config::RegistryData)
    ensures
        <config::RegistryData as ClientboundPacket>::packet_id() == 0x07,
        layout::spells(
            p.body(),
            seq![Field::Text(p.registry_id@), Field::VarInt(p.entries@.len() as i32)]
                + layout::fields_of_each(
                p.entries@,
                |entry: config::RegistryEntry| entry_layout(entry),
            ),
        ),
{
    let image = |entry: config::RegistryEntry| entry@;
    let encoding = |e: config::EntryFields| config::entry_bytes(e);
    let fields = |entry: config::RegistryEntry| entry_layout(entry);
    assert forall|i: int| 0 <= i < p.entries@.len() implies layout::spells(
        encoding(image(#[trigger] p.entries@[i])),
        fields(p.entries@[i]),
    ) by {
        lemma_entry(p.entries@[i]);
    }
    layout::lemma_each(p.entries@, image, encoding, fields);
    assert(Seq::new(p.entries@.len(), |i: int| image(p.entries@[i])) =~= p@.entries);
    let count = p.entries@.len() as i32;
    let list = writer::concat_bytes(p@.entries, encoding);
    layout::lemma_front(writer::string_bytes(p.registry_id@));
    let (s, f) = layout::begin();
    let (s, f) = layout::then_text(s, f, p.registry_id@);
    let (s, f) = layout::then_varint(s, f, count);
    layout::lemma_append(s, f, list, layout::fields_of_each(p.entries@, fields));
    assert(f =~= seq![Field::Text(p.registry_id@), Field::VarInt(count)]);
    assert(s + list =~= writer::string_bytes(p.registry_id@) + (varint::varint_bytes(count)
        + list));
}

/// The fields of a profile property: name, value, and whether a signature
/// follows.
pub open spec fn property_layout(p: login::ProfileProperty) -> Seq<Field> {
    match p.signature {
        Some(signature) => seq![
            Field::Text(p.name@),
            Field::Text(p.value@),
            Field::Bool(true),
            Field::Text(signature@),
        ],
        None => seq![Field::Text(p.name@), Field::Text(p.value@), Field::Bool(false)],
    }
}

proof fn lemma_property(p: login::ProfileProperty)
    ensures
        layout::spells(login::property_bytes(p), property_layout(p)),
{
    layout::lemma_front(writer::string_bytes(p.name@));
    let (s, f) = layout::begin();
    let (s, f) = layout::then_text(s, f, p.name@);
    let (s, f) = layout::then_text(s, f, p.value@);
    let front = s;
    match p.signature {
        Some(signature) => {
            let (s, f) = layout::then_bool(s, f, true);
            let (s, f) = layout::then_text(s, f, signature@);
            assert(f =~= property_layout(p));
            assert(s =~= front + (seq![1u8] + writer::string_bytes(signature@)));
        },
        None => {
            let (s, f) = layout::then_bool(s, f, false);
            assert(f =~= property_layout(p));
        },
    }
}

proof fn lemma_properties(properties: Seq<login::ProfileProperty>)
    ensures
        layout::spells(
            login::properties_bytes(properties),
            layout::fields_of_each(
                properties,
                |p: login::ProfileProperty| property_layout(p),
            ),
        ),
    decreases properties.len(),
{
    let (s, f) = layout::begin();
    if properties.len() > 0 {
        lemma_properties(properties.drop_last());
        lemma_property(properties.last());
        layout::lemma_append(
            login::properties_bytes(properties.drop_last()),
            layout::fields_of_each(
                properties.drop_last(),
                |p: login::ProfileProperty| property_layout(p),
            ),
            login::property_bytes(properties.last()),
            property_layout(properties.last()),
        );
    }
}

/// A login success is the id of the player, their name, the number of their
/// properties, and the properties.
pub open spec fn success_layout(p: login::LoginSuccess) -> Seq<Field> {
    seq![
        Field::Uuid(p.profile_id.value),
        Field::Text(p.username@),
        Field::VarInt(p.properties@.len() as i32),
    ] + layout::fields_of_each(
        p.properties@,
        |property: login::ProfileProperty| property_layout(property),
    )
}

/// A login success stands for its fields, and where there is a flag to send, one
/// byte for it follows.
pub proof fn law_login_success_format(p: login::LoginFinished)
    ensures
        <login::LoginSuccess as ClientboundPacket>::packet_id() == 0x02,
        <login::LoginFinished as ClientboundPacket>::packet_id() == 0x02,
        layout::spells(p.success.body(), success_layout(p.success)),
        layout::spells(
            p.body(),
            success_layout(p.success) + match p.strict_error_handling {
                Some(flag) => seq![Field::Bool(flag)],
                None => seq![],
            },
        ),
{
    let q = p.success;
    layout::lemma_front(wire::be128(q.profile_id.value));
    let (s, f) = layout::begin();
    let (s, f) = layout::then_uuid(s, f, q.profile_id.value);
    let (s, f) = layout::then_text(s, f, q.username@);
    let (s, f) = layout::then_varint(s, f, q.properties@.len() as i32);
    lemma_properties(q.properties@);
    let list = layout::fields_of_each(
        q.properties@,
        |property: login::ProfileProperty| property_layout(property),
    );
    layout::lemma_append(s, f, login::properties_bytes(q.properties@), list);
    assert(f + list =~= success_layout(q));
    match p.strict_error_handling {
        Some(flag) => {
            let (s, f) = layout::then_bool(q.body(), success_layout(q), flag);
            assert(f =~= success_layout(q) + seq![Field::Bool(flag)]);
        },
        None => {
            lemma_whole(q.body());
            assert(success_layout(q) + Seq::<Field>::empty() =~= success_layout(q));
        },
    }
}

// ---------------------------------------------------------------------------
// Join game
// ---------------------------------------------------------------------------

/// The fields of a place of death: whether there is one, and then the dimension
/// and the packed position.
pub open spec fn death_layout(place: Option<(String, BlockPos)>) -> Seq<Field> {
    match place {
        Some((dimension, pos)) => seq![
            Field::Bool(true),
            Field::Text(dimension@),
            Field::Long(types::packed_block_pos(pos)),
        ],
        None => seq![Field::Bool(false)],
    }
}

/// The fields of a join-game packet, in the order of the wire.
pub open spec fn login_layout(p: play::Login) -> Seq<Field> {
    seq![
        Field::Int(p.entity_id),
        Field::Bool(p.hardcore),
        Field::VarInt(p.dimension_names@.len() as i32),
    ] + layout::fields_of_each(p.dimension_names@, |name: String| seq![Field::Text(name@)]) + seq![
        Field::VarInt(p.max_players),
        Field::VarInt(p.view_distance),
        Field::VarInt(p.simulation_distance),
        Field::Bool(p.reduced_debug_info),
        Field::Bool(p.enable_respawn_screen),
        Field::Bool(p.do_limited_crafting),
        Field::VarInt(p.dimension_type),
    ] + seq![
        Field::Text(p.dimension_name@),
        Field::Long(p.hashed_seed),
        Field::Byte(types::game_mode_id(p.game_mode)),
        Field::SignedByte(p.previous_game_mode),
        Field::Bool(p.is_debug),
        Field::Bool(p.is_flat),
    ] + death_layout(p.death_location) + seq![
        Field::VarInt(p.portal_cooldown),
        Field::VarInt(p.sea_level),
        Field::Bool(p.enforces_secure_chat),
    ]
}

proof fn lemma_login_start(p: play::Login)
    ensures
        layout::spells(
            play::start_bytes(p@.start),
            seq![
                Field::Int(p.entity_id),
                Field::Bool(p.hardcore),
                Field::VarInt(p.dimension_names@.len() as i32),
            ] + layout::fields_of_each(
                p.dimension_names@,
                |name: String| seq![Field::Text(name@)],
            ),
        ),
{
    let image = |name: String| name@;
    let encoding = |name: Seq<char>| writer::string_bytes(name);
    let fields = |name: String| seq![Field::Text(name@)];
    assert forall|i: int| 0 <= i < p.dimension_names@.len() implies layout::spells(
        encoding(image(#[trigger] p.dimension_names@[i])),
        fields(p.dimension_names@[i]),
    ) by {
        layout::lemma_front(writer::string_bytes(p.dimension_names@[i]@));
        let (s, f) = layout::begin();
        let (s, f) = layout::then_text(s, f, p.dimension_names@[i]@);
    }
    layout::lemma_each(p.dimension_names@, image, encoding, fields);
    assert(Seq::new(p.dimension_names@.len(), |i: int| image(p.dimension_names@[i]))
        =~= play::names(p.dimension_names@));
    let list = writer::concat_bytes(play::names(p.dimension_names@), encoding);
    let count = p.dimension_names@.len() as i32;
    layout::lemma_front(wire::be32(p.entity_id as u32));
    let (s, f) = layout::begin();
    let (s, f) = layout::then_int(s, f, p.entity_id);
    let (s, f) = layout::then_bool(s, f, p.hardcore);
    let front = s;
    let (s, f) = layout::then_varint(s, f, count);
    layout::lemma_append(s, f, list, layout::fields_of_each(p.dimension_names@, fields));
    assert(f =~= seq![
        Field::Int(p.entity_id),
        Field::Bool(p.hardcore),
        Field::VarInt(p.dimension_names@.len() as i32),
    ]);
    assert(s + list =~= front + (varint::varint_bytes(count) + list));
}

proof fn lemma_login_rules(p: play::Login)
    ensures
        layout::spells(
            play::rules_bytes(p@.rules),
            seq![
                Field::VarInt(p.max_players),
                Field::VarInt(p.view_distance),
                Field::VarInt(p.simulation_distance),
                Field::Bool(p.reduced_debug_info),
                Field::Bool(p.enable_respawn_screen),
                Field::Bool(p.do_limited_crafting),
                Field::VarInt(p.dimension_type),
            ],
        ),
{
    layout::lemma_front(varint::varint_bytes(p.max_players));
    let (s, f) = layout::begin();
    let (s, f) = layout::then_varint(s, f, p.max_players);
    let (s, f) = layout::then_varint(s, f, p.view_distance);
    let (s, f) = layout::then_varint(s, f, p.simulation_distance);
    let (s, f) = layout::then_bool(s, f, p.reduced_debug_info);
    let (s, f) = layout::then_bool(s, f, p.enable_respawn_screen);
    let (s, f) = layout::then_bool(s, f, p.do_limited_crafting);
    let (s, f) = layout::then_varint(s, f, p.dimension_type);
    assert(f =~= seq![
        Field::VarInt(p.max_players),
        Field::VarInt(p.view_distance),
        Field::VarInt(p.simulation_distance),
        Field::Bool(p.reduced_debug_info),
        Field::Bool(p.enable_respawn_screen),
        Field::Bool(p.do_limited_crafting),
        Field::VarInt(p.dimension_type),
    ]);
}

proof fn lemma_login_world(p: play::Login)
    ensures
        layout::spells(
            play::world_bytes(p@.world),
            seq![
                Field::Text(p.dimension_name@),
                Field::Long(p.hashed_seed),
                Field::Byte(types::game_mode_id(p.game_mode)),
                Field::SignedByte(p.previous_game_mode),
                Field::Bool(p.is_debug),
                Field::Bool(p.is_flat),
            ],
        ),
{
    layout::lemma_front(writer::string_bytes(p.dimension_name@));
    let (s, f) = layout::begin();
    let (s, f) = layout::then_text(s, f, p.dimension_name@);
    let (s, f) = layout::then_long(s, f, p.hashed_seed);
    let (s, f) = layout::then_byte(s, f, types::game_mode_id(p.game_mode));
    let (s, f) = layout::then_signed_byte(s, f, p.previous_game_mode);
    let (s, f) = layout::then_bool(s, f, p.is_debug);
    let (s, f) = layout::then_bool(s, f, p.is_flat);
    assert(f =~= seq![
        Field::Text(p.dimension_name@),
        Field::Long(p.hashed_seed),
        Field::Byte(types::game_mode_id(p.game_mode)),
        Field::SignedByte(p.previous_game_mode),
        Field::Bool(p.is_debug),
        Field::Bool(p.is_flat),
    ]);
}

proof fn lemma_death(place: Option<(String, BlockPos)>)
    ensures
        layout::spells(play::location_bytes(play::location(place)), death_layout(place)),
{
    let (s, f) = layout::begin();
    match place {
        Some((dimension, pos)) => {
            layout::lemma_front(seq![1u8]);
            let (s, f) = layout::then_bool(s, f, true);
            let (s, f) = layout::then_text(s, f, dimension@);
            let (s, f) = layout::then_long(s, f, types::packed_block_pos(pos));
            assert(f =~= death_layout(place));
        },
        None => {
            layout::lemma_front(seq![0u8]);
            let (s, f) = layout::then_bool(s, f, false);
            assert(f =~= death_layout(place));
        },
    }
}

proof fn lemma_login_end(p: play::Login)
    ensures
        layout::spells(
            play::end_bytes(p@.end),
            death_layout(p.death_location) + seq![
                Field::VarInt(p.portal_cooldown),
                Field::VarInt(p.sea_level),
                Field::Bool(p.enforces_secure_chat),
            ],
        ),
{
    lemma_death(p.death_location);
    let (s, f) = (
        play::location_bytes(p@.end.death_location),
        death_layout(p.death_location),
    );
    let (s, f) = layout::then_varint(s, f, p.portal_cooldown);
    let (s, f) = layout::then_varint(s, f, p.sea_level);
    let (s, f) = layout::then_bool(s, f, p.enforces_secure_chat);
    assert(f =~= death_layout(p.death_location) + seq![
        Field::VarInt(p.portal_cooldown),
        Field::VarInt(p.sea_level),
        Field::Bool(p.enforces_secure_chat),
    ]);
}

/// A join-game packet stands for its fields, one after another.
pub proof fn law_login_format(p: play::Login)
    ensures
        <play::Login as ClientboundPacket>::packet_id() == 0x2C,
        layout::spells(p.body(), login_layout(p)),
{
    lemma_login_start(p);
    lemma_login_rules(p);
    lemma_login_world(p);
    lemma_login_end(p);
    let start = seq![
        Field::Int(p.entity_id),
        Field::Bool(p.hardcore),
        Field::VarInt(p.dimension_names@.len() as i32),
    ] + layout::fields_of_each(p.dimension_names@, |name: String| seq![Field::Text(name@)]);
    let rules = seq![
        Field::VarInt(p.max_players),
        Field::VarInt(p.view_distance),
        Field::VarInt(p.simulation_distance),
        Field::Bool(p.reduced_debug_info),
        Field::Bool(p.enable_respawn_screen),
        Field::Bool(p.do_limited_crafting),
        Field::VarInt(p.dimension_type),
    ];
    let world = seq![
        Field::Text(p.dimension_name@),
        Field::Long(p.hashed_seed),
        Field::Byte(types::game_mode_id(p.game_mode)),
        Field::SignedByte(p.previous_game_mode),
        Field::Bool(p.is_debug),
        Field::Bool(p.is_flat),
    ];
    let last = seq![
        Field::VarInt(p.portal_cooldown),
        Field::VarInt(p.sea_level),
        Field::Bool(p.enforces_secure_chat),
    ];
    let a = play::start_bytes(p@.start);
    let b = play::rules_bytes(p@.rules);
    let c = play::world_bytes(p@.world);
    let d = play::end_bytes(p@.end);
    layout::lemma_append(a, start, b, rules);
    layout::lemma_append(a + b, start + rules, c, world);
    layout::lemma_append(
        a + b + c,
        start + rules + world,
        d,
        death_layout(p.death_location) + last,
    );
    assert(start + rules + world + (death_layout(p.death_location) + last) =~= login_layout(p));
}

/// Bytes that stand for the fields of a join-game packet within its limits are
/// read as that packet.
pub proof fn law_login_reads(s: Seq<u8>, p: play::Login)
    requires
        layout::spells(s, login_layout(p)),
        play::login_fits(p@),
    ensures
        play::parse_login(s) == (
            Ok::<play::LoginFields, ProtocolError>(p@),
            Seq::<u8>::empty(),
        ),
{
    law_login_format(p);
    layout::law_spelling_is_unique(s, p.body(), login_layout(p));
    play::law_login_round_trip(p@, Seq::empty());
    lemma_whole(s);
}

/// Bytes that stand for the fields of a registry within its limits are read as
/// that registry.
pub proof fn law_registry_reads(s: Seq<u8>, p: config::RegistryData)
    requires
        layout::spells(
            s,
            seq![Field::Text(p.registry_id@), Field::VarInt(p.entries@.len() as i32)]
                + layout::fields_of_each(
                p.entries@,
                |entry: config::RegistryEntry| entry_layout(entry),
            ),
        ),
        config::text_fits(p.registry_id@),
        p.entries@.len() <= 0x1_0000,
        forall|i: int|
            0 <= i < p.entries@.len() ==> config::entry_fits((#[trigger] p.entries@[i])@),
    ensures
        config::parse_registry(s) == (
            Ok::<config::RegistryFields, ProtocolError>(p@),
            Seq::<u8>::empty(),
        ),
{
    law_registry_format(p);
    layout::law_spelling_is_unique(
        s,
        p.body(),
        seq![Field::Text(p.registry_id@), Field::VarInt(p.entries@.len() as i32)]
            + layout::fields_of_each(
            p.entries@,
            |entry: config::RegistryEntry| entry_layout(entry),
        ),
    );
    let entries = p@.entries;
    assert forall|i: int| 0 <= i < entries.len() implies config::entry_fits(
        #[trigger] entries[i],
    ) by {
        assert(config::entry_fits(p.entries@[i]@));
    }
    config::law_registry_round_trip(p@, Seq::empty());
    lemma_whole(s);
}

// ---------------------------------------------------------------------------
// Numbers that stand for something
// ---------------------------------------------------------------------------

/// What the numbers of modes, difficulties, chat modes and next states stand for,
/// and that no other number stands for any.
pub proof fn law_numbers_of_choices(n: i32, small: u8)
    ensures
        types::parse_game_mode(n) matches Ok(mode) ==> (mode is Survival <==> n == 0) && (
        mode is Creative <==> n == 1) && (mode is Adventure <==> n == 2) && (mode is Spectator
            <==> n == 3),
        types::parse_game_mode(n) is Ok <==> 0 <= n <= 3,
        types::game_mode_id(GameMode::Survival) == 0,
        types::game_mode_id(GameMode::Creative) == 1,
        types::game_mode_id(GameMode::Adventure) == 2,
        types::game_mode_id(GameMode::Spectator) == 3,
        types::parse_difficulty(small) matches Ok(d) ==> (d is Peaceful <==> small == 0) && (
        d is Easy <==> small == 1) && (d is Normal <==> small == 2) && (d is Hard <==> small
            == 3),
        types::parse_difficulty(small) is Ok <==> small <= 3,
        types::difficulty_id(Difficulty::Peaceful) == 0,
        types::difficulty_id(Difficulty::Easy) == 1,
        types::difficulty_id(Difficulty::Normal) == 2,
        types::difficulty_id(Difficulty::Hard) == 3,
        config::parse_chat_mode(n) matches Ok(mode) ==> (mode is Enabled <==> n == 0) && (
        mode is CommandsOnly <==> n == 1) && (mode is Hidden <==> n == 2),
        config::parse_chat_mode(n) is Ok <==> 0 <= n <= 2,
        config::chat_mode_id(config::ChatMode::Enabled) == 0,
        config::chat_mode_id(config::ChatMode::CommandsOnly) == 1,
        config::chat_mode_id(config::ChatMode::Hidden) == 2,
        handshake::parse_next_state(n) matches Ok(next) ==> (next is Status <==> n == 1) && (
        next is Login <==> n == 2) && (next is Transfer <==> n == 3),
        handshake::parse_next_state(n) is Ok <==> 1 <= n <= 3,
        handshake::next_state_id(handshake::NextState::Status) == 1,
        handshake::next_state_id(handshake::NextState::Login) == 2,
        handshake::next_state_id(handshake::NextState::Transfer) == 3,
{
}

} // verus!
