//! Play state.
//!
//! # Provisional
//!
//! Play packet ids and field layouts change between releases more than any
//! other part of the protocol, and they cannot be derived from the wire format:
//! they come from the version's own packet report. The definitions here carry
//! forward from the preceding release line; see [`ids::play`].

use vstd::prelude::*;

use crate::protocol::error::{ProtocolError, Result};
use crate::protocol::nbt;
use crate::protocol::packets::config;
use crate::protocol::packets::{ids, ClientboundPacket, ServerboundPacket};
use crate::protocol::reader::{PacketReader, Parse, DEFAULT_MAX_STRING_LEN};
use crate::protocol::reader;
use crate::protocol::text::Component;
use crate::protocol::text;
use crate::protocol::types::{BlockPos, ChunkPos, Float32, Float64, GameMode};
use crate::protocol::types;
use crate::protocol::varint;
use crate::protocol::wire;
use crate::protocol::writer::PacketWrite;
use crate::protocol::writer;

verus! {

pub const MAX_COMMAND_LEN: usize = 256;

pub const MAX_DIMENSIONS: usize = 1024;

/// Join game: everything the client needs to start rendering.
#[derive(Debug, Clone, PartialEq)]
pub struct Login {
    pub entity_id: i32,
    pub hardcore: bool,
    pub dimension_names: Vec<String>,
    pub max_players: i32,
    pub view_distance: i32,
    pub simulation_distance: i32,
    pub reduced_debug_info: bool,
    pub enable_respawn_screen: bool,
    pub do_limited_crafting: bool,
    /// Index into the `minecraft:dimension_type` registry sent in configuration.
    pub dimension_type: i32,
    pub dimension_name: String,
    pub hashed_seed: i64,
    pub game_mode: GameMode,
    /// `-1` when there is no previous mode.
    pub previous_game_mode: i8,
    pub is_debug: bool,
    pub is_flat: bool,
    pub death_location: Option<(String, BlockPos)>,
    pub portal_cooldown: i32,
    pub sea_level: i32,
    pub enforces_secure_chat: bool,
}

/// Who joins, and the dimensions there are.
pub struct LoginStart {
    pub entity_id: i32,
    pub hardcore: bool,
    pub dimension_names: Seq<Seq<char>>,
}

/// The limits and rules of the server.
pub struct LoginRules {
    pub max_players: i32,
    pub view_distance: i32,
    pub simulation_distance: i32,
    pub reduced_debug_info: bool,
    pub enable_respawn_screen: bool,
    pub do_limited_crafting: bool,
    pub dimension_type: i32,
}

/// The dimension that the player joins, and the mode that they join it in.
pub struct LoginWorld {
    pub dimension_name: Seq<char>,
    pub hashed_seed: i64,
    pub game_mode: GameMode,
    pub previous_game_mode: i8,
    pub is_debug: bool,
    pub is_flat: bool,
}

/// Where the player died, and the settings at the end of the packet.
pub struct LoginEnd {
    pub death_location: Option<(Seq<char>, BlockPos)>,
    pub portal_cooldown: i32,
    pub sea_level: i32,
    pub enforces_secure_chat: bool,
}

/// What a [`Login`] holds, in the order of the wire.
pub struct LoginFields {
    pub start: LoginStart,
    pub rules: LoginRules,
    pub world: LoginWorld,
    pub end: LoginEnd,
}

impl View for Login {
    type V = LoginFields;

    open spec fn view(&self) -> LoginFields {
        LoginFields {
            start: LoginStart {
                entity_id: self.entity_id,
                hardcore: self.hardcore,
                dimension_names: names(self.dimension_names@),
            },
            rules: LoginRules {
                max_players: self.max_players,
                view_distance: self.view_distance,
                simulation_distance: self.simulation_distance,
                reduced_debug_info: self.reduced_debug_info,
                enable_respawn_screen: self.enable_respawn_screen,
                do_limited_crafting: self.do_limited_crafting,
                dimension_type: self.dimension_type,
            },
            world: LoginWorld {
                dimension_name: self.dimension_name@,
                hashed_seed: self.hashed_seed,
                game_mode: self.game_mode,
                previous_game_mode: self.previous_game_mode,
                is_debug: self.is_debug,
                is_flat: self.is_flat,
            },
            end: LoginEnd {
                death_location: location(self.death_location),
                portal_cooldown: self.portal_cooldown,
                sea_level: self.sea_level,
                enforces_secure_chat: self.enforces_secure_chat,
            },
        }
    }
}

/// The characters of each of some strings.
pub open spec fn names(strings: Seq<String>) -> Seq<Seq<char>> {
    Seq::new(strings.len(), |i: int| strings[i]@)
}

/// A place in a dimension.
pub open spec fn location(place: Option<(String, BlockPos)>) -> Option<(Seq<char>, BlockPos)> {
    match place {
        Some((dimension, pos)) => Some((dimension@, pos)),
        None => None,
    }
}

pub open spec fn start_bytes(f: LoginStart) -> Seq<u8> {
    wire::be32(f.entity_id as u32) + seq![writer::bool_byte(f.hardcore)] + (varint::varint_bytes(
        f.dimension_names.len() as i32,
    ) + writer::concat_bytes(f.dimension_names, |name: Seq<char>| writer::string_bytes(name)))
}

pub open spec fn rules_bytes(f: LoginRules) -> Seq<u8> {
    varint::varint_bytes(f.max_players) + varint::varint_bytes(f.view_distance)
        + varint::varint_bytes(
        f.simulation_distance,
    ) + seq![writer::bool_byte(f.reduced_debug_info)]
        + seq![writer::bool_byte(f.enable_respawn_screen)]
        + seq![writer::bool_byte(f.do_limited_crafting)] + varint::varint_bytes(f.dimension_type)
}

pub open spec fn world_bytes(f: LoginWorld) -> Seq<u8> {
    writer::string_bytes(f.dimension_name) + wire::be64(f.hashed_seed as u64)
        + seq![types::game_mode_id(f.game_mode)]
        + seq![f.previous_game_mode as u8] + seq![writer::bool_byte(f.is_debug)]
        + seq![writer::bool_byte(f.is_flat)]
}

pub open spec fn location_bytes(place: Option<(Seq<char>, BlockPos)>) -> Seq<u8> {
    match place {
        Some((dimension, pos)) => seq![1u8] + writer::string_bytes(dimension) + wire::be64(
            types::packed_block_pos(pos) as u64,
        ),
        None => seq![0u8],
    }
}

pub open spec fn end_bytes(f: LoginEnd) -> Seq<u8> {
    location_bytes(f.death_location) + varint::varint_bytes(f.portal_cooldown)
        + varint::varint_bytes(f.sea_level)
        + seq![writer::bool_byte(f.enforces_secure_chat)]
}

/// The body of a [`Login`].
pub open spec fn login_bytes(f: LoginFields) -> Seq<u8> {
    start_bytes(f.start) + rules_bytes(f.rules) + world_bytes(f.world) + end_bytes(f.end)
}

#[verifier::opaque]
pub open spec fn parse_start(s: Seq<u8>) -> Parse<LoginStart> {
    match reader::parse_i32(s) {
        (Err(e), t) => (Err(e), t),
        (Ok(entity_id), t) => match reader::parse_bool(t) {
            (Err(e), t) => (Err(e), t),
            (Ok(hardcore), t) => match reader::parse_array(
                t,
                MAX_DIMENSIONS,
                |u: Seq<u8>| reader::parse_identifier(u),
            ) {
                (Err(e), t) => (Err(e), t),
                (Ok(dimension_names), t) => (
                    Ok(LoginStart { entity_id, hardcore, dimension_names }),
                    t,
                ),
            },
        },
    }
}

#[verifier::opaque]
pub open spec fn parse_rules(s: Seq<u8>) -> Parse<LoginRules> {
    match reader::take_varint(s) {
        (Err(e), t) => (Err(e), t),
        (Ok(max_players), t) => match reader::take_varint(t) {
            (Err(e), t) => (Err(e), t),
            (Ok(view_distance), t) => match reader::take_varint(t) {
                (Err(e), t) => (Err(e), t),
                (Ok(simulation_distance), t) => match reader::parse_bool(t) {
                    (Err(e), t) => (Err(e), t),
                    (Ok(reduced_debug_info), t) => match reader::parse_bool(t) {
                        (Err(e), t) => (Err(e), t),
                        (Ok(enable_respawn_screen), t) => match reader::parse_bool(t) {
                            (Err(e), t) => (Err(e), t),
                            (Ok(do_limited_crafting), t) => match reader::take_varint(t) {
                                (Err(e), t) => (Err(e), t),
                                (Ok(dimension_type), t) => (
                                    Ok(
                                        LoginRules {
                                            max_players,
                                            view_distance,
                                            simulation_distance,
                                            reduced_debug_info,
                                            enable_respawn_screen,
                                            do_limited_crafting,
                                            dimension_type,
                                        },
                                    ),
                                    t,
                                ),
                            },
                        },
                    },
                },
            },
        },
    }
}

#[verifier::opaque]
pub open spec fn parse_world(s: Seq<u8>) -> Parse<LoginWorld> {
    match reader::parse_identifier(s) {
        (Err(e), t) => (Err(e), t),
        (Ok(dimension_name), t) => match reader::parse_i64(t) {
            (Err(e), t) => (Err(e), t),
            (Ok(hashed_seed), t) => match reader::parse_u8(t) {
                (Err(e), t) => (Err(e), t),
                (Ok(mode), t) => match types::parse_game_mode(mode as i32) {
                    Err(e) => (Err(e), t),
                    Ok(game_mode) => match reader::parse_i8(t) {
                        (Err(e), t) => (Err(e), t),
                        (Ok(previous_game_mode), t) => match reader::parse_bool(t) {
                            (Err(e), t) => (Err(e), t),
                            (Ok(is_debug), t) => match reader::parse_bool(t) {
                                (Err(e), t) => (Err(e), t),
                                (Ok(is_flat), t) => (
                                    Ok(
                                        LoginWorld {
                                            dimension_name,
                                            hashed_seed,
                                            game_mode,
                                            previous_game_mode,
                                            is_debug,
                                            is_flat,
                                        },
                                    ),
                                    t,
                                ),
                            },
                        },
                    },
                },
            },
        },
    }
}

#[verifier::opaque]
pub open spec fn parse_location(s: Seq<u8>) -> Parse<Option<(Seq<char>, BlockPos)>> {
    match reader::parse_bool(s) {
        (Err(e), t) => (Err(e), t),
        (Ok(false), t) => (Ok(None), t),
        (Ok(true), t) => match reader::parse_identifier(t) {
            (Err(e), t) => (Err(e), t),
            (Ok(dimension), t) => match reader::parse_position(t) {
                (Err(e), t) => (Err(e), t),
                (Ok(pos), t) => (Ok(Some((dimension, pos))), t),
            },
        },
    }
}

#[verifier::opaque]
pub open spec fn parse_end(s: Seq<u8>) -> Parse<LoginEnd> {
    match parse_location(s) {
        (Err(e), t) => (Err(e), t),
        (Ok(death_location), t) => match reader::take_varint(t) {
            (Err(e), t) => (Err(e), t),
            (Ok(portal_cooldown), t) => match reader::take_varint(t) {
                (Err(e), t) => (Err(e), t),
                (Ok(sea_level), t) => match reader::parse_bool(t) {
                    (Err(e), t) => (Err(e), t),
                    (Ok(enforces_secure_chat), t) => (
                        Ok(
                            LoginEnd {
                                death_location,
                                portal_cooldown,
                                sea_level,
                                enforces_secure_chat,
                            },
                        ),
                        t,
                    ),
                },
            },
        },
    }
}

/// The [`Login`] at the front of `s`.
pub open spec fn parse_login(s: Seq<u8>) -> Parse<LoginFields> {
    match parse_start(s) {
        (Err(e), t) => (Err(e), t),
        (Ok(start), t) => match parse_rules(t) {
            (Err(e), t) => (Err(e), t),
            (Ok(rules), t) => match parse_world(t) {
                (Err(e), t) => (Err(e), t),
                (Ok(world), t) => match parse_end(t) {
                    (Err(e), t) => (Err(e), t),
                    (Ok(end), t) => (Ok(LoginFields { start, rules, world, end }), t),
                },
            },
        },
    }
}

impl Login {
    fn encode_start(&self, out: &mut Vec<u8>)
        ensures
            final(out)@ == old(out)@ + start_bytes(self@.start),
    {
        out.write_i32(self.entity_id);
        out.write_bool(self.hardcore);
        out.write_varint(self.dimension_names.len() as i32);
        let ghost head = out@;
        let ghost all = names(self.dimension_names@);
        let ghost encoding = |name: Seq<char>| writer::string_bytes(name);
        let mut i: usize = 0;
        assert(head + writer::concat_bytes(all.take(0), encoding) =~= head);
        while i < self.dimension_names.len()
            invariant
                i <= self.dimension_names@.len(),
                all == names(self.dimension_names@),
                encoding == |name: Seq<char>| writer::string_bytes(name),
                out@ == head + writer::concat_bytes(all.take(i as int), encoding),
            decreases self.dimension_names@.len() - i,
        {
            out.write_identifier(self.dimension_names[i].as_str());
            assert(all.take(i + 1).drop_last() =~= all.take(i as int));
            assert(out@ =~= head + writer::concat_bytes(all.take(i + 1), encoding));
            i += 1;
        }
        assert(all.take(i as int) =~= all);
        assert(out@ =~= old(out)@ + start_bytes(self@.start));
    }

    fn encode_rules(&self, out: &mut Vec<u8>)
        ensures
            final(out)@ == old(out)@ + rules_bytes(self@.rules),
    {
        out.write_varint(self.max_players);
        out.write_varint(self.view_distance);
        out.write_varint(self.simulation_distance);
        assert(out@ =~= old(out)@ + (varint::varint_bytes(self.max_players) + varint::varint_bytes(
            self.view_distance,
        ) + varint::varint_bytes(self.simulation_distance)));
        out.write_bool(self.reduced_debug_info);
        out.write_bool(self.enable_respawn_screen);
        out.write_bool(self.do_limited_crafting);
        out.write_varint(self.dimension_type);
        assert(out@ =~= old(out)@ + rules_bytes(self@.rules));
    }

    fn encode_world(&self, out: &mut Vec<u8>)
        ensures
            final(out)@ == old(out)@ + world_bytes(self@.world),
    {
        out.write_identifier(self.dimension_name.as_str());
        out.write_i64(self.hashed_seed);
        out.write_u8(self.game_mode.id());
        out.write_i8(self.previous_game_mode);
        out.write_bool(self.is_debug);
        out.write_bool(self.is_flat);
        assert(out@ =~= old(out)@ + world_bytes(self@.world));
    }

    fn encode_end(&self, out: &mut Vec<u8>)
        ensures
            final(out)@ == old(out)@ + end_bytes(self@.end),
    {
        match &self.death_location {
            Some((dimension, pos)) => {
                out.write_bool(true);
                out.write_identifier(dimension.as_str());
                out.write_position(*pos);
            },
            None => out.write_bool(false),
        }
        assert(out@ =~= old(out)@ + location_bytes(self@.end.death_location));
        out.write_varint(self.portal_cooldown);
        out.write_varint(self.sea_level);
        out.write_bool(self.enforces_secure_chat);
        assert(out@ =~= old(out)@ + end_bytes(self@.end));
    }
}

impl ClientboundPacket for Login {
    const ID: i32 = ids::play::clientbound::LOGIN;

    const NAME: &'static str = "Login";

    open spec fn packet_id() -> i32 {
        ids::play::clientbound::LOGIN
    }

    proof fn lemma_id() {
    }

    open spec fn body(&self) -> Seq<u8> {
        login_bytes(self@)
    }

    fn encode_body(&self, out: &mut Vec<u8>) {
        self.encode_start(out);
        self.encode_rules(out);
        self.encode_world(out);
        self.encode_end(out);
        assert(out@ =~= old(out)@ + login_bytes(self@));
    }
}

fn read_names(r: &mut PacketReader<'_>) -> (read: Result<Vec<String>>)
    ensures
        final(r).input() == old(r).input(),
        (match read {
            Ok(v) => Ok::<Seq<Seq<char>>, ProtocolError>(names(v@)),
            Err(e) => Err(e),
        }, final(r).rest()) == reader::parse_array(
            old(r).rest(),
            MAX_DIMENSIONS,
            |u: Seq<u8>| reader::parse_identifier(u),
        ),
{
    let ghost item = |u: Seq<u8>| reader::parse_identifier(u);
    let ghost start = r.rest();
    let read = reader::read_list(r, MAX_DIMENSIONS, PacketReader::read_identifier);
    assert(forall|s: &mut PacketReader<'_>, one: Result<String>| #[trigger]
        call_ensures(PacketReader::read_identifier, (s,), one) ==> reader::reads(
            *s,
            *final(s),
            reader::viewed(one),
            item(s.rest()),
        ));
    assert(reader::parse_array(start, MAX_DIMENSIONS, item).1 == r.rest());
    let read = read?;
    assert(names(read@) =~= reader::views(read@));
    Ok(read)
}

fn read_rules(r: &mut PacketReader<'_>) -> (read: Result<LoginRules>)
    ensures
        final(r).input() == old(r).input(),
        (read, final(r).rest()) == parse_rules(old(r).rest()),
{
    proof {
        reveal(parse_rules);
    }
    let max_players: i32 = r.read_varint()?;
    let view_distance: i32 = r.read_varint()?;
    let simulation_distance: i32 = r.read_varint()?;
    let reduced_debug_info: bool = r.read_bool()?;
    let enable_respawn_screen: bool = r.read_bool()?;
    let do_limited_crafting: bool = r.read_bool()?;
    let dimension_type: i32 = r.read_varint()?;
    Ok(
        LoginRules {
            max_players,
            view_distance,
            simulation_distance,
            reduced_debug_info,
            enable_respawn_screen,
            do_limited_crafting,
            dimension_type,
        },
    )
}

fn read_world(r: &mut PacketReader<'_>) -> (read: Result<
    (String, i64, GameMode, i8, bool, bool),
>)
    ensures
        final(r).input() == old(r).input(),
        (match read {
            Ok(v) => Ok::<LoginWorld, ProtocolError>(
                LoginWorld {
                    dimension_name: v.0@,
                    hashed_seed: v.1,
                    game_mode: v.2,
                    previous_game_mode: v.3,
                    is_debug: v.4,
                    is_flat: v.5,
                },
            ),
            Err(e) => Err(e),
        }, final(r).rest()) == parse_world(old(r).rest()),
{
    proof {
        reveal(parse_world);
    }
    let dimension_name = r.read_identifier()?;
    let hashed_seed: i64 = r.read_i64()?;
    let mode: u8 = r.read_u8()?;
    let game_mode = GameMode::from_id(mode as i32)?;
    let previous_game_mode: i8 = r.read_i8()?;
    let is_debug: bool = r.read_bool()?;
    let is_flat: bool = r.read_bool()?;
    Ok((dimension_name, hashed_seed, game_mode, previous_game_mode, is_debug, is_flat))
}

fn read_location(r: &mut PacketReader<'_>) -> (read: Result<Option<(String, BlockPos)>>)
    ensures
        final(r).input() == old(r).input(),
        (match read {
            Ok(v) => Ok::<Option<(Seq<char>, BlockPos)>, ProtocolError>(location(v)),
            Err(e) => Err(e),
        }, final(r).rest()) == parse_location(old(r).rest()),
{
    proof {
        reveal(parse_location);
    }
    let present: bool = r.read_bool()?;
    if present {
        let dimension = r.read_identifier()?;
        let pos = r.read_position()?;
        Ok(Some((dimension, pos)))
    } else {
        Ok(None)
    }
}

impl Login {
    /// Decoding exists for proxy use.
    pub fn decode_body(r: &mut PacketReader<'_>) -> (read: Result<Self>)
        ensures
            final(r).input() == old(r).input(),
            (match read {
                Ok(packet) => Ok::<LoginFields, ProtocolError>(packet@),
                Err(e) => Err(e),
            }, final(r).rest()) == parse_login(old(r).rest()),
    {
        proof {
            reveal(parse_start);
            reveal(parse_end);
        }
        let entity_id: i32 = r.read_i32()?;
        let hardcore: bool = r.read_bool()?;
        let dimension_names = read_names(r)?;
        let rules = read_rules(r)?;
        let (dimension_name, hashed_seed, game_mode, previous_game_mode, is_debug, is_flat) =
            read_world(r)?;
        let death_location = read_location(r)?;
        let portal_cooldown: i32 = r.read_varint()?;
        let sea_level: i32 = r.read_varint()?;
        let enforces_secure_chat: bool = r.read_bool()?;
        Ok(
            Login {
                entity_id,
                hardcore,
                dimension_names,
                max_players: rules.max_players,
                view_distance: rules.view_distance,
                simulation_distance: rules.simulation_distance,
                reduced_debug_info: rules.reduced_debug_info,
                enable_respawn_screen: rules.enable_respawn_screen,
                do_limited_crafting: rules.do_limited_crafting,
                dimension_type: rules.dimension_type,
                dimension_name,
                hashed_seed,
                game_mode,
                previous_game_mode,
                is_debug,
                is_flat,
                death_location,
                portal_cooldown,
                sea_level,
                enforces_secure_chat,
            },
        )
    }
}

/// The names of a login are within their limits, and so is the place of death.
pub open spec fn login_fits(f: LoginFields) -> bool {
    &&& f.start.dimension_names.len() <= MAX_DIMENSIONS
    &&& forall|i: int|
        0 <= i < f.start.dimension_names.len() ==> config::text_fits(
            #[trigger] f.start.dimension_names[i],
        )
    &&& config::text_fits(f.world.dimension_name)
    &&& f.end.death_location matches Some((dimension, pos)) ==> {
        &&& config::text_fits(dimension)
        &&& -0x200_0000 <= pos.x < 0x200_0000
        &&& -0x800 <= pos.y < 0x800
        &&& -0x200_0000 <= pos.z < 0x200_0000
    }
}

/// A login whose names and place of death are within their limits is read back
/// as it was written.
pub proof fn law_login_round_trip(f: LoginFields, tail: Seq<u8>)
    requires
        login_fits(f),
    ensures
        parse_login(login_bytes(f) + tail) == (Ok::<LoginFields, ProtocolError>(f), tail),
{
    let end = end_bytes(f.end) + tail;
    let world = world_bytes(f.world) + end;
    let rules = rules_bytes(f.rules) + world;
    lemma_start_round_trip(f.start, rules);
    lemma_rules_round_trip(f.rules, world);
    lemma_world_round_trip(f.world, end);
    lemma_end_round_trip(f.end, tail);
    assert(login_bytes(f) + tail =~= start_bytes(f.start) + rules);
}

#[verifier::spinoff_prover]
#[verifier::rlimit(40)]
proof fn lemma_start_round_trip(f: LoginStart, tail: Seq<u8>)
    requires
        f.dimension_names.len() <= MAX_DIMENSIONS,
        forall|i: int|
            0 <= i < f.dimension_names.len() ==> config::text_fits(#[trigger] f.dimension_names[i]),
    ensures
        parse_start(start_bytes(f) + tail) == (Ok::<LoginStart, ProtocolError>(f), tail),
{
    reveal(parse_start);
    let all = f.dimension_names;
    let encoding = |name: Seq<char>| writer::string_bytes(name);
    let item = |u: Seq<u8>| reader::parse_identifier(u);
    assert forall|i: int, rest: Seq<u8>| 0 <= i < all.len() implies #[trigger] item(
        encoding(all[i]) + rest,
    ) == (Ok::<Seq<char>, ProtocolError>(all[i]), rest) by {
        assert(config::text_fits(all[i]));
        reader::law_string_round_trip(all[i], DEFAULT_MAX_STRING_LEN, rest);
    }
    reader::law_array_round_trip(all, MAX_DIMENSIONS, encoding, item, tail);
    let list = varint::varint_bytes(all.len() as i32) + writer::concat_bytes(all, encoding) + tail;
    reader::lemma_reads_bool(f.hardcore, list);
    reader::lemma_reads_i32(f.entity_id, seq![writer::bool_byte(f.hardcore)] + list);
    assert(start_bytes(f) + tail =~= wire::be32(f.entity_id as u32)
        + (seq![writer::bool_byte(f.hardcore)]
        + list));
}

#[verifier::spinoff_prover]
#[verifier::rlimit(40)]
proof fn lemma_rules_round_trip(f: LoginRules, tail: Seq<u8>)
    ensures
        parse_rules(rules_bytes(f) + tail) == (Ok::<LoginRules, ProtocolError>(f), tail),
{
    reveal(parse_rules);
    let a = varint::varint_bytes(f.dimension_type) + tail;
    let b = seq![writer::bool_byte(f.do_limited_crafting)] + a;
    let c = seq![writer::bool_byte(f.enable_respawn_screen)] + b;
    let d = seq![writer::bool_byte(f.reduced_debug_info)] + c;
    let e = varint::varint_bytes(f.simulation_distance) + d;
    let g = varint::varint_bytes(f.view_distance) + e;
    reader::lemma_reads_varint(f.dimension_type, tail);
    reader::lemma_reads_bool(f.do_limited_crafting, a);
    reader::lemma_reads_bool(f.enable_respawn_screen, b);
    reader::lemma_reads_bool(f.reduced_debug_info, c);
    reader::lemma_reads_varint(f.simulation_distance, d);
    reader::lemma_reads_varint(f.view_distance, e);
    reader::lemma_reads_varint(f.max_players, g);
    lemma_regroup_eight(
        varint::varint_bytes(f.max_players),
        varint::varint_bytes(f.view_distance),
        varint::varint_bytes(f.simulation_distance),
        seq![writer::bool_byte(f.reduced_debug_info)],
        seq![writer::bool_byte(f.enable_respawn_screen)],
        seq![writer::bool_byte(f.do_limited_crafting)],
        varint::varint_bytes(f.dimension_type),
        tail,
    );
}

#[verifier::spinoff_prover]
#[verifier::rlimit(40)]
proof fn lemma_world_round_trip(f: LoginWorld, tail: Seq<u8>)
    requires
        config::text_fits(f.dimension_name),
    ensures
        parse_world(world_bytes(f) + tail) == (Ok::<LoginWorld, ProtocolError>(f), tail),
{
    reveal(parse_world);
    let a = seq![writer::bool_byte(f.is_flat)] + tail;
    let b = seq![writer::bool_byte(f.is_debug)] + a;
    let c = seq![f.previous_game_mode as u8] + b;
    let d = seq![types::game_mode_id(f.game_mode)] + c;
    let e = wire::be64(f.hashed_seed as u64) + d;
    reader::lemma_reads_bool(f.is_flat, tail);
    reader::lemma_reads_bool(f.is_debug, a);
    reader::lemma_reads_i8(f.previous_game_mode, b);
    reader::lemma_reads_u8(types::game_mode_id(f.game_mode), c);
    reader::lemma_reads_i64(f.hashed_seed, d);
    reader::law_string_round_trip(f.dimension_name, DEFAULT_MAX_STRING_LEN, e);
    lemma_regroup_seven(
        writer::string_bytes(f.dimension_name),
        wire::be64(f.hashed_seed as u64),
        seq![types::game_mode_id(f.game_mode)],
        seq![f.previous_game_mode as u8],
        seq![writer::bool_byte(f.is_debug)],
        seq![writer::bool_byte(f.is_flat)],
        tail,
    );
}

#[verifier::spinoff_prover]
#[verifier::rlimit(40)]
proof fn lemma_end_round_trip(f: LoginEnd, tail: Seq<u8>)
    requires
        f.death_location matches Some((dimension, pos)) ==> {
            &&& config::text_fits(dimension)
            &&& -0x200_0000 <= pos.x < 0x200_0000
            &&& -0x800 <= pos.y < 0x800
            &&& -0x200_0000 <= pos.z < 0x200_0000
        },
    ensures
        parse_end(end_bytes(f) + tail) == (Ok::<LoginEnd, ProtocolError>(f), tail),
{
    reveal(parse_end);
    let a = seq![writer::bool_byte(f.enforces_secure_chat)] + tail;
    let b = varint::varint_bytes(f.sea_level) + a;
    let c = varint::varint_bytes(f.portal_cooldown) + b;
    reader::lemma_reads_bool(f.enforces_secure_chat, tail);
    reader::lemma_reads_varint(f.sea_level, a);
    reader::lemma_reads_varint(f.portal_cooldown, b);
    lemma_location_round_trip(f.death_location, c);
    assert(end_bytes(f) + tail =~= location_bytes(f.death_location) + c);
}

#[verifier::spinoff_prover]
#[verifier::rlimit(40)]
proof fn lemma_location_round_trip(place: Option<(Seq<char>, BlockPos)>, tail: Seq<u8>)
    requires
        place matches Some((dimension, pos)) ==> {
            &&& config::text_fits(dimension)
            &&& -0x200_0000 <= pos.x < 0x200_0000
            &&& -0x800 <= pos.y < 0x800
            &&& -0x200_0000 <= pos.z < 0x200_0000
        },
    ensures
        parse_location(location_bytes(place) + tail) == (
            Ok::<Option<(Seq<char>, BlockPos)>, ProtocolError>(place),
            tail,
        ),
{
    reveal(parse_location);
    match place {
        Some((dimension, pos)) => {
            let packed = wire::be64(types::packed_block_pos(pos) as u64) + tail;
            let named = writer::string_bytes(dimension) + packed;
            reader::law_position_round_trip(pos, ChunkPos { x: 0, z: 0 }, tail);
            reader::law_string_round_trip(dimension, DEFAULT_MAX_STRING_LEN, packed);
            reader::lemma_reads_bool(true, named);
            assert(location_bytes(place) + tail =~= seq![1u8] + named);
        },
        None => reader::lemma_reads_bool(false, tail),
    }
}

/// Liveness probe.
#[derive(Debug, Clone, Copy, PartialEq, Eq, Structural)]
pub struct KeepAlive {
    pub id: i64,
}

impl ClientboundPacket for KeepAlive {
    const ID: i32 = ids::play::clientbound::KEEP_ALIVE;

    const NAME: &'static str = "KeepAlive";

    open spec fn packet_id() -> i32 {
        ids::play::clientbound::KEEP_ALIVE
    }

    proof fn lemma_id() {
    }

    open spec fn body(&self) -> Seq<u8> {
        wire::be64(self.id as u64)
    }

    fn encode_body(&self, out: &mut Vec<u8>) {
        out.write_i64(self.id);
    }
}

impl ServerboundPacket for KeepAlive {
    type Fields = KeepAlive;

    const ID: i32 = ids::play::serverbound::KEEP_ALIVE;

    const NAME: &'static str = "KeepAlive";

    open spec fn packet_id() -> i32 {
        ids::play::serverbound::KEEP_ALIVE
    }

    proof fn lemma_id() {
    }

    open spec fn fields(&self) -> KeepAlive {
        *self
    }

    open spec fn parse_body(s: Seq<u8>) -> Parse<KeepAlive> {
        match reader::parse_i64(s) {
            (Err(e), t) => (Err(e), t),
            (Ok(id), t) => (Ok(KeepAlive { id }), t),
        }
    }

    fn decode_body(r: &mut PacketReader<'_>) -> (read: Result<Self>) {
        let id: i64 = r.read_i64()?;
        Ok(KeepAlive { id })
    }
}

/// A keep-alive is read back as it was written.
pub proof fn law_keep_alive_round_trip(packet: KeepAlive, tail: Seq<u8>)
    ensures
        KeepAlive::parse_body(packet.body() + tail) == (
            Ok::<KeepAlive, ProtocolError>(packet),
            tail,
        ),
{
    reader::lemma_reads_i64(packet.id, tail);
}

/// Kick with a reason.
#[derive(Debug, Clone, PartialEq)]
pub struct Disconnect {
    pub reason: Component,
}

impl ClientboundPacket for Disconnect {
    const ID: i32 = ids::play::clientbound::DISCONNECT;

    const NAME: &'static str = "Disconnect";

    open spec fn packet_id() -> i32 {
        ids::play::clientbound::DISCONNECT
    }

    proof fn lemma_id() {
    }

    open spec fn body(&self) -> Seq<u8> {
        nbt::network_bytes(text::nbt_form(self.reason@))
    }

    fn encode_body(&self, out: &mut Vec<u8>) {
        let tag = self.reason.to_nbt();
        nbt::write_network(&tag, out);
    }
}

/// A server message, shown in chat or as an action-bar overlay.
#[derive(Debug, Clone, PartialEq)]
pub struct SystemChat {
    pub content: Component,
    pub overlay: bool,
}

impl ClientboundPacket for SystemChat {
    const ID: i32 = ids::play::clientbound::SYSTEM_CHAT;

    const NAME: &'static str = "SystemChat";

    open spec fn packet_id() -> i32 {
        ids::play::clientbound::SYSTEM_CHAT
    }

    proof fn lemma_id() {
    }

    open spec fn body(&self) -> Seq<u8> {
        nbt::network_bytes(text::nbt_form(self.content@)) + seq![writer::bool_byte(self.overlay)]
    }

    fn encode_body(&self, out: &mut Vec<u8>) {
        let tag = self.content.to_nbt();
        nbt::write_network(&tag, out);
        out.write_bool(self.overlay);
        assert(out@ =~= old(out)@ + self.body());
    }
}

/// Moves the centre of the client's chunk cache, so it knows which chunks to
/// keep. Must be sent before the surrounding chunk data.
#[derive(Debug, Clone, Copy, PartialEq, Eq, Structural)]
pub struct SetChunkCacheCenter {
    pub chunk_x: i32,
    pub chunk_z: i32,
}

impl ClientboundPacket for SetChunkCacheCenter {
    const ID: i32 = ids::play::clientbound::SET_CHUNK_CACHE_CENTER;

    const NAME: &'static str = "SetChunkCacheCenter";

    open spec fn packet_id() -> i32 {
        ids::play::clientbound::SET_CHUNK_CACHE_CENTER
    }

    proof fn lemma_id() {
    }

    open spec fn body(&self) -> Seq<u8> {
        varint::varint_bytes(self.chunk_x) + varint::varint_bytes(self.chunk_z)
    }

    fn encode_body(&self, out: &mut Vec<u8>) {
        out.write_varint(self.chunk_x);
        out.write_varint(self.chunk_z);
        assert(out@ =~= old(out)@ + self.body());
    }
}

/// Compass target.
#[derive(Debug, Clone, Copy, PartialEq)]
pub struct SetDefaultSpawnPosition {
    pub position: BlockPos,
    pub angle: Float32,
}

impl ClientboundPacket for SetDefaultSpawnPosition {
    const ID: i32 = ids::play::clientbound::SET_DEFAULT_SPAWN_POSITION;

    const NAME: &'static str = "SetDefaultSpawnPosition";

    open spec fn packet_id() -> i32 {
        ids::play::clientbound::SET_DEFAULT_SPAWN_POSITION
    }

    proof fn lemma_id() {
    }

    open spec fn body(&self) -> Seq<u8> {
        wire::be64(types::packed_block_pos(self.position) as u64) + wire::be32(self.angle.bits)
    }

    fn encode_body(&self, out: &mut Vec<u8>) {
        out.write_position(self.position);
        out.write_f32(self.angle);
        assert(out@ =~= old(out)@ + self.body());
    }
}

/// State changes such as "start waiting for chunks" and weather transitions.
#[derive(Debug, Clone, Copy, PartialEq)]
pub struct GameEvent {
    pub event: u8,
    pub value: Float32,
}

impl GameEvent {
    /// Tells the client to show the terrain-loading screen until chunks arrive.
    pub const START_WAITING_FOR_CHUNKS: u8 = 13;

    /// Changes the player's game mode; the value is the mode id.
    pub const CHANGE_GAME_MODE: u8 = 3;

    #[must_use]
    pub fn start_waiting_for_chunks() -> (event: Self)
        ensures
            event == (GameEvent {
                event: GameEvent::START_WAITING_FOR_CHUNKS,
                value: Float32 { bits: 0 },
            }),
    {
        GameEvent { event: GameEvent::START_WAITING_FOR_CHUNKS, value: Float32 { bits: 0 } }
    }
}

impl ClientboundPacket for GameEvent {
    const ID: i32 = ids::play::clientbound::GAME_EVENT;

    const NAME: &'static str = "GameEvent";

    open spec fn packet_id() -> i32 {
        ids::play::clientbound::GAME_EVENT
    }

    proof fn lemma_id() {
    }

    open spec fn body(&self) -> Seq<u8> {
        seq![self.event] + wire::be32(self.value.bits)
    }

    fn encode_body(&self, out: &mut Vec<u8>) {
        out.write_u8(self.event);
        out.write_f32(self.value);
        assert(out@ =~= old(out)@ + self.body());
    }
}

/// Teleports the player and resynchronises their position.
///
/// The client must echo `teleport_id` back in `AcceptTeleportation` before the
/// server accepts movement again; until then, incoming positions are stale and
/// should be dropped.
#[derive(Debug, Clone, Copy, PartialEq)]
pub struct PlayerPosition {
    pub teleport_id: i32,
    pub x: Float64,
    pub y: Float64,
    pub z: Float64,
    pub velocity_x: Float64,
    pub velocity_y: Float64,
    pub velocity_z: Float64,
    pub yaw: Float32,
    pub pitch: Float32,
    /// Bit flags marking which fields are relative rather than absolute.
    pub flags: i32,
}

/// A position at rest, each coordinate of it absolute.
pub open spec fn absolute_position(
    teleport_id: i32,
    x: Float64,
    y: Float64,
    z: Float64,
    yaw: Float32,
    pitch: Float32,
) -> PlayerPosition {
    PlayerPosition {
        teleport_id,
        x,
        y,
        z,
        velocity_x: Float64 { bits: 0 },
        velocity_y: Float64 { bits: 0 },
        velocity_z: Float64 { bits: 0 },
        yaw,
        pitch,
        flags: 0,
    }
}

impl PlayerPosition {
    /// An absolute teleport with no velocity change.
    #[must_use]
    pub fn absolute(
        teleport_id: i32,
        x: Float64,
        y: Float64,
        z: Float64,
        yaw: Float32,
        pitch: Float32,
    ) -> (packet: Self)
        ensures
            packet == (PlayerPosition {
                teleport_id,
                x,
                y,
                z,
                velocity_x: Float64 { bits: 0 },
                velocity_y: Float64 { bits: 0 },
                velocity_z: Float64 { bits: 0 },
                yaw,
                pitch,
                flags: 0,
            }),
            packet == absolute_position(teleport_id, x, y, z, yaw, pitch),
    {
        PlayerPosition {
            teleport_id,
            x,
            y,
            z,
            velocity_x: Float64 { bits: 0 },
            velocity_y: Float64 { bits: 0 },
            velocity_z: Float64 { bits: 0 },
            yaw,
            pitch,
            flags: 0,
        }
    }
}

impl ClientboundPacket for PlayerPosition {
    const ID: i32 = ids::play::clientbound::PLAYER_POSITION;

    const NAME: &'static str = "PlayerPosition";

    open spec fn packet_id() -> i32 {
        ids::play::clientbound::PLAYER_POSITION
    }

    proof fn lemma_id() {
    }

    open spec fn body(&self) -> Seq<u8> {
        varint::varint_bytes(self.teleport_id) + wire::be64(self.x.bits)
            + wire::be64(self.y.bits) + wire::be64(self.z.bits)
            + wire::be64(self.velocity_x.bits) + wire::be64(self.velocity_y.bits)
            + wire::be64(self.velocity_z.bits)
            + wire::be32(self.yaw.bits) + wire::be32(self.pitch.bits)
            + wire::be32(self.flags as u32)
    }

    fn encode_body(&self, out: &mut Vec<u8>) {
        out.write_varint(self.teleport_id);
        out.write_f64(self.x);
        out.write_f64(self.y);
        out.write_f64(self.z);
        out.write_f64(self.velocity_x);
        out.write_f64(self.velocity_y);
        out.write_f64(self.velocity_z);
        out.write_f32(self.yaw);
        out.write_f32(self.pitch);
        out.write_i32(self.flags);
        assert(out@ =~= old(out)@ + self.body());
    }
}

/// A chunk column and its lighting.
///
/// The body after the coordinates is produced by the world layer, which owns
/// the paletted encoding.
#[derive(Debug, Clone, PartialEq)]
pub struct ChunkData {
    pub chunk_x: i32,
    pub chunk_z: i32,
    /// Heightmaps, section data, block entities and light, already serialized.
    pub payload: Vec<u8>,
}

impl ClientboundPacket for ChunkData {
    const ID: i32 = ids::play::clientbound::CHUNK_DATA;

    const NAME: &'static str = "ChunkData";

    open spec fn packet_id() -> i32 {
        ids::play::clientbound::CHUNK_DATA
    }

    proof fn lemma_id() {
    }

    open spec fn body(&self) -> Seq<u8> {
        wire::be32(self.chunk_x as u32) + wire::be32(self.chunk_z as u32) + self.payload@
    }

    fn encode_body(&self, out: &mut Vec<u8>) {
        out.write_i32(self.chunk_x);
        out.write_i32(self.chunk_z);
        out.write_bytes(self.payload.as_slice());
        assert(out@ =~= old(out)@ + self.body());
    }
}

/// Confirms a teleport, quoting the id the server sent.
#[derive(Debug, Clone, Copy, PartialEq, Eq, Structural)]
pub struct AcceptTeleportation {
    pub teleport_id: i32,
}

impl ServerboundPacket for AcceptTeleportation {
    type Fields = AcceptTeleportation;

    const ID: i32 = ids::play::serverbound::ACCEPT_TELEPORTATION;

    const NAME: &'static str = "AcceptTeleportation";

    open spec fn packet_id() -> i32 {
        ids::play::serverbound::ACCEPT_TELEPORTATION
    }

    proof fn lemma_id() {
    }

    open spec fn fields(&self) -> AcceptTeleportation {
        *self
    }

    open spec fn parse_body(s: Seq<u8>) -> Parse<AcceptTeleportation> {
        match reader::take_varint(s) {
            (Err(e), t) => (Err(e), t),
            (Ok(teleport_id), t) => (Ok(AcceptTeleportation { teleport_id }), t),
        }
    }

    fn decode_body(r: &mut PacketReader<'_>) -> (read: Result<Self>) {
        let teleport_id: i32 = r.read_varint()?;
        Ok(AcceptTeleportation { teleport_id })
    }
}

/// A client that echoes the id of a teleport is understood: the id is read back
/// as it was written.
pub proof fn law_teleport_is_confirmed(teleport_id: i32, tail: Seq<u8>)
    ensures
        AcceptTeleportation::parse_body(varint::varint_bytes(teleport_id) + tail) == (
            Ok::<AcceptTeleportation, ProtocolError>(AcceptTeleportation { teleport_id }),
            tail,
        ),
{
    reader::lemma_reads_varint(teleport_id, tail);
}

/// Movement flags: bit 0 is "on ground", bit 1 is "pushing against a wall".
#[derive(Debug, Clone, Copy, PartialEq, Eq, Structural)]
pub struct MoveFlags(pub u8);

impl Default for MoveFlags {
    fn default() -> (flags: Self)
        ensures
            flags == MoveFlags(0),
    {
        MoveFlags(0)
    }
}

/// The lowest flag: the player stands on the ground.
pub open spec fn grounded(flags: MoveFlags) -> bool {
    flags.0 % 2 == 1
}

/// The next flag: the player runs into something.
pub open spec fn collided(flags: MoveFlags) -> bool {
    flags.0 / 2 % 2 == 1
}

/// The two lowest flags tell whether a player stands on the ground and runs into
/// something, each whatever the other and the rest are.
pub proof fn law_movement_flags(ground: bool, wall: bool, others: u8, flags: MoveFlags)
    requires
        flags.0 == 4 * others + (if wall {
            2int
        } else {
            0
        }) + (if ground {
            1int
        } else {
            0
        }),
    ensures
        grounded(flags) == ground,
        collided(flags) == wall,
{
}

impl MoveFlags {
    #[must_use]
    pub fn on_ground(self) -> (set: bool)
        ensures
            set == (self.0 % 2 == 1),
            set == grounded(self),
    {
        let flags: u8 = self.0;
        assert((flags & 0x01 != 0) == (flags % 2 == 1)) by (bit_vector);
        flags & 0x01 != 0
    }

    #[must_use]
    pub fn horizontal_collision(self) -> (set: bool)
        ensures
            set == (self.0 / 2 % 2 == 1),
            set == collided(self),
    {
        let flags: u8 = self.0;
        assert((flags & 0x02 != 0) == (flags / 2 % 2 == 1)) by (bit_vector);
        flags & 0x02 != 0
    }
}

/// Position-only movement.
#[derive(Debug, Clone, Copy, PartialEq)]
pub struct MovePlayerPos {
    pub x: Float64,
    pub y: Float64,
    pub z: Float64,
    pub flags: MoveFlags,
}

impl ServerboundPacket for MovePlayerPos {
    type Fields = MovePlayerPos;

    const ID: i32 = ids::play::serverbound::MOVE_PLAYER_POS;

    const NAME: &'static str = "MovePlayerPos";

    open spec fn packet_id() -> i32 {
        ids::play::serverbound::MOVE_PLAYER_POS
    }

    proof fn lemma_id() {
    }

    open spec fn fields(&self) -> MovePlayerPos {
        *self
    }

    open spec fn parse_body(s: Seq<u8>) -> Parse<MovePlayerPos> {
        match reader::parse_f64(s) {
            (Err(e), t) => (Err(e), t),
            (Ok(x), t) => match reader::parse_f64(t) {
                (Err(e), t) => (Err(e), t),
                (Ok(y), t) => match reader::parse_f64(t) {
                    (Err(e), t) => (Err(e), t),
                    (Ok(z), t) => match reader::parse_u8(t) {
                        (Err(e), t) => (Err(e), t),
                        (Ok(bits), t) => (
                            Ok(MovePlayerPos { x, y, z, flags: MoveFlags(bits) }),
                            t,
                        ),
                    },
                },
            },
        }
    }

    fn decode_body(r: &mut PacketReader<'_>) -> (read: Result<Self>) {
        let x = r.read_f64()?;
        let y = r.read_f64()?;
        let z = r.read_f64()?;
        let bits: u8 = r.read_u8()?;
        Ok(MovePlayerPos { x, y, z, flags: MoveFlags(bits) })
    }
}

/// Position and rotation.
#[derive(Debug, Clone, Copy, PartialEq)]
pub struct MovePlayerPosRot {
    pub x: Float64,
    pub y: Float64,
    pub z: Float64,
    pub yaw: Float32,
    pub pitch: Float32,
    pub flags: MoveFlags,
}

impl ServerboundPacket for MovePlayerPosRot {
    type Fields = MovePlayerPosRot;

    const ID: i32 = ids::play::serverbound::MOVE_PLAYER_POS_ROT;

    const NAME: &'static str = "MovePlayerPosRot";

    open spec fn packet_id() -> i32 {
        ids::play::serverbound::MOVE_PLAYER_POS_ROT
    }

    proof fn lemma_id() {
    }

    open spec fn fields(&self) -> MovePlayerPosRot {
        *self
    }

    open spec fn parse_body(s: Seq<u8>) -> Parse<MovePlayerPosRot> {
        match reader::parse_f64(s) {
            (Err(e), t) => (Err(e), t),
            (Ok(x), t) => match reader::parse_f64(t) {
                (Err(e), t) => (Err(e), t),
                (Ok(y), t) => match reader::parse_f64(t) {
                    (Err(e), t) => (Err(e), t),
                    (Ok(z), t) => match reader::parse_f32(t) {
                        (Err(e), t) => (Err(e), t),
                        (Ok(yaw), t) => match reader::parse_f32(t) {
                            (Err(e), t) => (Err(e), t),
                            (Ok(pitch), t) => match reader::parse_u8(t) {
                                (Err(e), t) => (Err(e), t),
                                (Ok(bits), t) => (
                                    Ok(
                                        MovePlayerPosRot {
                                            x,
                                            y,
                                            z,
                                            yaw,
                                            pitch,
                                            flags: MoveFlags(bits),
                                        },
                                    ),
                                    t,
                                ),
                            },
                        },
                    },
                },
            },
        }
    }

    fn decode_body(r: &mut PacketReader<'_>) -> (read: Result<Self>) {
        let x = r.read_f64()?;
        let y = r.read_f64()?;
        let z = r.read_f64()?;
        let yaw = r.read_f32()?;
        let pitch = r.read_f32()?;
        let bits: u8 = r.read_u8()?;
        Ok(MovePlayerPosRot { x, y, z, yaw, pitch, flags: MoveFlags(bits) })
    }
}

/// Rotation only.
#[derive(Debug, Clone, Copy, PartialEq)]
pub struct MovePlayerRot {
    pub yaw: Float32,
    pub pitch: Float32,
    pub flags: MoveFlags,
}

impl ServerboundPacket for MovePlayerRot {
    type Fields = MovePlayerRot;

    const ID: i32 = ids::play::serverbound::MOVE_PLAYER_ROT;

    const NAME: &'static str = "MovePlayerRot";

    open spec fn packet_id() -> i32 {
        ids::play::serverbound::MOVE_PLAYER_ROT
    }

    proof fn lemma_id() {
    }

    open spec fn fields(&self) -> MovePlayerRot {
        *self
    }

    open spec fn parse_body(s: Seq<u8>) -> Parse<MovePlayerRot> {
        match reader::parse_f32(s) {
            (Err(e), t) => (Err(e), t),
            (Ok(yaw), t) => match reader::parse_f32(t) {
                (Err(e), t) => (Err(e), t),
                (Ok(pitch), t) => match reader::parse_u8(t) {
                    (Err(e), t) => (Err(e), t),
                    (Ok(bits), t) => (
                        Ok(MovePlayerRot { yaw, pitch, flags: MoveFlags(bits) }),
                        t,
                    ),
                },
            },
        }
    }

    fn decode_body(r: &mut PacketReader<'_>) -> (read: Result<Self>) {
        let yaw = r.read_f32()?;
        let pitch = r.read_f32()?;
        let bits: u8 = r.read_u8()?;
        Ok(MovePlayerRot { yaw, pitch, flags: MoveFlags(bits) })
    }
}

/// Neither position nor rotation changed, only the ground flags.
#[derive(Debug, Clone, Copy, PartialEq, Eq, Structural)]
pub struct MovePlayerStatusOnly {
    pub flags: MoveFlags,
}

impl ServerboundPacket for MovePlayerStatusOnly {
    type Fields = MovePlayerStatusOnly;

    const ID: i32 = ids::play::serverbound::MOVE_PLAYER_STATUS_ONLY;

    const NAME: &'static str = "MovePlayerStatusOnly";

    open spec fn packet_id() -> i32 {
        ids::play::serverbound::MOVE_PLAYER_STATUS_ONLY
    }

    proof fn lemma_id() {
    }

    open spec fn fields(&self) -> MovePlayerStatusOnly {
        *self
    }

    open spec fn parse_body(s: Seq<u8>) -> Parse<MovePlayerStatusOnly> {
        match reader::parse_u8(s) {
            (Err(e), t) => (Err(e), t),
            (Ok(bits), t) => (Ok(MovePlayerStatusOnly { flags: MoveFlags(bits) }), t),
        }
    }

    fn decode_body(r: &mut PacketReader<'_>) -> (read: Result<Self>) {
        let bits: u8 = r.read_u8()?;
        Ok(MovePlayerStatusOnly { flags: MoveFlags(bits) })
    }
}

/// A movement that a client writes is read back as it was written, with every
/// bit of its numbers.
pub proof fn law_movement_reads(packet: MovePlayerPosRot, tail: Seq<u8>)
    ensures
        MovePlayerPosRot::parse_body(
            wire::be64(packet.x.bits) + wire::be64(packet.y.bits) + wire::be64(packet.z.bits)
                + wire::be32(packet.yaw.bits)
                + wire::be32(packet.pitch.bits) + seq![packet.flags.0] + tail,
        ) == (Ok::<MovePlayerPosRot, ProtocolError>(packet), tail),
        MovePlayerPos::parse_body(
            wire::be64(packet.x.bits) + wire::be64(packet.y.bits) + wire::be64(packet.z.bits)
                + seq![packet.flags.0]
                + tail,
        ) == (
            Ok::<MovePlayerPos, ProtocolError>(
                MovePlayerPos { x: packet.x, y: packet.y, z: packet.z, flags: packet.flags },
            ),
            tail,
        ),
        MovePlayerRot::parse_body(
            wire::be32(packet.yaw.bits) + wire::be32(packet.pitch.bits) + seq![packet.flags.0]
                + tail,
        ) == (
            Ok::<MovePlayerRot, ProtocolError>(
                MovePlayerRot { yaw: packet.yaw, pitch: packet.pitch, flags: packet.flags },
            ),
            tail,
        ),
{
    lemma_full_movement(packet, tail);
    lemma_position_movement(packet, tail);
    lemma_rotation_movement(packet, tail);
}

/// The grouping of pieces that follow one another does not matter.
proof fn lemma_regroup(a: Seq<u8>, b: Seq<u8>, c: Seq<u8>, d: Seq<u8>)
    ensures
        a + b + c + d == a + (b + (c + d)),
{
    assert(a + b + c + d =~= a + (b + (c + d)));
}

proof fn lemma_regroup_five(a: Seq<u8>, b: Seq<u8>, c: Seq<u8>, d: Seq<u8>, e: Seq<u8>)
    ensures
        a + b + c + d + e == a + (b + (c + (d + e))),
{
    assert(a + b + c + d + e =~= a + (b + (c + (d + e))));
}

#[verifier::spinoff_prover]
#[verifier::rlimit(40)]
proof fn lemma_rotation_movement(p: MovePlayerPosRot, tail: Seq<u8>)
    ensures
        MovePlayerRot::parse_body(
            wire::be32(p.yaw.bits) + wire::be32(p.pitch.bits) + seq![p.flags.0] + tail,
        ) == (
            Ok::<MovePlayerRot, ProtocolError>(
                MovePlayerRot { yaw: p.yaw, pitch: p.pitch, flags: p.flags },
            ),
            tail,
        ),
{
    let flags = seq![p.flags.0] + tail;
    let pitch = wire::be32(p.pitch.bits) + flags;
    reader::lemma_reads_u8(p.flags.0, tail);
    reader::lemma_reads_single(p.pitch, flags);
    reader::lemma_reads_single(p.yaw, pitch);
    lemma_regroup(wire::be32(p.yaw.bits), wire::be32(p.pitch.bits), seq![p.flags.0], tail);
}

#[verifier::spinoff_prover]
#[verifier::rlimit(40)]
proof fn lemma_position_movement(p: MovePlayerPosRot, tail: Seq<u8>)
    ensures
        MovePlayerPos::parse_body(
            wire::be64(p.x.bits) + wire::be64(p.y.bits) + wire::be64(p.z.bits) + seq![p.flags.0]
                + tail,
        ) == (
            Ok::<MovePlayerPos, ProtocolError>(
                MovePlayerPos { x: p.x, y: p.y, z: p.z, flags: p.flags },
            ),
            tail,
        ),
{
    let (x, y, z) = (wire::be64(p.x.bits), wire::be64(p.y.bits), wire::be64(p.z.bits));
    let flags = seq![p.flags.0];
    reader::lemma_reads_u8(p.flags.0, tail);
    lemma_reads_position(p.x, p.y, p.z, flags + tail);
    lemma_regroup_five(x, y, z, flags, tail);
}

proof fn lemma_full_movement(p: MovePlayerPosRot, tail: Seq<u8>)
    ensures
        MovePlayerPosRot::parse_body(
            wire::be64(p.x.bits) + wire::be64(p.y.bits) + wire::be64(p.z.bits) + wire::be32(
                p.yaw.bits,
            ) + wire::be32(p.pitch.bits) + seq![p.flags.0] + tail,
        ) == (Ok::<MovePlayerPosRot, ProtocolError>(p), tail),
{
    lemma_full_movement_parses(p, tail);
    lemma_regroup_seven(
        wire::be64(p.x.bits),
        wire::be64(p.y.bits),
        wire::be64(p.z.bits),
        wire::be32(p.yaw.bits),
        wire::be32(p.pitch.bits),
        seq![p.flags.0],
        tail,
    );
}

proof fn lemma_regroup_seven(
    a: Seq<u8>,
    b: Seq<u8>,
    c: Seq<u8>,
    d: Seq<u8>,
    e: Seq<u8>,
    f: Seq<u8>,
    g: Seq<u8>,
)
    ensures
        a + b + c + d + e + f + g == a + (b + (c + (d + (e + (f + g))))),
{
    lemma_regroup(a + b + c + d, e, f, g);
    lemma_regroup_five(a, b, c, d, e + (f + g));
}

proof fn lemma_regroup_eight(
    a: Seq<u8>,
    b: Seq<u8>,
    c: Seq<u8>,
    d: Seq<u8>,
    e: Seq<u8>,
    f: Seq<u8>,
    g: Seq<u8>,
    h: Seq<u8>,
)
    ensures
        a + b + c + d + e + f + g + h == a + (b + (c + (d + (e + (f + (g + h)))))),
{
    lemma_regroup(a + b + c + d + e, f, g, h);
    lemma_regroup_five(a, b, c, d, e + (f + (g + h)));
    assert(a + b + c + d + e + (f + (g + h)) =~= a + b + c + d + (e + (f + (g + h))));
}

#[verifier::spinoff_prover]
#[verifier::rlimit(40)]
proof fn lemma_full_movement_parses(p: MovePlayerPosRot, tail: Seq<u8>)
    ensures
        MovePlayerPosRot::parse_body(
            wire::be64(p.x.bits) + (wire::be64(p.y.bits) + (wire::be64(p.z.bits) + (wire::be32(
                p.yaw.bits,
            ) + (wire::be32(p.pitch.bits) + (seq![p.flags.0] + tail))))),
        ) == (Ok::<MovePlayerPosRot, ProtocolError>(p), tail),
{
    let flags = seq![p.flags.0] + tail;
    let pitch = wire::be32(p.pitch.bits) + flags;
    let yaw = wire::be32(p.yaw.bits) + pitch;
    reader::lemma_reads_u8(p.flags.0, tail);
    reader::lemma_reads_single(p.pitch, flags);
    reader::lemma_reads_single(p.yaw, pitch);
    lemma_reads_position(p.x, p.y, p.z, yaw);
}

proof fn lemma_reads_position(x: Float64, y: Float64, z: Float64, tail: Seq<u8>)
    ensures
        ({
            let b = wire::be64(z.bits) + tail;
            let a = wire::be64(y.bits) + b;
            &&& reader::parse_f64(wire::be64(x.bits) + a) == (Ok::<Float64, ProtocolError>(x), a)
            &&& reader::parse_f64(a) == (Ok::<Float64, ProtocolError>(y), b)
            &&& reader::parse_f64(b) == (Ok::<Float64, ProtocolError>(z), tail)
        }),
{
    let b = wire::be64(z.bits) + tail;
    reader::lemma_reads_double(z, tail);
    reader::lemma_reads_double(y, b);
    reader::lemma_reads_double(x, wire::be64(y.bits) + b);
}

/// A slash command, without the leading slash.
#[derive(Debug, Clone, PartialEq, Eq)]
pub struct ChatCommand {
    pub command: String,
}

impl ServerboundPacket for ChatCommand {
    type Fields = Seq<char>;

    const ID: i32 = ids::play::serverbound::CHAT_COMMAND;

    const NAME: &'static str = "ChatCommand";

    open spec fn packet_id() -> i32 {
        ids::play::serverbound::CHAT_COMMAND
    }

    proof fn lemma_id() {
    }

    open spec fn fields(&self) -> Seq<char> {
        self.command@
    }

    open spec fn parse_body(s: Seq<u8>) -> Parse<Seq<char>> {
        reader::parse_string(s, MAX_COMMAND_LEN)
    }

    fn decode_body(r: &mut PacketReader<'_>) -> (read: Result<Self>) {
        let command = r.read_string(MAX_COMMAND_LEN)?;
        Ok(ChatCommand { command })
    }
}

/// Marks the end of a client tick.
#[derive(Debug, Clone, Copy, PartialEq, Eq)]
pub struct ClientTickEnd;

impl ServerboundPacket for ClientTickEnd {
    type Fields = ();

    const ID: i32 = ids::play::serverbound::CLIENT_TICK_END;

    const NAME: &'static str = "ClientTickEnd";

    open spec fn packet_id() -> i32 {
        ids::play::serverbound::CLIENT_TICK_END
    }

    proof fn lemma_id() {
    }

    open spec fn fields(&self) -> () {
        ()
    }

    open spec fn parse_body(s: Seq<u8>) -> Parse<()> {
        (Ok(()), s)
    }

    fn decode_body(_r: &mut PacketReader<'_>) -> (read: Result<Self>) {
        Ok(ClientTickEnd)
    }
}

} // verus!
