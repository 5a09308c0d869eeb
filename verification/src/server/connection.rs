//! Per-connection state machine.
//!
//! Handshake, status, login and configuration are a strict request/response
//! dance. A [`Session`] says for each packet what to reply, whether the
//! connection is over and how, and what changes for the other connections. A
//! [`Connection`] adds the codec, whose compression and encryption state is
//! ordered and must switch at exactly the right byte.

use bytes::{Bytes, BytesMut};
use vstd::prelude::*;
use vstd::utf8;

use crate::protocol::buffer;
use crate::protocol::codec;
use crate::protocol::codec::{Decoder, Encoder};
use crate::protocol::error;
use crate::protocol::error::ProtocolError;
use crate::protocol::json;
use crate::protocol::nbt;
use crate::protocol::packets;
use crate::protocol::packets::config as config_packets;
use crate::protocol::packets::handshake;
use crate::protocol::packets::login as login_packets;
use crate::protocol::packets::status as status_packets;
use crate::protocol::packets::{ids, ClientboundPacket};
use crate::protocol::reader;
use crate::protocol::text;
use crate::protocol::text::{Component, Message, NamedColor};
use crate::protocol::types::Uuid;
use crate::protocol::varint;
use crate::protocol::version;
use crate::protocol::wire;
use crate::protocol::writer;
use crate::protocol::State;
use crate::protocol;
use crate::server::config;
use crate::server::config::{LoginFinishedFlag, ServerConfig};
use crate::server::player;
use crate::server::player::{offline_uuid, JoinError, PlayerInfo};
use crate::server::server::ServerContext;
use crate::server::status;

verus! {

/// How long a client may stay silent before being dropped, prior to play.
pub const HANDSHAKE_TIMEOUT_SECS: u64 = 30;

/// Socket read buffer. Sized to hold a typical burst without repeated syscalls.
pub const READ_BUFFER: usize = 0x4000;

/// Names handed to the status document as a sample.
pub const SAMPLE_SIZE: usize = 12;

/// Why a connection ended.
#[derive(Debug)]
pub enum ConnError {
    /// Reading or writing failed.
    Io(String),
    /// The peer broke the protocol.
    Protocol(ProtocolError),
    /// The peer closed the connection.
    Closed,
    /// The peer was silent for too long.
    TimedOut,
    /// The peer speaks another version.
    UnsupportedVersion { got: i32, expected: i32 },
    /// A packet that has no place in the current state.
    UnexpectedPacket { state: &'static str, id: i32 },
    /// The server turned the peer away.
    Rejected(String),
}

/// What a [`ConnError`] says.
pub enum Failure {
    Io(Seq<char>),
    Protocol(ProtocolError),
    Closed,
    TimedOut,
    UnsupportedVersion { got: i32, expected: i32 },
    UnexpectedPacket { state: &'static str, id: i32 },
    Rejected(Seq<char>),
}

impl View for ConnError {
    type V = Failure;

    open spec fn view(&self) -> Failure {
        match *self {
            ConnError::Io(why) => Failure::Io(why@),
            ConnError::Protocol(e) => Failure::Protocol(e),
            ConnError::Closed => Failure::Closed,
            ConnError::TimedOut => Failure::TimedOut,
            ConnError::UnsupportedVersion { got, expected } => Failure::UnsupportedVersion {
                got,
                expected,
            },
            ConnError::UnexpectedPacket { state, id } => Failure::UnexpectedPacket { state, id },
            ConnError::Rejected(why) => Failure::Rejected(why@),
        }
    }
}

/// What a failure says.
pub open spec fn failure_text(why: Failure) -> Seq<char> {
    match why {
        Failure::Io(what) => "io error: "@ + what,
        Failure::Protocol(e) => "protocol error: "@ + error::error_text(e),
        Failure::Closed => "peer closed the connection"@,
        Failure::TimedOut => "timed out waiting for the client"@,
        Failure::UnsupportedVersion { got, expected } => {
            "unsupported protocol version "@ + json::decimal(got as int)
                + " (this server speaks "@ + json::decimal(expected as int) + ")"@
        },
        Failure::UnexpectedPacket { state, id } => {
            "unexpected packet "@ + error::id_text(id) + " in state "@ + state@
        },
        Failure::Rejected(what) => what,
    }
}

impl ConnError {
    /// The text to show.
    #[must_use]
    pub fn message(&self) -> (text: String)
        ensures
            text@ == failure_text(self@),
    {
        match self {
            ConnError::Io(what) => {
                let mut text = "io error: ".to_owned();
                text.append(what.as_str());
                text
            },
            ConnError::Protocol(e) => {
                let mut text = "protocol error: ".to_owned();
                text.append(e.message().as_str());
                text
            },
            ConnError::Closed => "peer closed the connection".to_owned(),
            ConnError::TimedOut => "timed out waiting for the client".to_owned(),
            ConnError::UnsupportedVersion { got, expected } => {
                let mut text = "unsupported protocol version ".to_owned();
                text.append(json::number(*got as i128).as_str());
                text.append(" (this server speaks ");
                text.append(json::number(*expected as i128).as_str());
                text.append(")");
                text
            },
            ConnError::UnexpectedPacket { state, id } => {
                let mut text = "unexpected packet ".to_owned();
                error::add_id(&mut text, *id);
                text.append(" in state ");
                text.append(state);
                text
            },
            ConnError::Rejected(what) => what.as_str().to_owned(),
        }
    }
}

/// How a connection ends: in order, or with a failure.
pub type Ending = core::result::Result<(), ConnError>;

/// What an [`Ending`] says.
pub open spec fn ending_view(ending: Ending) -> core::result::Result<(), Failure> {
    match ending {
        Ok(()) => Ok(()),
        Err(e) => Err(e@),
    }
}

/// Something to do for the client.
#[derive(Debug)]
pub enum Reply {
    /// Frame and write a packet, given as its id followed by its body.
    Send(Vec<u8>),
    /// Turn on compression in both directions.
    Compress(usize),
}

/// What a [`Reply`] says.
pub enum ReplyView {
    Send(Seq<u8>),
    Compress(usize),
}

impl View for Reply {
    type V = ReplyView;

    open spec fn view(&self) -> ReplyView {
        match *self {
            Reply::Send(packet) => ReplyView::Send(packet@),
            Reply::Compress(threshold) => ReplyView::Compress(threshold),
        }
    }
}

/// What a packet leads to.
#[derive(Debug)]
pub struct Step {
    /// What to do for the client, in order.
    pub replies: Vec<Reply>,
    /// How the connection ends once that is done. `None` where it goes on.
    pub outcome: Option<Ending>,
    /// The view distance granted to the client, where it asked for one.
    pub view_distance: Option<i32>,
}

/// What a [`Step`] says.
pub struct StepView {
    pub replies: Seq<ReplyView>,
    pub outcome: Option<core::result::Result<(), Failure>>,
    pub view_distance: Option<i32>,
}

/// What each of some replies says.
pub open spec fn reply_views(replies: Seq<Reply>) -> Seq<ReplyView> {
    Seq::new(replies.len(), |i: int| replies[i]@)
}

impl View for Step {
    type V = StepView;

    open spec fn view(&self) -> StepView {
        StepView {
            replies: reply_views(self.replies@),
            outcome: match self.outcome {
                Some(ending) => Some(ending_view(ending)),
                None => None,
            },
            view_distance: self.view_distance,
        }
    }
}

/// Go on without a reply.
pub open spec fn silence() -> StepView {
    StepView { replies: Seq::empty(), outcome: None, view_distance: None }
}

/// End with a failure, without a reply.
pub open spec fn failing(why: Failure) -> StepView {
    StepView { replies: Seq::empty(), outcome: Some(Err(why)), view_distance: None }
}

/// Send one packet, then end with a failure.
pub open spec fn parting(packet: Seq<u8>, why: Failure) -> StepView {
    StepView {
        replies: seq![ReplyView::Send(packet)],
        outcome: Some(Err(why)),
        view_distance: None,
    }
}

/// Where a connection stands.
#[derive(Debug)]
pub enum Phase {
    /// Nothing has been received.
    Handshaking,
    /// The client asked for a server-list ping.
    Status,
    /// The client asked to log in and has yet to name itself.
    Login,
    /// The client was told that its login is accepted, and has yet to answer.
    Acknowledging { uuid: Uuid, name: String },
    /// The client is counted among the players, and is being configured.
    Configuring { uuid: Uuid, name: String },
}

/// What a [`Phase`] says.
pub enum PhaseView {
    Handshaking,
    Status,
    Login,
    Acknowledging { uuid: Uuid, name: Seq<char> },
    Configuring { uuid: Uuid, name: Seq<char> },
}

impl View for Phase {
    type V = PhaseView;

    open spec fn view(&self) -> PhaseView {
        match *self {
            Phase::Handshaking => PhaseView::Handshaking,
            Phase::Status => PhaseView::Status,
            Phase::Login => PhaseView::Login,
            Phase::Acknowledging { uuid, name } => PhaseView::Acknowledging { uuid, name: name@ },
            Phase::Configuring { uuid, name } => PhaseView::Configuring { uuid, name: name@ },
        }
    }
}

// ---------------------------------------------------------------------------
// The packets that are sent
// ---------------------------------------------------------------------------

/// A text in one of the named colours.
pub open spec fn notice(content: Seq<char>, color: NamedColor) -> Message {
    Message { text: Some(content), color: Some(text::color_name(color)), ..text::blank() }
}

/// The kick of the login state.
pub open spec fn login_disconnect_bytes(reason: Message) -> Seq<u8> {
    varint::varint_bytes(ids::login::clientbound::LOGIN_DISCONNECT) + writer::string_bytes(
        text::json_form(reason),
    )
}

/// The kick of the configuration state.
pub open spec fn config_disconnect_bytes(reason: Message) -> Seq<u8> {
    varint::varint_bytes(ids::configuration::clientbound::DISCONNECT) + nbt::network_bytes(
        text::nbt_form(reason),
    )
}

/// The packet that announces compression.
pub open spec fn set_compression_bytes(threshold: i32) -> Seq<u8> {
    varint::varint_bytes(ids::login::clientbound::SET_COMPRESSION) + varint::varint_bytes(threshold)
}

/// The packet that confirms a login: the identity, no properties, and the flag
/// where there is one.
pub open spec fn login_finished_bytes(
    uuid: Uuid,
    name: Seq<char>,
    flag: LoginFinishedFlag,
) -> Seq<u8> {
    varint::varint_bytes(ids::login::clientbound::LOGIN_SUCCESS) + (wire::be128(uuid.value)
        + writer::string_bytes(name) + varint::varint_bytes(0) + login_packets::flag_bytes(
        config::trailing_flag(flag),
    ))
}

/// The packet that names this implementation.
pub open spec fn brand_bytes() -> Seq<u8> {
    varint::varint_bytes(ids::configuration::clientbound::PLUGIN_MESSAGE)
        + config_packets::plugin_bytes(
        config_packets::PluginFields {
            channel: "minecraft:brand"@,
            data: writer::string_bytes(version::SERVER_BRAND@),
        },
    )
}

/// The packet that names the data pack of the targeted version.
pub open spec fn known_packs_bytes() -> Seq<u8> {
    varint::varint_bytes(ids::configuration::clientbound::SELECT_KNOWN_PACKS)
        + config_packets::packs_bytes(
        seq![
            config_packets::PackFields {
                namespace: "minecraft"@,
                id: "core"@,
                version: version::MINECRAFT_VERSION@,
            },
        ],
    )
}

/// The packet that echoes a ping.
pub open spec fn pong_bytes(payload: i64) -> Seq<u8> {
    varint::varint_bytes(ids::status::clientbound::PONG_RESPONSE) + wire::be64(payload as u64)
}

/// The packet that carries the status document.
pub open spec fn status_bytes(json: Seq<char>) -> Seq<u8> {
    varint::varint_bytes(ids::status::clientbound::STATUS_RESPONSE) + writer::string_bytes(json)
}

/// What a client of another version is told.
pub open spec fn version_notice(got: i32) -> Message {
    notice(
        "This server is running Minecraft "@ + version::MINECRAFT_VERSION@ + " (protocol "@
            + json::decimal(version::PROTOCOL_VERSION as int)
            + "). Your client speaks protocol "@ + json::decimal(got as int) + "."@,
        NamedColor::Red,
    )
}

/// What a client is told where identities would have to be verified.
pub open spec fn online_mode_notice() -> Message {
    notice(
        "This server has online-mode enabled, which this build does not yet support."@,
        NamedColor::Red,
    )
}

/// What a client is told who may not join.
pub open spec fn join_notice(why: JoinError) -> Message {
    match why {
        JoinError::Full => notice("The server is full"@, NamedColor::Red),
        JoinError::NameTaken => notice(
            "Someone is already playing under that name"@,
            NamedColor::Red,
        ),
    }
}

/// What a client is told who is ready for the world.
pub open spec fn registry_notice() -> Message {
    notice(
        "Rukkit can accept your login, but cannot yet enter the world: the 26.2 registry data is not loaded. Server-list ping and login work; see the README roadmap."@,
        NamedColor::Gold,
    )
}

// ---------------------------------------------------------------------------
// What each packet leads to
// ---------------------------------------------------------------------------

/// A packet taken apart into its id and its body.
pub open spec fn parted(packet: Seq<u8>) -> core::result::Result<(i32, Seq<u8>), ProtocolError> {
    match varint::parse_varint(packet) {
        Ok((id, used)) => Ok((id, packet.skip(used as int))),
        Err(e) => Err(e),
    }
}

/// A packet that is not expected in a state.
pub open spec fn unexpected(state: State, id: i32) -> Failure {
    Failure::UnexpectedPacket { state: protocol::state_name(state), id }
}

/// The first packet: what the client wants to do.
pub open spec fn opening(packet: Seq<u8>) -> (PhaseView, StepView) {
    let stay = PhaseView::Handshaking;
    match parted(packet) {
        Err(e) => (stay, failing(Failure::Protocol(e))),
        Ok((id, body)) => if id != ids::handshaking::serverbound::INTENTION {
            (stay, failing(unexpected(State::Handshaking, id)))
        } else {
            match packets::parse_exact::<handshake::Intention>(
                body,
                protocol::state_name(State::Handshaking),
            ) {
                Err(e) => (stay, failing(Failure::Protocol(e))),
                Ok(f) => if f.next_state == handshake::NextState::Status {
                    (PhaseView::Status, silence())
                } else if f.protocol_version == version::PROTOCOL_VERSION {
                    (PhaseView::Login, silence())
                } else {
                    (
                        stay,
                        parting(
                            login_disconnect_bytes(version_notice(f.protocol_version)),
                            Failure::UnsupportedVersion {
                                got: f.protocol_version,
                                expected: version::PROTOCOL_VERSION,
                            },
                        ),
                    )
                },
            }
        },
    }
}

/// What a packet of a server-list ping asks for.
pub enum PingMove {
    Fail(Failure),
    Document,
    Pong(i64),
}

pub open spec fn ping_move(packet: Seq<u8>) -> PingMove {
    match parted(packet) {
        Err(e) => PingMove::Fail(Failure::Protocol(e)),
        Ok((id, body)) => if id == ids::status::serverbound::STATUS_REQUEST {
            match packets::parse_exact::<status_packets::StatusRequest>(
                body,
                protocol::state_name(State::Status),
            ) {
                Err(e) => PingMove::Fail(Failure::Protocol(e)),
                Ok(_) => PingMove::Document,
            }
        } else if id == ids::status::serverbound::PING_REQUEST {
            match packets::parse_exact::<status_packets::PingRequest>(
                body,
                protocol::state_name(State::Status),
            ) {
                Err(e) => PingMove::Fail(Failure::Protocol(e)),
                Ok(ping) => PingMove::Pong(ping.payload),
            }
        } else {
            PingMove::Fail(unexpected(State::Status, id))
        },
    }
}

/// Names fit to be shown as a sample of the players: as many as there are, up
/// to a limit, each of a player, and none twice.
pub open spec fn sampled(players: Map<u128, PlayerInfo>, names: Seq<Seq<char>>) -> bool {
    &&& names.len() == if SAMPLE_SIZE < players.len() {
        SAMPLE_SIZE as nat
    } else {
        players.len()
    }
    &&& forall|i: int| 0 <= i < names.len() ==> player::taken(players, #[trigger] names[i])
    &&& names.no_duplicates()
}

/// The packets that accept a login. Compression is announced uncompressed, and
/// applies from the next packet on.
pub open spec fn acceptance(config: ServerConfig, uuid: Uuid, name: Seq<char>) -> Seq<ReplyView> {
    let finished = ReplyView::Send(login_finished_bytes(uuid, name, config.login_finished_flag));
    match config::threshold_of(config) {
        Some(threshold) => seq![
            ReplyView::Send(set_compression_bytes(threshold as i32)),
            ReplyView::Compress(threshold),
            finished,
        ],
        None => seq![finished],
    }
}

/// The packet by which a client names itself.
pub open spec fn greeting(packet: Seq<u8>, config: ServerConfig) -> (PhaseView, StepView) {
    let stay = PhaseView::Login;
    match parted(packet) {
        Err(e) => (stay, failing(Failure::Protocol(e))),
        Ok((id, body)) => if id != ids::login::serverbound::HELLO {
            (stay, failing(unexpected(State::Login, id)))
        } else {
            match packets::parse_exact::<login_packets::Hello>(body,
                protocol::state_name(State::Login)) {
                Err(e) => (stay, failing(Failure::Protocol(e))),
                Ok(f) => if config.online_mode {
                    (
                        stay,
                        parting(
                            login_disconnect_bytes(online_mode_notice()),
                            Failure::Rejected("online mode is not implemented"@),
                        ),
                    )
                } else {
                    let uuid = player::offline_id(f.name);
                    (
                        PhaseView::Acknowledging { uuid, name: f.name },
                        StepView {
                            replies: acceptance(config, uuid, f.name),
                            outcome: None,
                            view_distance: None,
                        },
                    )
                },
            }
        },
    }
}

/// What is wrong with the packet that should acknowledge a login, where
/// anything is.
pub open spec fn acknowledgement_fault(packet: Seq<u8>) -> Option<Failure> {
    match parted(packet) {
        Err(e) => Some(Failure::Protocol(e)),
        Ok((id, body)) => if id != ids::login::serverbound::LOGIN_ACKNOWLEDGED {
            Some(unexpected(State::Login, id))
        } else {
            match packets::parse_exact::<login_packets::LoginAcknowledged>(
                body,
                protocol::state_name(State::Login),
            ) {
                Err(e) => Some(Failure::Protocol(e)),
                Ok(_) => None,
            }
        },
    }
}

/// How many players a configuration admits.
pub open spec fn capacity_of(config: ServerConfig) -> usize {
    if config.max_players < 0 {
        0
    } else {
        config.max_players as usize
    }
}

/// A player entered the registry under their UUID.
pub open spec fn entered(
    before: Map<u128, PlayerInfo>,
    after: Map<u128, PlayerInfo>,
    uuid: Uuid,
    name: Seq<char>,
    addr: Seq<char>,
) -> bool {
    exists|info: PlayerInfo|
        info.uuid == uuid && info.name@ == name && info.addr@ == addr && after
            == #[trigger] before.insert(uuid.value, info)
}

/// The view distance that a client is granted: what it asks for, up to what the
/// server sends.
pub open spec fn granted_distance(requested: i8, ceiling: u8) -> int {
    let asked = if requested < 0 {
        0
    } else {
        requested as int
    };
    if asked < ceiling {
        asked
    } else {
        ceiling as int
    }
}

/// Go on without a reply where a packet could be read, fail where it could not.
pub open spec fn read_or_fail<T>(read: core::result::Result<T, ProtocolError>) -> StepView {
    match read {
        Ok(_) => silence(),
        Err(e) => failing(Failure::Protocol(e)),
    }
}

/// A packet of the configuration state.
pub open spec fn configuring(packet: Seq<u8>, config: ServerConfig) -> StepView {
    let state = protocol::state_name(State::Configuration);
    match parted(packet) {
        Err(e) => failing(Failure::Protocol(e)),
        Ok((id, body)) => if id == ids::configuration::serverbound::CLIENT_INFORMATION {
            match packets::parse_exact::<config_packets::ClientInformation>(body, state) {
                Err(e) => failing(Failure::Protocol(e)),
                Ok(f) => StepView {
                    view_distance: Some(
                        granted_distance(f.view_distance, config.view_distance) as i32,
                    ),
                    ..silence()
                },
            }
        } else if id == ids::configuration::serverbound::SELECT_KNOWN_PACKS {
            match packets::parse_exact::<config_packets::SelectKnownPacks>(body, state) {
                Err(e) => failing(Failure::Protocol(e)),
                Ok(_) => parting(
                    config_disconnect_bytes(registry_notice()),
                    Failure::Rejected("registry data not loaded"@),
                ),
            }
        } else if id == ids::configuration::serverbound::PLUGIN_MESSAGE {
            read_or_fail(packets::parse_exact::<config_packets::PluginMessage>(body, state))
        } else if id == ids::configuration::serverbound::KEEP_ALIVE {
            read_or_fail(packets::parse_exact::<config_packets::KeepAlive>(body, state))
        } else if id == ids::configuration::serverbound::FINISH_CONFIGURATION {
            match packets::parse_exact::<config_packets::FinishConfigurationAck>(body, state) {
                Err(e) => failing(Failure::Protocol(e)),
                Ok(_) => StepView {
                    replies: Seq::empty(),
                    outcome: Some(Ok(())),
                    view_distance: None,
                },
            }
        } else {
            silence()
        },
    }
}

/// What one packet does, by the stage that it comes in: to the stage, to what
/// the connections share, and in reply.
pub open spec fn answers(
    stage: PhaseView,
    after: PhaseView,
    peer: Seq<char>,
    packet: Seq<u8>,
    was: ServerContext,
    now: ServerContext,
    step: StepView,
) -> bool {
    &&& now.config == was.config && now.states == was.states && now.limits == was.limits
    &&& now.status.same_settings(was.status)
    &&& was.wf() ==> now.wf()
    &&& match stage {
        PhaseView::Handshaking => {
            &&& (after, step) == opening(packet)
            &&& now == was
        },
        PhaseView::Status => {
            &&& after == PhaseView::Status
            &&& now.players == was.players
            &&& match ping_move(packet) {
                PingMove::Fail(why) => step == failing(why) && now == was,
                PingMove::Pong(payload) => step == (StepView {
                    replies: seq![ReplyView::Send(pong_bytes(payload))],
                    outcome: Some(Ok(())),
                    view_distance: None,
                }) && now == was,
                PingMove::Document => ({
                    let online = (was.players@.len() as usize) as i32;
                    let held = now.status.held(online)->0;
                    &&& status::serves(was.status, now.status, online, held.sample, held.json)
                    &&& was.players.wf() ==> sampled(was.players@, held.sample)
                    &&& step == (StepView {
                        replies: seq![ReplyView::Send(status_bytes((*held.json)@))],
                        ..silence()
                    })
                    &&& was.status.wf() ==> (*held.json)@
                        == status_packets::status_json(
                        was.status.document(online, held.sample),
                    )
                }),
            }
        },
        PhaseView::Login => {
            &&& (after, step) == greeting(packet, was.config)
            &&& now == was
        },
        PhaseView::Acknowledging { uuid, name } => {
            &&& now.status == was.status
            &&& match acknowledgement_fault(packet) {
                Some(why) => {
                    &&& step == failing(why)
                    &&& after == stage
                    &&& now.players@ == was.players@
                },
                None => match player::refused(
                    was.players@,
                    name,
                    capacity_of(was.config),
                ) {
                    Some(why) => {
                        &&& step == parting(
                            config_disconnect_bytes(join_notice(why)),
                            Failure::Rejected(player::join_error_text(why)@),
                        )
                        &&& after == stage
                        &&& now.players@ == was.players@
                    },
                    None => {
                        &&& step == (StepView {
                            replies: seq![
                                ReplyView::Send(brand_bytes()),
                                ReplyView::Send(known_packs_bytes()),
                            ],
                            ..silence()
                        })
                        &&& after == PhaseView::Configuring { uuid, name }
                        &&& entered(
                            was.players@,
                            now.players@,
                            uuid,
                            name,
                            peer,
                        )
                    },
                },
            }
        },
        PhaseView::Configuring { uuid, name } => {
            &&& step == configuring(packet, was.config)
            &&& after == stage
            &&& now == was
        },
    }
}

// ---------------------------------------------------------------------------
// Deciding
// ---------------------------------------------------------------------------

/// Splits a packet body into its id and the rest.
pub fn split_id(packet: &[u8]) -> (split: core::result::Result<(i32, &[u8]), ProtocolError>)
    ensures
        match parted(packet@) {
            Ok((id, body)) => split is Ok && split->Ok_0.0 == id && split->Ok_0.1@ == body,
            Err(e) => split == Err::<(i32, &[u8]), ProtocolError>(e),
        },
{
    proof {
        varint::lemma_group_count_bounds(packet@, varint::MAX_VARINT_BYTES as nat);
    }
    let (id, used) = varint::read_varint(packet)?;
    let body = &packet[used..packet.len()];
    assert(body@ =~= packet@.skip(used as int));
    Ok((id, body))
}

/// The view distance that a client is granted: what it asks for, up to what the
/// server sends.
#[must_use]
pub fn effective_view_distance(requested: i8, ceiling: u8) -> (chunks: i32)
    ensures
        chunks == granted_distance(requested, ceiling),
{
    let asked: i32 = if requested < 0 { 0 } else { requested as i32 };
    if asked < ceiling as i32 {
        asked
    } else {
        ceiling as i32
    }
}

fn colored(content: &str, color: NamedColor) -> (c: Component)
    ensures
        c@ == notice(content@, color),
{
    Component::text(content).color(color)
}

fn encoded<P: ClientboundPacket>(packet: &P) -> (reply: Reply)
    ensures
        reply@ == ReplyView::Send(packets::packet_bytes(*packet)),
{
    let mut out: Vec<u8> = Vec::new();
    packets::encode(packet, &mut out);
    Reply::Send(out)
}

fn go_on() -> (step: Step)
    ensures
        step@ == silence(),
{
    let step = Step { replies: Vec::new(), outcome: None, view_distance: None };
    assert(step@.replies =~= Seq::<ReplyView>::empty());
    step
}

fn fail(why: ConnError) -> (step: Step)
    ensures
        step@ == failing(why@),
{
    let step = Step { replies: Vec::new(), outcome: Some(Err(why)), view_distance: None };
    assert(step@.replies =~= Seq::<ReplyView>::empty());
    step
}

fn part(reply: Reply, why: ConnError) -> (step: Step)
    ensures
        reply@ matches ReplyView::Send(packet) ==> step@ == parting(packet, why@),
{
    let mut replies: Vec<Reply> = Vec::new();
    replies.push(reply);
    let step = Step { replies, outcome: Some(Err(why)), view_distance: None };
    assert(step@.replies =~= seq![reply@]);
    step
}

fn kick_from_login(reason: Component, why: ConnError) -> (step: Step)
    ensures
        step@ == parting(login_disconnect_bytes(reason@), why@),
{
    part(encoded(&login_packets::LoginDisconnect { reason_json: reason.to_json() }), why)
}

fn kick_from_configuration(reason: Component, why: ConnError) -> (step: Step)
    ensures
        step@ == parting(config_disconnect_bytes(reason@), why@),
{
    part(encoded(&config_packets::Disconnect { reason }), why)
}

/// What one client does to the server, from its first packet to its last.
#[derive(Debug)]
pub struct Session {
    phase: Phase,
    addr: String,
}

impl Session {
    /// Where the session stands.
    pub closed spec fn stage(&self) -> PhaseView {
        self.phase@
    }

    /// Where the client connects from.
    pub closed spec fn peer(&self) -> Seq<char> {
        self.addr@
    }

    #[must_use]
    pub fn new(addr: String) -> (session: Self)
        ensures
            session.stage() == PhaseView::Handshaking,
            session.peer() == addr@,
    {
        Session { phase: Phase::Handshaking, addr }
    }

    /// Where the client connects from.
    #[must_use]
    pub fn addr(&self) -> (addr: &str)
        ensures
            addr@ == self.peer(),
    {
        self.addr.as_str()
    }

    /// Where the session stands.
    #[must_use]
    pub fn phase(&self) -> (phase: &Phase)
        ensures
            phase@ == self.stage(),
    {
        &self.phase
    }

    /// Answers one packet.
    pub fn step(&mut self, packet: &[u8], ctx: &mut ServerContext) -> (step: Step)
        ensures
            final(self).peer() == old(self).peer(),
            answers(
                old(self).stage(),
                final(self).stage(),
                old(self).peer(),
                packet@,
                *old(ctx),
                *final(ctx),
                step@,
            ),
    {
        match &self.phase {
            Phase::Handshaking => {
                let (next, step) = handshake_step(packet);
                self.phase = next;
                step
            },
            Phase::Status => status_phase(packet, ctx),
            Phase::Login => {
                let (next, step) = login_phase(packet, &ctx.config);
                self.phase = next;
                step
            },
            Phase::Acknowledging { uuid, name } => {
                let uuid: Uuid = *uuid;
                let name: String = name.as_str().to_owned();
                let (joined, step) = acknowledge(packet, ctx, uuid, name.as_str(),
                    self.addr.as_str());
                if joined {
                    self.phase = Phase::Configuring { uuid, name };
                }
                step
            },
            Phase::Configuring { .. } => configuration_phase(packet, &ctx.config),
        }
    }
}

/// The first packet: what the client wants to do.
fn handshake_step(packet: &[u8]) -> (result: (Phase, Step))
    ensures
        (result.0@, result.1@) == opening(packet@),
{
    let (id, body) = match split_id(packet) {
        Ok(split) => split,
        Err(e) => return (Phase::Handshaking, fail(ConnError::Protocol(e))),
    };
    let state = State::Handshaking.name();
    if id != ids::handshaking::serverbound::INTENTION {
        return (Phase::Handshaking, fail(ConnError::UnexpectedPacket { state, id }));
    }
    let intention: handshake::Intention = match packets::decode_exact(body, state) {
        Ok(intention) => intention,
        Err(e) => return (Phase::Handshaking, fail(ConnError::Protocol(e))),
    };
    match intention.next_state {
        handshake::NextState::Status => (Phase::Status, go_on()),
        handshake::NextState::Login | handshake::NextState::Transfer => {
            let got: i32 = intention.protocol_version;
            if !version::is_supported(got) {
                // Tell the client why rather than dropping it silently; this is
                // the message players actually see when versions mismatch.
                let mut content = "This server is running Minecraft ".to_owned();
                content.append(version::MINECRAFT_VERSION);
                content.append(" (protocol ");
                content.append(json::number(version::PROTOCOL_VERSION as i128).as_str());
                content.append("). Your client speaks protocol ");
                content.append(json::number(got as i128).as_str());
                content.append(".");
                let reason = colored(content.as_str(), NamedColor::Red);
                let expected: i32 = version::PROTOCOL_VERSION;
                return (
                    Phase::Handshaking,
                    kick_from_login(reason, ConnError::UnsupportedVersion { got, expected }),
                );
            }
            (Phase::Login, go_on())
        },
    }
}

/// Server-list ping. Never authenticates, so it stays strictly bounded.
fn status_phase(packet: &[u8], ctx: &mut ServerContext) -> (step: Step)
    ensures
        final(ctx).config == old(ctx).config,
        final(ctx).states == old(ctx).states,
        final(ctx).limits == old(ctx).limits,
        final(ctx).players == old(ctx).players,
        final(ctx).status.same_settings(old(ctx).status),
        old(ctx).status.wf() ==> final(ctx).status.wf(),
        match ping_move(packet@) {
            PingMove::Fail(why) => step@ == failing(why) && *final(ctx) == *old(ctx),
            PingMove::Pong(payload) => step@ == (StepView {
                replies: seq![ReplyView::Send(pong_bytes(payload))],
                outcome: Some(Ok(())),
                view_distance: None,
            }) && *final(ctx) == *old(ctx),
            PingMove::Document => ({
                let online = (old(ctx).players@.len() as usize) as i32;
                let held = final(ctx).status.held(online)->0;
                &&& status::serves(
                    old(ctx).status,
                    final(ctx).status,
                    online,
                    held.sample,
                    held.json,
                )
                &&& old(ctx).players.wf() ==> sampled(old(ctx).players@, held.sample)
                &&& step@ == (StepView {
                    replies: seq![ReplyView::Send(status_bytes((*held.json)@))],
                    ..silence()
                })
                &&& old(ctx).status.wf() ==> (*held.json)@ == status_packets::status_json(
                    old(ctx).status.document(online, held.sample),
                )
            }),
        },
{
    let (id, body) = match split_id(packet) {
        Ok(split) => split,
        Err(e) => return fail(ConnError::Protocol(e)),
    };
    let state = State::Status.name();
    if id == ids::status::serverbound::STATUS_REQUEST {
        match packets::decode_exact::<status_packets::StatusRequest>(body, state) {
            Ok(_) => {},
            Err(e) => return fail(ConnError::Protocol(e)),
        }
        let online: usize = ctx.players.count();
        let sample = ctx.players.sample_names(SAMPLE_SIZE);
        let ghost names = status::texts(sample@);
        let json = ctx.status.json(online as i32, sample.as_slice());
        proof {
            if ctx.players.wf() {
                assert forall|i: int| 0 <= i < names.len() implies player::taken(
                    ctx.players@,
                    #[trigger] names[i],
                ) by {
                    assert(names[i] == sample@[i]@);
                }
                assert forall|i: int, j: int|
                    0 <= i < names.len() && 0 <= j < names.len() && i != j implies names[i]
                    != names[j] by {
                    assert(sample@[i]@ != sample@[j]@);
                }
                assert(sampled(ctx.players@, names));
            }
        }
        let response = status_packets::StatusResponse { json: json.as_str().to_owned() };
        let mut replies: Vec<Reply> = Vec::new();
        replies.push(encoded(&response));
        let step = Step { replies, outcome: None, view_distance: None };
        assert(step@.replies =~= seq![ReplyView::Send(status_bytes((*json)@))]);
        step
    } else if id == ids::status::serverbound::PING_REQUEST {
        let ping: status_packets::PingRequest = match packets::decode_exact(body, state) {
            Ok(ping) => ping,
            Err(e) => return fail(ConnError::Protocol(e)),
        };
        let mut replies: Vec<Reply> = Vec::new();
        replies.push(encoded(&status_packets::PongResponse { payload: ping.payload }));
        // The pong ends the exchange.
        let step = Step { replies, outcome: Some(Ok(())), view_distance: None };
        assert(step@.replies =~= seq![ReplyView::Send(pong_bytes(ping.payload))]);
        step
    } else {
        fail(ConnError::UnexpectedPacket { state, id })
    }
}

/// The packet by which a client names itself.
fn login_phase(packet: &[u8], config: &ServerConfig) -> (result: (Phase, Step))
    ensures
        (result.0@, result.1@) == greeting(packet@, *config),
{
    let (id, body) = match split_id(packet) {
        Ok(split) => split,
        Err(e) => return (Phase::Login, fail(ConnError::Protocol(e))),
    };
    let state = State::Login.name();
    if id != ids::login::serverbound::HELLO {
        return (Phase::Login, fail(ConnError::UnexpectedPacket { state, id }));
    }
    let hello: login_packets::Hello = match packets::decode_exact(body, state) {
        Ok(hello) => hello,
        Err(e) => return (Phase::Login, fail(ConnError::Protocol(e))),
    };
    if config.online_mode {
        // Encryption and session-server verification are not implemented yet;
        // refusing plainly beats silently letting anyone in under a real name.
        let reason = colored(
            "This server has online-mode enabled, which this build does not yet support.",
            NamedColor::Red,
        );
        let why = ConnError::Rejected("online mode is not implemented".to_owned());
        return (Phase::Login, kick_from_login(reason, why));
    }
    let uuid = offline_uuid(hello.name.as_str());
    let mut replies: Vec<Reply> = Vec::new();
    if let Some(threshold) = config.compression() {
        replies.push(encoded(&login_packets::SetCompression { threshold: threshold as i32 }));
        // Only now, with that packet already on the wire uncompressed.
        replies.push(Reply::Compress(threshold));
    }
    let finished = login_packets::LoginFinished {
        success: login_packets::LoginSuccess {
            profile_id: uuid,
            username: hello.name.as_str().to_owned(),
            properties: Vec::new(),
        },
        strict_error_handling: config.login_finished_flag.value(),
    };
    let ghost body = finished.body();
    assert(body =~= wire::be128(uuid.value) + writer::string_bytes(hello.name@)
        + varint::varint_bytes(0) + login_packets::flag_bytes(
        config::trailing_flag(config.login_finished_flag),
    ));
    replies.push(encoded(&finished));
    let step = Step { replies, outcome: None, view_distance: None };
    assert(step@.replies =~= acceptance(*config, uuid, hello.name@));
    (Phase::Acknowledging { uuid, name: hello.name }, step)
}

/// The packet by which a client takes note of its login. The client then counts
/// among the players, where it may.
fn acknowledge(
    packet: &[u8],
    ctx: &mut ServerContext,
    uuid: Uuid,
    name: &str,
    addr: &str,
) -> (result: (bool, Step))
    ensures
        final(ctx).config == old(ctx).config,
        final(ctx).states == old(ctx).states,
        final(ctx).limits == old(ctx).limits,
        final(ctx).status == old(ctx).status,
        old(ctx).players.wf() ==> final(ctx).players.wf(),
        match acknowledgement_fault(packet@) {
            Some(why) => {
                &&& result.1@ == failing(why)
                &&& !result.0
                &&& final(ctx).players@ == old(ctx).players@
            },
            None => match player::refused(
                old(ctx).players@,
                name@,
                capacity_of(old(ctx).config),
            ) {
                Some(why) => {
                    &&& result.1@ == parting(
                        config_disconnect_bytes(join_notice(why)),
                        Failure::Rejected(player::join_error_text(why)@),
                    )
                    &&& !result.0
                    &&& final(ctx).players@ == old(ctx).players@
                },
                None => {
                    &&& result.1@ == (StepView {
                        replies: seq![
                            ReplyView::Send(brand_bytes()),
                            ReplyView::Send(known_packs_bytes()),
                        ],
                        ..silence()
                    })
                    &&& result.0
                    &&& entered(old(ctx).players@, final(ctx).players@, uuid, name@, addr@)
                },
            },
        },
{
    let (id, body) = match split_id(packet) {
        Ok(split) => split,
        Err(e) => return (false, fail(ConnError::Protocol(e))),
    };
    let state = State::Login.name();
    if id != ids::login::serverbound::LOGIN_ACKNOWLEDGED {
        return (false, fail(ConnError::UnexpectedPacket { state, id }));
    }
    match packets::decode_exact::<login_packets::LoginAcknowledged>(body, state) {
        Ok(_) => {},
        Err(e) => return (false, fail(ConnError::Protocol(e))),
    }
    let info = PlayerInfo { uuid, name: name.to_owned(), addr: addr.to_owned() };
    let max: usize = if ctx.config.max_players < 0 {
        0
    } else {
        ctx.config.max_players as usize
    };
    match ctx.players.try_insert(info, max) {
        Err(why) => {
            let reason = match why {
                JoinError::Full => colored("The server is full", NamedColor::Red),
                JoinError::NameTaken => {
                    colored("Someone is already playing under that name", NamedColor::Red)
                },
            };
            let rejected = ConnError::Rejected(why.message().to_owned());
            (false, kick_from_configuration(reason, rejected))
        },
        Ok(()) => {
            let mut replies: Vec<Reply> = Vec::new();
            let brand = config_packets::PluginMessage::brand(version::SERVER_BRAND);
            let packs = config_packets::SelectKnownPacks::vanilla();
            replies.push(encoded(&brand));
            replies.push(encoded(&packs));
            let step = Step { replies, outcome: None, view_distance: None };
            assert(step@.replies =~= seq![
                ReplyView::Send(brand_bytes()),
                ReplyView::Send(known_packs_bytes()),
            ]);
            (true, step)
        },
    }
}

/// A packet of the configuration state.
fn configuration_phase(packet: &[u8], config: &ServerConfig) -> (step: Step)
    ensures
        step@ == configuring(packet@, *config),
{
    let (id, body) = match split_id(packet) {
        Ok(split) => split,
        Err(e) => return fail(ConnError::Protocol(e)),
    };
    let state = State::Configuration.name();
    if id == ids::configuration::serverbound::CLIENT_INFORMATION {
        let info: config_packets::ClientInformation = match packets::decode_exact(body, state) {
            Ok(info) => info,
            Err(e) => return fail(ConnError::Protocol(e)),
        };
        // The client's view distance is a request; the server's own setting is
        // the ceiling.
        let effective: i32 = effective_view_distance(info.view_distance, config.view_distance);
        let mut step = go_on();
        step.view_distance = Some(effective);
        step
    } else if id == ids::configuration::serverbound::SELECT_KNOWN_PACKS {
        match packets::decode_exact::<config_packets::SelectKnownPacks>(body, state) {
            Ok(_) => {},
            Err(e) => return fail(ConnError::Protocol(e)),
        }
        // Registry contents come from the version's own data files. Until those
        // are loaded there is nothing truthful to send, and a client cannot
        // enter play without them.
        let reason = colored(
            "Rukkit can accept your login, but cannot yet enter the world: the 26.2 registry data is not loaded. Server-list ping and login work; see the README roadmap.",
            NamedColor::Gold,
        );
        kick_from_configuration(
            reason,
            ConnError::Rejected("registry data not loaded".to_owned()),
        )
    } else if id == ids::configuration::serverbound::PLUGIN_MESSAGE {
        match packets::decode_exact::<config_packets::PluginMessage>(body, state) {
            Ok(_) => go_on(),
            Err(e) => fail(ConnError::Protocol(e)),
        }
    } else if id == ids::configuration::serverbound::KEEP_ALIVE {
        match packets::decode_exact::<config_packets::KeepAlive>(body, state) {
            Ok(_) => go_on(),
            Err(e) => fail(ConnError::Protocol(e)),
        }
    } else if id == ids::configuration::serverbound::FINISH_CONFIGURATION {
        match packets::decode_exact::<config_packets::FinishConfigurationAck>(body, state) {
            Ok(_) => {
                let step = Step {
                    replies: Vec::new(),
                    outcome: Some(Ok(())),
                    view_distance: None,
                };
                assert(step@.replies =~= Seq::<ReplyView>::empty());
                step
            },
            Err(e) => fail(ConnError::Protocol(e)),
        }
    } else {
        go_on()
    }
}

impl Session {
    /// How the connection ends where no packet came. A client that pings and
    /// hangs up without asking for a pong is normal behaviour, not a failure.
    pub fn read_ended(&self, why: ConnError) -> (ending: Ending)
        ensures
            ending_view(ending) == if self.stage() == PhaseView::Status && why@ == Failure::Closed {
                Ok::<(), Failure>(())
            } else {
                Err(why@)
            },
    {
        match (&self.phase, why) {
            (Phase::Status, ConnError::Closed) => Ok(()),
            (_, why) => Err(why),
        }
    }

    /// How the connection ends where a reply could not be sent: with that
    /// failure, but for a client of another version, who is turned away whether
    /// or not it could be told.
    pub fn send_ended(outcome: Option<Ending>, why: ConnError) -> (ending: Ending)
        ensures
            ending_view(ending) == match outcome {
                Some(Err(ConnError::UnsupportedVersion { got, expected })) => Err::<(), Failure>(
                    Failure::UnsupportedVersion { got, expected },
                ),
                _ => Err(why@),
            },
    {
        match outcome {
            Some(Err(ConnError::UnsupportedVersion { got, expected })) => {
                Err(ConnError::UnsupportedVersion { got, expected })
            },
            _ => Err(why),
        }
    }

    /// Takes leave of the server: a client that counted among the players no
    /// longer does.
    pub fn close(self, ctx: &mut ServerContext)
        ensures
            final(ctx).config == old(ctx).config,
            final(ctx).states == old(ctx).states,
            final(ctx).limits == old(ctx).limits,
            final(ctx).status == old(ctx).status,
            old(ctx).wf() ==> final(ctx).wf(),
            final(ctx).players@ == match self.stage() {
                PhaseView::Configuring { uuid, name } => old(ctx).players@.remove(uuid.value),
                _ => old(ctx).players@,
            },
    {
        if let Phase::Configuring { uuid, .. } = self.phase {
            let _ = ctx.players.remove(uuid);
        }
    }
}

/// A framed connection to one client.
pub struct Connection {
    session: Session,
    decoder: Decoder,
    encoder: Encoder,
}

impl Connection {
    /// What the client does to the server.
    pub closed spec fn talk(&self) -> Session {
        self.session
    }

    /// What splits the bytes from the client into packets.
    pub closed spec fn inbound(&self) -> Decoder {
        self.decoder
    }

    /// What frames the packets for the client.
    pub closed spec fn outbound(&self) -> Encoder {
        self.encoder
    }

    #[must_use]
    pub fn new(addr: String) -> (connection: Self)
        ensures
            connection.talk().stage() == PhaseView::Handshaking,
            connection.talk().peer() == addr@,
            connection.inbound().pending() == Seq::<u8>::empty(),
            connection.inbound().compression() is None,
            connection.inbound().cipher() is None,
            connection.outbound().compression() is None,
            connection.outbound().cipher() is None,
    {
        Connection { session: Session::new(addr), decoder: Decoder::new(), encoder: Encoder::new() }
    }

    #[must_use]
    pub fn addr(&self) -> (addr: &str)
        ensures
            addr@ == self.talk().peer(),
    {
        self.session.addr()
    }

    /// What the client does to the server.
    #[must_use]
    pub fn session(&self) -> (session: &Session)
        ensures
            *session == self.talk(),
    {
        &self.session
    }

    /// Takes in bytes that were read.
    pub fn feed(&mut self, data: &mut [u8])
        ensures
            final(self).talk() == old(self).talk(),
            final(self).outbound() == old(self).outbound(),
            final(self).inbound().compression() == old(self).inbound().compression(),
            final(data)@ == codec::opened(old(self).inbound().cipher(), old(data)@),
            final(self).inbound().pending() == old(self).inbound().pending() + final(data)@,
            final(self).inbound().cipher() == codec::stepped(
                old(self).inbound().cipher(),
                old(data)@,
            ),
    {
        self.decoder.feed(data);
    }

    /// The next packet, where all of it has been read.
    pub fn read_packet(&mut self) -> (packet: core::result::Result<Option<Bytes>, ConnError>)
        ensures
            final(self).talk() == old(self).talk(),
            final(self).outbound() == old(self).outbound(),
            final(self).inbound().compression() == old(self).inbound().compression(),
            final(self).inbound().cipher() == old(self).inbound().cipher(),
            packet matches Err(e) ==> e is Protocol,
            codec::receives(
                old(self).inbound().compression(),
                old(self).inbound().pending(),
                final(self).inbound().pending(),
                match packet {
                    Ok(p) => Ok(p),
                    Err(e) => Err(e->Protocol_0),
                },
            ),
    {
        match self.decoder.decode() {
            Ok(packet) => Ok(packet),
            Err(e) => Err(ConnError::Protocol(e)),
        }
    }

    /// Answers one packet.
    pub fn step(&mut self, packet: &[u8], ctx: &mut ServerContext) -> (step: Step)
        ensures
            final(self).inbound() == old(self).inbound(),
            final(self).outbound() == old(self).outbound(),
            final(self).talk().peer() == old(self).talk().peer(),
            answers(
                old(self).talk().stage(),
                final(self).talk().stage(),
                old(self).talk().peer(),
                packet@,
                *old(ctx),
                *final(ctx),
                step@,
            ),
    {
        self.session.step(packet, ctx)
    }

    /// Does one thing for the client: frames a packet into `out`, or turns on
    /// compression.
    pub fn perform(&mut self, reply: &Reply, out: &mut BytesMut) -> (done: core::result::Result<
        (),
        ConnError,
    >)
        ensures
            final(self).talk() == old(self).talk(),
            final(self).inbound().pending() == old(self).inbound().pending(),
            final(self).inbound().cipher() == old(self).inbound().cipher(),
            done matches Err(e) ==> e is Protocol,
            match reply@ {
                ReplyView::Send(packet) => {
                    &&& final(self).inbound() == old(self).inbound()
                    &&& final(self).outbound().compression() == old(self).outbound().compression()
                    &&& codec::transmits(
                        old(self).outbound().compression(),
                        old(self).outbound().cipher(),
                        packet,
                        buffer::bytes_mut_content(*old(out)),
                        buffer::bytes_mut_content(*final(out)),
                        final(self).outbound().cipher(),
                        match done {
                            Ok(()) => Ok(()),
                            Err(e) => Err(e->Protocol_0),
                        },
                    )
                },
                ReplyView::Compress(threshold) => {
                    &&& done is Ok
                    &&& final(self).inbound().compression() == Some(threshold)
                    &&& final(self).outbound().compression() == Some(threshold)
                    &&& final(self).outbound().cipher() == old(self).outbound().cipher()
                    &&& buffer::bytes_mut_content(*final(out)) == buffer::bytes_mut_content(
                        *old(out),
                    )
                },
            },
    {
        match reply {
            Reply::Send(packet) => match self.encoder.encode(packet.as_slice(), out) {
                Ok(()) => Ok(()),
                Err(e) => Err(ConnError::Protocol(e)),
            },
            Reply::Compress(threshold) => {
                self.enable_compression(*threshold);
                Ok(())
            },
        }
    }

    /// Takes leave of the server: a client that counted among the players no
    /// longer does.
    pub fn close(self, ctx: &mut ServerContext)
        ensures
            final(ctx).config == old(ctx).config,
            final(ctx).states == old(ctx).states,
            final(ctx).limits == old(ctx).limits,
            final(ctx).status == old(ctx).status,
            old(ctx).wf() ==> final(ctx).wf(),
            final(ctx).players@ == match self.talk().stage() {
                PhaseView::Configuring { uuid, name } => old(ctx).players@.remove(uuid.value),
                _ => old(ctx).players@,
            },
    {
        self.session.close(ctx);
    }

    /// Frames one packet into `out`.
    pub fn send<P: ClientboundPacket>(
        &mut self,
        packet: &P,
        out: &mut BytesMut,
    ) -> (sent: core::result::Result<(), ConnError>)
        ensures
            final(self).talk() == old(self).talk(),
            final(self).inbound() == old(self).inbound(),
            final(self).outbound().compression() == old(self).outbound().compression(),
            sent matches Err(e) ==> e is Protocol,
            codec::transmits(
                old(self).outbound().compression(),
                old(self).outbound().cipher(),
                packets::packet_bytes(*packet),
                buffer::bytes_mut_content(*old(out)),
                buffer::bytes_mut_content(*final(out)),
                final(self).outbound().cipher(),
                match sent {
                    Ok(()) => Ok(()),
                    Err(e) => Err(e->Protocol_0),
                },
            ),
    {
        let mut scratch: Vec<u8> = Vec::new();
        packets::encode(packet, &mut scratch);
        match self.encoder.encode(scratch.as_slice(), out) {
            Ok(()) => Ok(()),
            Err(e) => Err(ConnError::Protocol(e)),
        }
    }

    /// Enables compression on both directions.
    ///
    /// Must be called only after `SetCompression` has been written, since that
    /// packet itself travels uncompressed.
    pub fn enable_compression(&mut self, threshold: usize)
        ensures
            final(self).talk() == old(self).talk(),
            final(self).inbound().compression() == Some(threshold),
            final(self).inbound().pending() == old(self).inbound().pending(),
            final(self).inbound().cipher() == old(self).inbound().cipher(),
            final(self).outbound().compression() == Some(threshold),
            final(self).outbound().cipher() == old(self).outbound().cipher(),
    {
        self.encoder.enable_compression(threshold);
        self.decoder.enable_compression(threshold);
    }
}

/// The compression in force when reply `i` is done.
pub open spec fn compression_at(
    start: Option<usize>,
    replies: Seq<ReplyView>,
    i: int,
) -> Option<usize>
    decreases i,
{
    if i <= 0 {
        start
    } else {
        match replies[i - 1] {
            ReplyView::Compress(threshold) => Some(threshold),
            ReplyView::Send(_) => compression_at(start, replies, i - 1),
        }
    }
}

/// Compression is announced by a packet that is itself not compressed, and the
/// very next packet, which confirms the login, is under it.
pub proof fn law_announcement_is_uncompressed(config: ServerConfig, uuid: Uuid, name: Seq<char>)
    requires
        config::threshold_of(config) is Some,
    ensures
        ({
            let replies = acceptance(config, uuid, name);
            let threshold = config::threshold_of(config)->0;
            &&& replies.len() == 3
            &&& replies[0] == ReplyView::Send(set_compression_bytes(threshold as i32))
            &&& compression_at(None, replies, 0) is None
            &&& replies[2] == ReplyView::Send(
                login_finished_bytes(uuid, name, config.login_finished_flag),
            )
            &&& compression_at(None, replies, 2) == Some(threshold)
        }),
{
}

/// A packet of an id and a body is taken apart into them.
pub proof fn lemma_parted(id: i32, body: Seq<u8>)
    ensures
        parted(varint::varint_bytes(id) + body) == Ok::<(i32, Seq<u8>), ProtocolError>((id, body)),
{
    varint::law_varint_round_trip(id, body);
    assert((varint::varint_bytes(id) + body).skip(varint::varint_bytes(id).len() as int) =~= body);
}

/// A ping is answered by a pong with its payload, whether or not the document
/// was asked for before, and that ends the exchange.
pub proof fn law_ping_is_echoed(payload: i64)
    ensures
        ping_move(
            varint::varint_bytes(ids::status::serverbound::PING_REQUEST) + wire::be64(
                payload as u64,
            ),
        ) == PingMove::Pong(payload),
{
    let body = wire::be64(payload as u64);
    lemma_parted(ids::status::serverbound::PING_REQUEST, body);
    reader::lemma_reads_i64(payload, Seq::empty());
    assert(body + Seq::<u8>::empty() =~= body);
}

/// An empty status request is answered with the document.
pub proof fn law_status_request_gets_document()
    ensures
        ping_move(varint::varint_bytes(ids::status::serverbound::STATUS_REQUEST))
            == PingMove::Document,
{
    let packet = varint::varint_bytes(ids::status::serverbound::STATUS_REQUEST);
    lemma_parted(ids::status::serverbound::STATUS_REQUEST, Seq::empty());
    assert(packet + Seq::<u8>::empty() =~= packet);
}

/// A client that asks to log in is let in to name itself where it speaks the
/// version of this server, and told why not otherwise.
pub proof fn law_versions_must_match(f: handshake::IntentionFields)
    requires
        f.server_address.len() <= handshake::MAX_ADDRESS_LEN,
        utf8::encode_utf8(f.server_address).len() <= reader::max_string_bytes(
            handshake::MAX_ADDRESS_LEN,
        ),
        f.next_state != handshake::NextState::Status,
    ensures
        opening(
            varint::varint_bytes(ids::handshaking::serverbound::INTENTION)
                + handshake::intention_bytes(f),
        ) == if f.protocol_version == version::PROTOCOL_VERSION {
            (PhaseView::Login, silence())
        } else {
            (
                PhaseView::Handshaking,
                parting(
                    login_disconnect_bytes(version_notice(f.protocol_version)),
                    Failure::UnsupportedVersion {
                        got: f.protocol_version,
                        expected: version::PROTOCOL_VERSION,
                    },
                ),
            )
        },
{
    let body = handshake::intention_bytes(f);
    lemma_parted(ids::handshaking::serverbound::INTENTION, body);
    handshake::law_intention_round_trip(f, Seq::empty());
    assert(body + Seq::<u8>::empty() =~= body);
}

/// A client with a name within its limit is accepted in offline mode, under the
/// UUID that its name gives and not under the one that it claims.
pub proof fn law_claimed_identity_is_ignored(config: ServerConfig, f: login_packets::HelloFields)
    requires
        !config.online_mode,
        f.name.len() <= login_packets::MAX_USERNAME_LEN,
        utf8::encode_utf8(f.name).len() <= reader::max_string_bytes(
            login_packets::MAX_USERNAME_LEN,
        ),
    ensures
        ({
            let uuid = player::offline_id(f.name);
            greeting(
                varint::varint_bytes(ids::login::serverbound::HELLO)
                    + login_packets::hello_bytes(f),
                config,
            ) == (
                PhaseView::Acknowledging { uuid, name: f.name },
                StepView { replies: acceptance(config, uuid, f.name), ..silence() },
            )
        }),
{
    let body = login_packets::hello_bytes(f);
    lemma_parted(ids::login::serverbound::HELLO, body);
    login_packets::law_hello_round_trip(f, Seq::empty());
    assert(body + Seq::<u8>::empty() =~= body);
}

/// Where identities would have to be verified, no client is let in, whatever it
/// calls itself, and it is told why.
pub proof fn law_online_mode_is_refused(config: ServerConfig, f: login_packets::HelloFields)
    requires
        config.online_mode,
        f.name.len() <= login_packets::MAX_USERNAME_LEN,
        utf8::encode_utf8(f.name).len() <= reader::max_string_bytes(
            login_packets::MAX_USERNAME_LEN,
        ),
    ensures
        greeting(
            varint::varint_bytes(ids::login::serverbound::HELLO) + login_packets::hello_bytes(f),
            config,
        ) == (
            PhaseView::Login,
            parting(
                login_disconnect_bytes(online_mode_notice()),
                Failure::Rejected("online mode is not implemented"@),
            ),
        ),
{
    let body = login_packets::hello_bytes(f);
    lemma_parted(ids::login::serverbound::HELLO, body);
    login_packets::law_hello_round_trip(f, Seq::empty());
    assert(body + Seq::<u8>::empty() =~= body);
}

/// A client that acknowledges its login either counts among the players from
/// then on, or is told why it does not.
pub proof fn law_login_enters_or_is_told_why(
    uuid: Uuid,
    name: Seq<char>,
    after: PhaseView,
    peer: Seq<char>,
    was: ServerContext,
    now: ServerContext,
    step: StepView,
)
    requires
        answers(
            PhaseView::Acknowledging { uuid, name },
            after,
            peer,
            varint::varint_bytes(ids::login::serverbound::LOGIN_ACKNOWLEDGED),
            was,
            now,
            step,
        ),
    ensures
        match player::refused(was.players@, name, capacity_of(was.config)) {
            Some(why) => {
                &&& step == parting(
                    config_disconnect_bytes(join_notice(why)),
                    Failure::Rejected(player::join_error_text(why)@),
                )
                &&& now.players@ == was.players@
            },
            None => {
                &&& after == PhaseView::Configuring { uuid, name }
                &&& step.outcome is None
                &&& now.players@.contains_key(uuid.value)
                &&& now.players@[uuid.value].name@ == name
                &&& now.players@[uuid.value].addr@ == peer
            },
        },
{
    let packet = varint::varint_bytes(ids::login::serverbound::LOGIN_ACKNOWLEDGED);
    lemma_parted(ids::login::serverbound::LOGIN_ACKNOWLEDGED, Seq::empty());
    assert(packet + Seq::<u8>::empty() =~= packet);
}

/// Whatever a client sends, the server never holds more players than it admits.
pub proof fn law_steps_keep_capacity(
    stage: PhaseView,
    after: PhaseView,
    peer: Seq<char>,
    packet: Seq<u8>,
    was: ServerContext,
    now: ServerContext,
    step: StepView,
)
    requires
        was.wf(),
        was.players@.len() <= capacity_of(was.config),
        answers(stage, after, peer, packet, was, now, step),
    ensures
        now.players@.len() <= capacity_of(now.config),
{
}

/// Nobody comes to count among the players, or ceases to, but by acknowledging
/// a login: in particular not by a server-list ping.
pub proof fn law_only_logins_change_players(
    stage: PhaseView,
    after: PhaseView,
    peer: Seq<char>,
    packet: Seq<u8>,
    was: ServerContext,
    now: ServerContext,
    step: StepView,
)
    requires
        stage !is Acknowledging,
        answers(stage, after, peer, packet, was, now, step),
    ensures
        now.players == was.players,
{
}

/// A client that has named its data packs is told that the world cannot be
/// entered, and that ends the connection.
pub proof fn law_configuration_ends_with_an_explanation(
    config: ServerConfig,
    packs: Seq<config_packets::PackFields>,
)
    requires
        packs.len() <= config_packets::MAX_KNOWN_PACKS,
        forall|i: int| 0 <= i < packs.len() ==> config_packets::pack_fits(#[trigger] packs[i]),
    ensures
        configuring(
            varint::varint_bytes(ids::configuration::serverbound::SELECT_KNOWN_PACKS)
                + config_packets::packs_bytes(packs),
            config,
        ) == parting(
            config_disconnect_bytes(registry_notice()),
            Failure::Rejected("registry data not loaded"@),
        ),
{
    let body = config_packets::packs_bytes(packs);
    lemma_parted(ids::configuration::serverbound::SELECT_KNOWN_PACKS, body);
    config_packets::law_known_packs_round_trip(packs, Seq::empty());
    assert(body + Seq::<u8>::empty() =~= body);
}

/// A player who was let in and left is gone, and everyone else is where they
/// were.
pub proof fn law_leaving_undoes_entering(
    before: Map<u128, PlayerInfo>,
    after: Map<u128, PlayerInfo>,
    uuid: Uuid,
    name: Seq<char>,
    addr: Seq<char>,
)
    requires
        !before.contains_key(uuid.value),
        entered(before, after, uuid, name, addr),
    ensures
        after.remove(uuid.value) == before,
{
    assert(after.remove(uuid.value) =~= before);
}

} // verus!
