//! Status state: the server list ping.
//!
//! This exchange is unauthenticated and unencrypted, and a busy server answers
//! far more pings than logins, so the response JSON is built once and cached by
//! the caller rather than rebuilt per connection.

use vstd::prelude::*;

use crate::protocol::error::{ProtocolError, Result};
use crate::protocol::json;
use crate::protocol::packets::{ids, ClientboundPacket, ServerboundPacket};
use crate::protocol::reader::{PacketReader, Parse};
use crate::protocol::reader;
use crate::protocol::text::{Component, Message};
use crate::protocol::text;
use crate::protocol::version::{MINECRAFT_VERSION, PROTOCOL_VERSION};
use crate::protocol::wire;
use crate::protocol::writer::PacketWrite;
use crate::protocol::writer;

verus! {

/// Empty request asking for the server description.
#[derive(Debug, Clone, Copy, PartialEq, Eq)]
pub struct StatusRequest;

impl ServerboundPacket for StatusRequest {
    type Fields = ();

    const ID: i32 = ids::status::serverbound::STATUS_REQUEST;

    const NAME: &'static str = "StatusRequest";

    open spec fn packet_id() -> i32 {
        ids::status::serverbound::STATUS_REQUEST
    }

    proof fn lemma_id() {
    }

    open spec fn fields(&self) -> () {
        ()
    }

    open spec fn parse_body(s: Seq<u8>) -> Parse<()> {
        (Ok(()), s)
    }

    fn decode_body(_r: &mut PacketReader<'_>) -> (read: Result<Self>) {
        Ok(StatusRequest)
    }
}

/// Latency probe. The payload is opaque and must be echoed verbatim.
#[derive(Debug, Clone, Copy, PartialEq, Eq, Structural)]
pub struct PingRequest {
    pub payload: i64,
}

impl ServerboundPacket for PingRequest {
    type Fields = PingRequest;

    const ID: i32 = ids::status::serverbound::PING_REQUEST;

    const NAME: &'static str = "PingRequest";

    open spec fn packet_id() -> i32 {
        ids::status::serverbound::PING_REQUEST
    }

    proof fn lemma_id() {
    }

    open spec fn fields(&self) -> PingRequest {
        *self
    }

    open spec fn parse_body(s: Seq<u8>) -> Parse<PingRequest> {
        match reader::parse_i64(s) {
            (Err(e), t) => (Err(e), t),
            (Ok(payload), t) => (Ok(PingRequest { payload }), t),
        }
    }

    fn decode_body(r: &mut PacketReader<'_>) -> (read: Result<Self>) {
        let payload: i64 = r.read_i64()?;
        Ok(PingRequest { payload })
    }
}

/// The server description, as a JSON document.
#[derive(Debug, Clone, PartialEq, Eq)]
pub struct StatusResponse {
    pub json: String,
}

impl ClientboundPacket for StatusResponse {
    const ID: i32 = ids::status::clientbound::STATUS_RESPONSE;

    const NAME: &'static str = "StatusResponse";

    open spec fn packet_id() -> i32 {
        ids::status::clientbound::STATUS_RESPONSE
    }

    proof fn lemma_id() {
    }

    open spec fn body(&self) -> Seq<u8> {
        writer::string_bytes(self.json@)
    }

    fn encode_body(&self, out: &mut Vec<u8>) {
        out.write_string(self.json.as_str());
    }
}

/// Echo of [`PingRequest`].
#[derive(Debug, Clone, Copy, PartialEq, Eq, Structural)]
pub struct PongResponse {
    pub payload: i64,
}

impl ClientboundPacket for PongResponse {
    const ID: i32 = ids::status::clientbound::PONG_RESPONSE;

    const NAME: &'static str = "PongResponse";

    open spec fn packet_id() -> i32 {
        ids::status::clientbound::PONG_RESPONSE
    }

    proof fn lemma_id() {
    }

    open spec fn body(&self) -> Seq<u8> {
        wire::be64(self.payload as u64)
    }

    fn encode_body(&self, out: &mut Vec<u8>) {
        out.write_i64(self.payload);
    }
}

/// A pong carries the very bytes of the ping it answers.
pub proof fn law_pong_echoes_ping(ping: PingRequest, tail: Seq<u8>)
    ensures
        PingRequest::parse_body((PongResponse { payload: ping.payload }).body() + tail) == (
            Ok::<PingRequest, ProtocolError>(ping),
            tail,
        ),
{
    reader::lemma_reads_i64(ping.payload, tail);
}

// ---------------------------------------------------------------------------
// Status document
// ---------------------------------------------------------------------------

#[derive(Debug, Clone, PartialEq, Eq)]
pub struct VersionInfo {
    pub name: String,
    pub protocol: i32,
}

impl Default for VersionInfo {
    fn default() -> (version: Self)
        ensures
            version.name@ == MINECRAFT_VERSION@,
            version.protocol == PROTOCOL_VERSION,
    {
        VersionInfo { name: MINECRAFT_VERSION.to_owned(), protocol: PROTOCOL_VERSION }
    }
}

#[derive(Debug, Clone, PartialEq, Eq)]
pub struct SamplePlayer {
    pub name: String,
    pub id: String,
}

#[derive(Debug, Clone, PartialEq, Eq)]
pub struct PlayersInfo {
    pub max: i32,
    pub online: i32,
    pub sample: Vec<SamplePlayer>,
}

impl Default for PlayersInfo {
    fn default() -> (players: Self)
        ensures
            players.max == 0,
            players.online == 0,
            players.sample@ == Seq::<SamplePlayer>::empty(),
    {
        PlayersInfo { max: 0, online: 0, sample: Vec::new() }
    }
}

/// The full status document sent in [`StatusResponse`].
#[derive(Debug, Clone, PartialEq)]
pub struct ServerStatus {
    pub version: VersionInfo,
    pub players: PlayersInfo,
    pub description: Component,
    /// A `data:image/png;base64,` URI, 64x64. Omitted when absent.
    pub favicon: Option<String>,
    pub enforces_secure_chat: bool,
}

/// What a [`ServerStatus`] holds.
pub struct StatusFields {
    pub version: Seq<char>,
    pub protocol: i32,
    pub max: i32,
    pub online: i32,
    /// The name and the id of each sample player.
    pub sample: Seq<(Seq<char>, Seq<char>)>,
    pub description: Message,
    pub favicon: Option<Seq<char>>,
    pub enforces_secure_chat: bool,
}

/// The name and the id of each of some sample players.
pub open spec fn sample_fields(sample: Seq<SamplePlayer>) -> Seq<(Seq<char>, Seq<char>)> {
    Seq::new(sample.len(), |i: int| (sample[i].name@, sample[i].id@))
}

impl View for ServerStatus {
    type V = StatusFields;

    open spec fn view(&self) -> StatusFields {
        StatusFields {
            version: self.version.name@,
            protocol: self.version.protocol,
            max: self.players.max,
            online: self.players.online,
            sample: sample_fields(self.players.sample@),
            description: self.description@,
            favicon: text::chars(self.favicon),
            enforces_secure_chat: self.enforces_secure_chat,
        }
    }
}

/// The JSON form of a version.
pub open spec fn version_json(name: Seq<char>, protocol: i32) -> Seq<char> {
    let members = json::with_member(
        "\"name\":"@ + json::json_string(name),
        "\"protocol\":"@ + json::decimal(protocol as int),
    );
    "{"@ + members + "}"@
}

/// The JSON form of one sample player.
pub open spec fn sample_json(player: (Seq<char>, Seq<char>)) -> Seq<char> {
    let members = json::with_member(
        "\"name\":"@ + json::json_string(player.0),
        "\"id\":"@ + json::json_string(player.1),
    );
    "{"@ + members + "}"@
}

/// The JSON forms of sample players, separated by commas.
pub open spec fn samples_json(sample: Seq<(Seq<char>, Seq<char>)>) -> Seq<char>
    decreases sample.len(),
{
    if sample.len() == 0 {
        Seq::empty()
    } else {
        json::with_member(samples_json(sample.drop_last()), sample_json(sample.last()))
    }
}

/// The JSON form of the player counts, with the sample where there is one.
pub open spec fn players_json(
    max: i32,
    online: i32,
    sample: Seq<(Seq<char>, Seq<char>)>,
) -> Seq<char> {
    let counts = json::with_member(
        "\"max\":"@ + json::decimal(max as int),
        "\"online\":"@ + json::decimal(online as int),
    );
    let members = if sample.len() == 0 {
        counts
    } else {
        json::with_member(counts, "\"sample\":"@ + ("["@ + samples_json(sample) + "]"@))
    };
    "{"@ + members + "}"@
}

/// The JSON form of the status document.
pub open spec fn status_json(s: StatusFields) -> Seq<char> {
    let m = "\"version\":"@ + version_json(s.version, s.protocol);
    let m = json::with_member(m, "\"players\":"@ + players_json(s.max, s.online, s.sample));
    let m = json::with_member(m, "\"description\":"@ + text::json_form(s.description));
    let m = match s.favicon {
        Some(uri) => json::with_member(m, "\"favicon\":"@ + json::json_string(uri)),
        None => m,
    };
    let m = json::with_member(m, "\"enforcesSecureChat\":"@
        + json::json_bool(s.enforces_secure_chat));
    "{"@ + m + "}"@
}

impl Default for ServerStatus {
    fn default() -> (status: Self)
        ensures
            status.version.name@ == MINECRAFT_VERSION@,
            status.version.protocol == PROTOCOL_VERSION,
            status.players.max == 0,
            status.players.online == 0,
            status.players.sample@ == Seq::<SamplePlayer>::empty(),
            status.description@ == text::blank(),
            status.favicon is None,
            !status.enforces_secure_chat,
    {
        ServerStatus {
            version: VersionInfo::default(),
            players: PlayersInfo::default(),
            description: Component::default(),
            favicon: None,
            enforces_secure_chat: false,
        }
    }
}

fn version_object(v: &VersionInfo) -> (out: String)
    ensures
        out@ == version_json(v.name@, v.protocol),
{
    let mut out: String = String::new();
    json::add_field(&mut out, "\"name\":", json::quote(v.name.as_str()).as_str());
    json::add_field(&mut out, "\"protocol\":", json::number(v.protocol as i128).as_str());
    json::enclose("{", out.as_str(), "}")
}

fn sample_object(p: &SamplePlayer) -> (out: String)
    ensures
        out@ == sample_json((p.name@, p.id@)),
{
    let mut out: String = String::new();
    json::add_field(&mut out, "\"name\":", json::quote(p.name.as_str()).as_str());
    json::add_field(&mut out, "\"id\":", json::quote(p.id.as_str()).as_str());
    json::enclose("{", out.as_str(), "}")
}

fn players_object(p: &PlayersInfo) -> (out: String)
    ensures
        out@ == players_json(p.max, p.online, sample_fields(p.sample@)),
{
    let mut out: String = String::new();
    json::add_field(&mut out, "\"max\":", json::number(p.max as i128).as_str());
    json::add_field(&mut out, "\"online\":", json::number(p.online as i128).as_str());
    if p.sample.len() > 0 {
        let mut list: String = String::new();
        let mut i: usize = 0;
        let ghost all = sample_fields(p.sample@);
        assert(all.take(0) =~= Seq::<(Seq<char>, Seq<char>)>::empty());
        while i < p.sample.len()
            invariant
                i <= p.sample@.len(),
                all == sample_fields(p.sample@),
                list@ == samples_json(all.take(i as int)),
            decreases p.sample@.len() - i,
        {
            let one = sample_object(&p.sample[i]);
            json::add_member(&mut list, one.as_str());
            assert(all.take(i + 1).drop_last() =~= all.take(i as int));
            i += 1;
        }
        assert(all.take(i as int) =~= all);
        let array = json::enclose("[", list.as_str(), "]");
        json::add_field(&mut out, "\"sample\":", array.as_str());
    }
    json::enclose("{", out.as_str(), "}")
}

impl ServerStatus {
    #[must_use]
    pub fn new(description: Component, online: i32, max: i32) -> (status: Self)
        ensures
            status.version.name@ == MINECRAFT_VERSION@,
            status.version.protocol == PROTOCOL_VERSION,
            status.players.max == max,
            status.players.online == online,
            status.players.sample@ == Seq::<SamplePlayer>::empty(),
            status.description@ == description@,
            status.favicon is None,
            !status.enforces_secure_chat,
    {
        ServerStatus {
            version: VersionInfo::default(),
            players: PlayersInfo { max, online, sample: Vec::new() },
            description,
            favicon: None,
            enforces_secure_chat: false,
        }
    }

    #[must_use]
    pub fn to_json(&self) -> (json: String)
        ensures
            json@ == status_json(self@),
    {
        let mut out: String = String::new();
        json::add_field(&mut out, "\"version\":", version_object(&self.version).as_str());
        json::add_field(&mut out, "\"players\":", players_object(&self.players).as_str());
        json::add_field(&mut out, "\"description\":", self.description.to_json().as_str());
        if let Some(uri) = &self.favicon {
            json::add_field(&mut out, "\"favicon\":", json::quote(uri.as_str()).as_str());
        }
        json::add_field(
            &mut out,
            "\"enforcesSecureChat\":",
            json::boolean(self.enforces_secure_chat),
        );
        json::enclose("{", out.as_str(), "}")
    }
}

} // verus!
