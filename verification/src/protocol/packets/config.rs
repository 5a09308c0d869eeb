//! Configuration state.
//!
//! Between login and play the server ships the data-driven registries that the
//! client needs before it can render a world. A server can also return here
//! later to reconfigure a player without disconnecting them.

use vstd::prelude::*;
use vstd::utf8;

use crate::protocol::error::{ProtocolError, Result};
use crate::protocol::nbt;
use crate::protocol::nbt::{NbtTag, NbtValue, MAX_DEPTH};
use crate::protocol::packets::{ids, ClientboundPacket, ServerboundPacket};
use crate::protocol::reader::{PacketReader, Parse, DEFAULT_MAX_STRING_LEN};
use crate::protocol::reader;
use crate::protocol::text::Component;
use crate::protocol::text;
use crate::protocol::varint;
use crate::protocol::version::MINECRAFT_VERSION;
use crate::protocol::wire::copy_bytes;
use crate::protocol::wire;
use crate::protocol::writer::PacketWrite;
use crate::protocol::writer;

verus! {

pub const MAX_LOCALE_LEN: usize = 16;

pub const MAX_REGISTRY_ENTRIES: usize = 0x1_0000;

pub const MAX_KNOWN_PACKS: usize = 1024;

/// How much chat the client wants to see.
#[derive(Debug, Clone, Copy, PartialEq, Eq, Structural)]
pub enum ChatMode {
    Enabled,
    CommandsOnly,
    Hidden,
}

/// The number of a chat mode on the wire.
pub open spec fn chat_mode_id(mode: ChatMode) -> i32 {
    match mode {
        ChatMode::Enabled => 0,
        ChatMode::CommandsOnly => 1,
        ChatMode::Hidden => 2,
    }
}

/// The chat mode that a number stands for.
pub open spec fn parse_chat_mode(id: i32) -> Result<ChatMode> {
    if id == 0 {
        Ok(ChatMode::Enabled)
    } else if id == 1 {
        Ok(ChatMode::CommandsOnly)
    } else if id == 2 {
        Ok(ChatMode::Hidden)
    } else {
        Err(ProtocolError::InvalidEnum { kind: "ChatMode", value: id as i64 })
    }
}

impl Default for ChatMode {
    fn default() -> (mode: Self)
        ensures
            mode == ChatMode::Enabled,
    {
        ChatMode::Enabled
    }
}

impl ChatMode {
    pub fn from_id(id: i32) -> (mode: Result<Self>)
        ensures
            mode == parse_chat_mode(id),
    {
        match id {
            0 => Ok(ChatMode::Enabled),
            1 => Ok(ChatMode::CommandsOnly),
            2 => Ok(ChatMode::Hidden),
            other => Err(ProtocolError::InvalidEnum { kind: "ChatMode", value: other as i64 }),
        }
    }

    #[must_use]
    pub fn id(self) -> (id: i32)
        ensures
            id == chat_mode_id(self),
    {
        match self {
            ChatMode::Enabled => 0,
            ChatMode::CommandsOnly => 1,
            ChatMode::Hidden => 2,
        }
    }
}

/// The client's display and privacy settings.
///
/// `view_distance` in particular is a request, not a command: the server clamps
/// it to its own configured maximum.
#[derive(Debug, Clone, PartialEq, Eq)]
pub struct ClientInformation {
    pub locale: String,
    pub view_distance: i8,
    pub chat_mode: ChatMode,
    pub chat_colors: bool,
    pub displayed_skin_parts: u8,
    /// 0 = left, 1 = right.
    pub main_hand: i32,
    pub text_filtering_enabled: bool,
    /// Whether the player may appear in the server list sample.
    pub allows_listing: bool,
    /// Particle detail level.
    pub particle_status: i32,
}

/// What a [`ClientInformation`] holds.
pub struct ClientInformationFields {
    pub locale: Seq<char>,
    pub view_distance: i8,
    pub chat_mode: ChatMode,
    pub chat_colors: bool,
    pub displayed_skin_parts: u8,
    pub main_hand: i32,
    pub text_filtering_enabled: bool,
    pub allows_listing: bool,
    pub particle_status: i32,
}

/// The body of a [`ClientInformation`].
pub open spec fn client_information_bytes(f: ClientInformationFields) -> Seq<u8> {
    writer::string_bytes(f.locale) + seq![f.view_distance as u8]
        + varint::varint_bytes(chat_mode_id(f.chat_mode))
        + seq![writer::bool_byte(f.chat_colors)] + seq![f.displayed_skin_parts]
        + varint::varint_bytes(f.main_hand)
        + seq![writer::bool_byte(f.text_filtering_enabled)]
        + seq![writer::bool_byte(f.allows_listing)]
        + varint::varint_bytes(f.particle_status)
}

impl ClientInformation {
    pub fn encode_body(&self, out: &mut Vec<u8>)
        ensures
            final(out)@ == old(out)@ + client_information_bytes(self.fields()),
    {
        out.write_string(self.locale.as_str());
        out.write_i8(self.view_distance);
        out.write_varint(self.chat_mode.id());
        out.write_bool(self.chat_colors);
        out.write_u8(self.displayed_skin_parts);
        out.write_varint(self.main_hand);
        out.write_bool(self.text_filtering_enabled);
        out.write_bool(self.allows_listing);
        out.write_varint(self.particle_status);
        assert(out@ =~= old(out)@ + client_information_bytes(self.fields()));
    }
}

impl ServerboundPacket for ClientInformation {
    type Fields = ClientInformationFields;

    const ID: i32 = ids::configuration::serverbound::CLIENT_INFORMATION;

    const NAME: &'static str = "ClientInformation";

    open spec fn packet_id() -> i32 {
        ids::configuration::serverbound::CLIENT_INFORMATION
    }

    proof fn lemma_id() {
    }

    open spec fn fields(&self) -> ClientInformationFields {
        ClientInformationFields {
            locale: self.locale@,
            view_distance: self.view_distance,
            chat_mode: self.chat_mode,
            chat_colors: self.chat_colors,
            displayed_skin_parts: self.displayed_skin_parts,
            main_hand: self.main_hand,
            text_filtering_enabled: self.text_filtering_enabled,
            allows_listing: self.allows_listing,
            particle_status: self.particle_status,
        }
    }

    open spec fn parse_body(s: Seq<u8>) -> Parse<ClientInformationFields> {
        match reader::parse_string(s, MAX_LOCALE_LEN) {
            (Err(e), t) => (Err(e), t),
            (Ok(locale), t) => match reader::parse_i8(t) {
                (Err(e), t) => (Err(e), t),
                (Ok(view_distance), t) => match reader::take_varint(t) {
                    (Err(e), t) => (Err(e), t),
                    (Ok(mode), t) => match parse_chat_mode(mode) {
                        Err(e) => (Err(e), t),
                        Ok(chat_mode) => match reader::parse_bool(t) {
                            (Err(e), t) => (Err(e), t),
                            (Ok(chat_colors), t) => match reader::parse_u8(t) {
                                (Err(e), t) => (Err(e), t),
                                (Ok(displayed_skin_parts), t) => match reader::take_varint(t) {
                                    (Err(e), t) => (Err(e), t),
                                    (Ok(main_hand), t) => match reader::parse_bool(t) {
                                        (Err(e), t) => (Err(e), t),
                                        (Ok(text_filtering_enabled), t) => match reader::parse_bool(t) {
                                            (Err(e), t) => (Err(e), t),
                                            (Ok(allows_listing), t) => match reader::take_varint(t) {
                                                (Err(e), t) => (Err(e), t),
                                                (Ok(particle_status), t) => (
                                                    Ok(
                                                        ClientInformationFields {
                                                            locale,
                                                            view_distance,
                                                            chat_mode,
                                                            chat_colors,
                                                            displayed_skin_parts,
                                                            main_hand,
                                                            text_filtering_enabled,
                                                            allows_listing,
                                                            particle_status,
                                                        },
                                                    ),
                                                    t,
                                                ),
                                            },
                                        },
                                    },
                                },
                            },
                        },
                    },
                },
            },
        }
    }

    fn decode_body(r: &mut PacketReader<'_>) -> (read: Result<Self>) {
        let locale = r.read_string(MAX_LOCALE_LEN)?;
        let view_distance: i8 = r.read_i8()?;
        let mode: i32 = r.read_varint()?;
        let chat_mode = ChatMode::from_id(mode)?;
        let chat_colors: bool = r.read_bool()?;
        let displayed_skin_parts: u8 = r.read_u8()?;
        let main_hand: i32 = r.read_varint()?;
        let text_filtering_enabled: bool = r.read_bool()?;
        let allows_listing: bool = r.read_bool()?;
        let particle_status: i32 = r.read_varint()?;
        Ok(
            ClientInformation {
                locale,
                view_distance,
                chat_mode,
                chat_colors,
                displayed_skin_parts,
                main_hand,
                text_filtering_enabled,
                allows_listing,
                particle_status,
            },
        )
    }
}

/// Client settings whose locale is within its limit are read back as they were
/// written.
#[verifier::spinoff_prover]
#[verifier::rlimit(60)]
pub proof fn law_client_information_round_trip(f: ClientInformationFields, tail: Seq<u8>)
    requires
        f.locale.len() <= MAX_LOCALE_LEN,
        utf8::encode_utf8(f.locale).len() <= reader::max_string_bytes(MAX_LOCALE_LEN),
    ensures
        ClientInformation::parse_body(client_information_bytes(f) + tail) == (
            Ok::<ClientInformationFields, ProtocolError>(f),
            tail,
        ),
{
    let a = varint::varint_bytes(f.particle_status) + tail;
    let b = seq![writer::bool_byte(f.allows_listing)] + a;
    let c = seq![writer::bool_byte(f.text_filtering_enabled)] + b;
    let d = varint::varint_bytes(f.main_hand) + c;
    let e = seq![f.displayed_skin_parts] + d;
    let g = seq![writer::bool_byte(f.chat_colors)] + e;
    let h = varint::varint_bytes(chat_mode_id(f.chat_mode)) + g;
    let i = seq![f.view_distance as u8] + h;
    reader::law_string_round_trip(f.locale, MAX_LOCALE_LEN, i);
    reader::lemma_reads_i8(f.view_distance, h);
    reader::lemma_reads_varint(chat_mode_id(f.chat_mode), g);
    reader::lemma_reads_bool(f.chat_colors, e);
    reader::lemma_reads_u8(f.displayed_skin_parts, d);
    reader::lemma_reads_varint(f.main_hand, c);
    reader::lemma_reads_bool(f.text_filtering_enabled, b);
    reader::lemma_reads_bool(f.allows_listing, a);
    reader::lemma_reads_varint(f.particle_status, tail);
    assert(client_information_bytes(f) + tail =~= writer::string_bytes(f.locale) + i);
}

/// Client signals it has finished configuring and is ready for play.
#[derive(Debug, Clone, Copy, PartialEq, Eq)]
pub struct FinishConfigurationAck;

impl ServerboundPacket for FinishConfigurationAck {
    type Fields = ();

    const ID: i32 = ids::configuration::serverbound::FINISH_CONFIGURATION;

    const NAME: &'static str = "FinishConfigurationAck";

    open spec fn packet_id() -> i32 {
        ids::configuration::serverbound::FINISH_CONFIGURATION
    }

    proof fn lemma_id() {
    }

    open spec fn fields(&self) -> () {
        ()
    }

    open spec fn parse_body(s: Seq<u8>) -> Parse<()> {
        (Ok(()), s)
    }

    fn decode_body(_r: &mut PacketReader<'_>) -> (read: Result<Self>) {
        Ok(FinishConfigurationAck)
    }
}

/// Server tells the client that configuration is done.
#[derive(Debug, Clone, Copy, PartialEq, Eq)]
pub struct FinishConfiguration;

impl ClientboundPacket for FinishConfiguration {
    const ID: i32 = ids::configuration::clientbound::FINISH_CONFIGURATION;

    const NAME: &'static str = "FinishConfiguration";

    open spec fn packet_id() -> i32 {
        ids::configuration::clientbound::FINISH_CONFIGURATION
    }

    proof fn lemma_id() {
    }

    open spec fn body(&self) -> Seq<u8> {
        Seq::empty()
    }

    fn encode_body(&self, out: &mut Vec<u8>) {
        assert(out@ =~= old(out)@ + self.body());
    }
}

/// Liveness probe, echoed by the client.
#[derive(Debug, Clone, Copy, PartialEq, Eq, Structural)]
pub struct KeepAlive {
    pub id: i64,
}

impl ClientboundPacket for KeepAlive {
    const ID: i32 = ids::configuration::clientbound::KEEP_ALIVE;

    const NAME: &'static str = "KeepAlive";

    open spec fn packet_id() -> i32 {
        ids::configuration::clientbound::KEEP_ALIVE
    }

    proof fn lemma_id() {
    }

    open spec fn body(&self) -> Seq<u8> {
        wire::be64(self.id as u64)
    }

    fn encode_body(&self, out: &mut Vec<u8>) {
        out.write_i64(self.id);
    }
}

impl ServerboundPacket for KeepAlive {
    type Fields = KeepAlive;

    const ID: i32 = ids::configuration::serverbound::KEEP_ALIVE;

    const NAME: &'static str = "KeepAlive";

    open spec fn packet_id() -> i32 {
        ids::configuration::serverbound::KEEP_ALIVE
    }

    proof fn lemma_id() {
    }

    open spec fn fields(&self) -> KeepAlive {
        *self
    }

    open spec fn parse_body(s: Seq<u8>) -> Parse<KeepAlive> {
        match reader::parse_i64(s) {
            (Err(e), t) => (Err(e), t),
            (Ok(id), t) => (Ok(KeepAlive { id }), t),
        }
    }

    fn decode_body(r: &mut PacketReader<'_>) -> (read: Result<Self>) {
        let id: i64 = r.read_i64()?;
        Ok(KeepAlive { id })
    }
}

/// A keep-alive is read back as it was written.
pub proof fn law_keep_alive_round_trip(packet: KeepAlive, tail: Seq<u8>)
    ensures
        KeepAlive::parse_body(packet.body() + tail) == (
            Ok::<KeepAlive, ProtocolError>(packet),
            tail,
        ),
{
    reader::lemma_reads_i64(packet.id, tail);
}

/// Kick during configuration. Carries NBT, unlike the login-state disconnect.
#[derive(Debug, Clone, PartialEq)]
pub struct Disconnect {
    pub reason: Component,
}

impl ClientboundPacket for Disconnect {
    const ID: i32 = ids::configuration::clientbound::DISCONNECT;

    const NAME: &'static str = "Disconnect";

    open spec fn packet_id() -> i32 {
        ids::configuration::clientbound::DISCONNECT
    }

    proof fn lemma_id() {
    }

    open spec fn body(&self) -> Seq<u8> {
        nbt::network_bytes(text::nbt_form(self.reason@))
    }

    fn encode_body(&self, out: &mut Vec<u8>) {
        let tag = self.reason.to_nbt();
        nbt::write_network(&tag, out);
    }
}

/// One registry entry: an id and, optionally, its definition.
///
/// Omitting the data means "use the client's built-in definition".
#[derive(Debug, Clone, PartialEq)]
pub struct RegistryEntry {
    pub entry_id: String,
    pub data: Option<NbtTag>,
}

/// What a [`RegistryEntry`] holds.
pub struct EntryFields {
    pub entry_id: Seq<char>,
    pub data: Option<NbtValue>,
}

impl View for RegistryEntry {
    type V = EntryFields;

    open spec fn view(&self) -> EntryFields {
        EntryFields {
            entry_id: self.entry_id@,
            data: match self.data {
                Some(tag) => Some(tag@),
                None => None,
            },
        }
    }
}

/// The bytes of a registry entry.
pub open spec fn entry_bytes(f: EntryFields) -> Seq<u8> {
    writer::string_bytes(f.entry_id) + match f.data {
        Some(value) => seq![1u8] + nbt::network_bytes(value),
        None => seq![0u8],
    }
}

/// The registry entry at the front of `s`.
pub open spec fn parse_entry(s: Seq<u8>) -> Parse<EntryFields> {
    match reader::parse_identifier(s) {
        (Err(e), t) => (Err(e), t),
        (Ok(entry_id), t) => match reader::parse_bool(t) {
            (Err(e), u) => (Err(e), u),
            (Ok(false), u) => (Ok(EntryFields { entry_id, data: None }), u),
            (Ok(true), u) => match nbt::parse_network(u) {
                (Err(e), v) => (Err(e), v),
                (Ok(value), v) => (Ok(EntryFields { entry_id, data: Some(value) }), v),
            },
        },
    }
}

/// A whole registry, sent once per registry during configuration.
#[derive(Debug, Clone, PartialEq)]
pub struct RegistryData {
    pub registry_id: String,
    pub entries: Vec<RegistryEntry>,
}

/// What a [`RegistryData`] holds.
pub struct RegistryFields {
    pub registry_id: Seq<char>,
    pub entries: Seq<EntryFields>,
}

impl View for RegistryData {
    type V = RegistryFields;

    open spec fn view(&self) -> RegistryFields {
        RegistryFields {
            registry_id: self.registry_id@,
            entries: Seq::new(self.entries@.len(), |i: int| self.entries@[i]@),
        }
    }
}

/// The body of a [`RegistryData`].
pub open spec fn registry_bytes(f: RegistryFields) -> Seq<u8> {
    writer::string_bytes(f.registry_id) + (varint::varint_bytes(f.entries.len() as i32)
        + writer::concat_bytes(
        f.entries,
        |e: EntryFields| entry_bytes(e),
    ))
}

/// The registry at the front of `s`.
pub open spec fn parse_registry(s: Seq<u8>) -> Parse<RegistryFields> {
    match reader::parse_identifier(s) {
        (Err(e), t) => (Err(e), t),
        (Ok(registry_id), t) => match reader::parse_array(
            t,
            MAX_REGISTRY_ENTRIES,
            |u: Seq<u8>| parse_entry(u),
        ) {
            (Err(e), u) => (Err(e), u),
            (Ok(entries), u) => (Ok(RegistryFields { registry_id, entries }), u),
        },
    }
}

impl ClientboundPacket for RegistryData {
    const ID: i32 = ids::configuration::clientbound::REGISTRY_DATA;

    const NAME: &'static str = "RegistryData";

    open spec fn packet_id() -> i32 {
        ids::configuration::clientbound::REGISTRY_DATA
    }

    proof fn lemma_id() {
    }

    open spec fn body(&self) -> Seq<u8> {
        registry_bytes(self@)
    }

    fn encode_body(&self, out: &mut Vec<u8>) {
        out.write_identifier(self.registry_id.as_str());
        out.write_varint(self.entries.len() as i32);
        let ghost head = out@;
        let ghost all = self@.entries;
        let ghost encoding = |e: EntryFields| entry_bytes(e);
        let mut i: usize = 0;
        assert(head + writer::concat_bytes(all.take(0), encoding) =~= head);
        while i < self.entries.len()
            invariant
                i <= self.entries@.len(),
                all == self@.entries,
                encoding == |e: EntryFields| entry_bytes(e),
                out@ == head + writer::concat_bytes(all.take(i as int), encoding),
            decreases self.entries@.len() - i,
        {
            let entry = &self.entries[i];
            let ghost before = out@;
            out.write_identifier(entry.entry_id.as_str());
            match &entry.data {
                Some(tag) => {
                    out.write_bool(true);
                    nbt::write_network(tag, out);
                },
                None => out.write_bool(false),
            }
            assert(out@ =~= before + entry_bytes(all[i as int]));
            assert(all.take(i + 1).drop_last() =~= all.take(i as int));
            assert(out@ =~= head + writer::concat_bytes(all.take(i + 1), encoding));
            i += 1;
        }
        assert(all.take(i as int) =~= all);
        assert(out@ =~= old(out)@ + self.body());
    }
}

fn read_entry(r: &mut PacketReader<'_>) -> (read: Result<RegistryEntry>)
    ensures
        final(r).input() == old(r).input(),
        (match read {
            Ok(entry) => Ok::<EntryFields, ProtocolError>(entry@),
            Err(e) => Err(e),
        }, final(r).rest()) == parse_entry(old(r).rest()),
{
    let entry_id = r.read_identifier()?;
    let present: bool = r.read_bool()?;
    let data = if present {
        let tag = nbt::read_network(r)?;
        Some(tag)
    } else {
        None
    };
    Ok(RegistryEntry { entry_id, data })
}

impl RegistryData {
    /// Decoding exists for proxy use; a server only sends this.
    pub fn decode_body(r: &mut PacketReader<'_>) -> (read: Result<Self>)
        ensures
            final(r).input() == old(r).input(),
            (match read {
                Ok(packet) => Ok::<RegistryFields, ProtocolError>(packet@),
                Err(e) => Err(e),
            }, final(r).rest()) == parse_registry(old(r).rest()),
    {
        let registry_id = r.read_identifier()?;
        let ghost item = |u: Seq<u8>| parse_entry(u);
        let ghost start = r.rest();
        let read = reader::read_list(r, MAX_REGISTRY_ENTRIES, read_entry);
        assert(forall|s: &mut PacketReader<'_>, one: Result<RegistryEntry>| #[trigger]
            call_ensures(read_entry, (s,), one) ==> reader::reads(
                *s,
                *final(s),
                reader::viewed(one),
                item(s.rest()),
            ));
        assert(reader::parse_array(start, MAX_REGISTRY_ENTRIES, item).1 == r.rest());
        let entries = read?;
        let packet = RegistryData { registry_id, entries };
        assert(packet@.entries =~= reader::views(packet.entries@));
        Ok(packet)
    }
}

/// A registry whose identifiers and definitions are within their limits is read
/// back as it was written.
pub proof fn law_registry_round_trip(f: RegistryFields, tail: Seq<u8>)
    requires
        f.registry_id.len() <= DEFAULT_MAX_STRING_LEN,
        utf8::encode_utf8(f.registry_id).len() <= reader::max_string_bytes(DEFAULT_MAX_STRING_LEN),
        f.entries.len() <= MAX_REGISTRY_ENTRIES,
        forall|i: int| 0 <= i < f.entries.len() ==> entry_fits(#[trigger] f.entries[i]),
    ensures
        parse_registry(registry_bytes(f) + tail) == (
            Ok::<RegistryFields, ProtocolError>(f),
            tail,
        ),
{
    let encoding = |e: EntryFields| entry_bytes(e);
    let item = |u: Seq<u8>| parse_entry(u);
    let body = varint::varint_bytes(f.entries.len() as i32)
        + writer::concat_bytes(f.entries, encoding);
    reader::law_string_round_trip(f.registry_id, DEFAULT_MAX_STRING_LEN, body + tail);
    assert(registry_bytes(f) + tail =~= writer::string_bytes(f.registry_id) + (body + tail));
    assert forall|i: int, rest: Seq<u8>| 0 <= i < f.entries.len() implies #[trigger] item(
        encoding(f.entries[i]) + rest,
    ) == (Ok::<EntryFields, ProtocolError>(f.entries[i]), rest) by {
        assert(entry_fits(f.entries[i]));
        lemma_entry_round_trip(f.entries[i], rest);
    }
    reader::law_array_round_trip(f.entries, MAX_REGISTRY_ENTRIES, encoding, item, tail);
}

/// The identifier and the definition of an entry are within their limits.
pub open spec fn entry_fits(f: EntryFields) -> bool {
    &&& f.entry_id.len() <= DEFAULT_MAX_STRING_LEN
    &&& utf8::encode_utf8(f.entry_id).len() <= reader::max_string_bytes(DEFAULT_MAX_STRING_LEN)
    &&& f.data matches Some(value) ==> nbt::representable(value, (MAX_DEPTH + 1) as nat)
}

proof fn lemma_entry_round_trip(f: EntryFields, rest: Seq<u8>)
    requires
        entry_fits(f),
    ensures
        parse_entry(entry_bytes(f) + rest) == (Ok::<EntryFields, ProtocolError>(f), rest),
{
    match f.data {
        Some(value) => {
            let data = nbt::network_bytes(value) + rest;
            reader::law_string_round_trip(f.entry_id, DEFAULT_MAX_STRING_LEN, seq![1u8] + data);
            reader::lemma_reads_bool(true, data);
            nbt::law_network_round_trip(value, rest);
            assert(entry_bytes(f) + rest =~= writer::string_bytes(f.entry_id) + (seq![1u8] + data));
        },
        None => {
            reader::law_string_round_trip(f.entry_id, DEFAULT_MAX_STRING_LEN, seq![0u8] + rest);
            reader::lemma_reads_bool(false, rest);
            assert(entry_bytes(f) + rest =~= writer::string_bytes(f.entry_id) + (seq![0u8] + rest));
        },
    }
}

/// A data pack both sides claim to know.
#[derive(Debug, Clone, PartialEq, Eq)]
pub struct KnownPack {
    pub namespace: String,
    pub id: String,
    pub version: String,
}

/// What a [`KnownPack`] holds.
pub struct PackFields {
    pub namespace: Seq<char>,
    pub id: Seq<char>,
    pub version: Seq<char>,
}

impl View for KnownPack {
    type V = PackFields;

    open spec fn view(&self) -> PackFields {
        PackFields { namespace: self.namespace@, id: self.id@, version: self.version@ }
    }
}

/// The bytes of a pack.
pub open spec fn pack_bytes(f: PackFields) -> Seq<u8> {
    writer::string_bytes(f.namespace) + writer::string_bytes(f.id) + writer::string_bytes(f.version)
}

/// The pack at the front of `s`.
pub open spec fn parse_pack(s: Seq<u8>) -> Parse<PackFields> {
    match reader::parse_string(s, DEFAULT_MAX_STRING_LEN) {
        (Err(e), t) => (Err(e), t),
        (Ok(namespace), t) => match reader::parse_string(t, DEFAULT_MAX_STRING_LEN) {
            (Err(e), u) => (Err(e), u),
            (Ok(id), u) => match reader::parse_string(u, DEFAULT_MAX_STRING_LEN) {
                (Err(e), v) => (Err(e), v),
                (Ok(version), v) => (Ok(PackFields { namespace, id, version }), v),
            },
        },
    }
}

/// Negotiates which built-in data packs the client already has, so their
/// registry contents need not be transmitted.
#[derive(Debug, Clone, PartialEq, Eq)]
pub struct SelectKnownPacks {
    pub packs: Vec<KnownPack>,
}

/// What each of some packs holds.
pub open spec fn packs_fields(packs: Seq<KnownPack>) -> Seq<PackFields> {
    Seq::new(packs.len(), |i: int| packs[i]@)
}

/// The body of a [`SelectKnownPacks`].
pub open spec fn packs_bytes(packs: Seq<PackFields>) -> Seq<u8> {
    varint::varint_bytes(packs.len() as i32)
        + writer::concat_bytes(packs, |p: PackFields| pack_bytes(p))
}

impl SelectKnownPacks {
    /// The vanilla core pack for the targeted version.
    #[must_use]
    pub fn vanilla() -> (packet: Self)
        ensures
            packs_fields(packet.packs@) == seq![
                PackFields {
                    namespace: "minecraft"@,
                    id: "core"@,
                    version: MINECRAFT_VERSION@,
                },
            ],
    {
        let mut packs: Vec<KnownPack> = Vec::new();
        packs.push(
            KnownPack {
                namespace: "minecraft".to_owned(),
                id: "core".to_owned(),
                version: MINECRAFT_VERSION.to_owned(),
            },
        );
        let packet = SelectKnownPacks { packs };
        assert(packs_fields(packet.packs@) =~= seq![
            PackFields {
                namespace: "minecraft"@,
                id: "core"@,
                version: MINECRAFT_VERSION@,
            },
        ]);
        packet
    }
}

impl ClientboundPacket for SelectKnownPacks {
    const ID: i32 = ids::configuration::clientbound::SELECT_KNOWN_PACKS;

    const NAME: &'static str = "SelectKnownPacks";

    open spec fn packet_id() -> i32 {
        ids::configuration::clientbound::SELECT_KNOWN_PACKS
    }

    proof fn lemma_id() {
    }

    open spec fn body(&self) -> Seq<u8> {
        packs_bytes(packs_fields(self.packs@))
    }

    fn encode_body(&self, out: &mut Vec<u8>) {
        out.write_varint(self.packs.len() as i32);
        let ghost head = out@;
        let ghost all = packs_fields(self.packs@);
        let ghost encoding = |p: PackFields| pack_bytes(p);
        let mut i: usize = 0;
        assert(head + writer::concat_bytes(all.take(0), encoding) =~= head);
        while i < self.packs.len()
            invariant
                i <= self.packs@.len(),
                all == packs_fields(self.packs@),
                encoding == |p: PackFields| pack_bytes(p),
                out@ == head + writer::concat_bytes(all.take(i as int), encoding),
            decreases self.packs@.len() - i,
        {
            let pack = &self.packs[i];
            let ghost before = out@;
            out.write_string(pack.namespace.as_str());
            out.write_string(pack.id.as_str());
            out.write_string(pack.version.as_str());
            assert(out@ =~= before + pack_bytes(all[i as int]));
            assert(all.take(i + 1).drop_last() =~= all.take(i as int));
            assert(out@ =~= head + writer::concat_bytes(all.take(i + 1), encoding));
            i += 1;
        }
        assert(all.take(i as int) =~= all);
        assert(out@ =~= old(out)@ + self.body());
    }
}

fn read_pack(r: &mut PacketReader<'_>) -> (read: Result<KnownPack>)
    ensures
        final(r).input() == old(r).input(),
        (match read {
            Ok(pack) => Ok::<PackFields, ProtocolError>(pack@),
            Err(e) => Err(e),
        }, final(r).rest()) == parse_pack(old(r).rest()),
{
    let namespace = r.read_string(DEFAULT_MAX_STRING_LEN)?;
    let id = r.read_string(DEFAULT_MAX_STRING_LEN)?;
    let version = r.read_string(DEFAULT_MAX_STRING_LEN)?;
    Ok(KnownPack { namespace, id, version })
}

impl ServerboundPacket for SelectKnownPacks {
    type Fields = Seq<PackFields>;

    const ID: i32 = ids::configuration::serverbound::SELECT_KNOWN_PACKS;

    const NAME: &'static str = "SelectKnownPacks";

    open spec fn packet_id() -> i32 {
        ids::configuration::serverbound::SELECT_KNOWN_PACKS
    }

    proof fn lemma_id() {
    }

    open spec fn fields(&self) -> Seq<PackFields> {
        packs_fields(self.packs@)
    }

    open spec fn parse_body(s: Seq<u8>) -> Parse<Seq<PackFields>> {
        reader::parse_array(s, MAX_KNOWN_PACKS, |u: Seq<u8>| parse_pack(u))
    }

    fn decode_body(r: &mut PacketReader<'_>) -> (read: Result<Self>) {
        let ghost item = |u: Seq<u8>| parse_pack(u);
        let ghost start = r.rest();
        let read = reader::read_list(r, MAX_KNOWN_PACKS, read_pack);
        assert(forall|s: &mut PacketReader<'_>, one: Result<KnownPack>| #[trigger]
            call_ensures(read_pack, (s,), one) ==> reader::reads(
                *s,
                *final(s),
                reader::viewed(one),
                item(s.rest()),
            ));
        assert(reader::parse_array(start, MAX_KNOWN_PACKS, item).1 == r.rest());
        let packs = read?;
        let packet = SelectKnownPacks { packs };
        assert(packs_fields(packet.packs@) =~= reader::views(packet.packs@));
        Ok(packet)
    }
}

/// Known packs whose names are within their limits are read back as they were
/// written.
pub proof fn law_known_packs_round_trip(packs: Seq<PackFields>, tail: Seq<u8>)
    requires
        packs.len() <= MAX_KNOWN_PACKS,
        forall|i: int| 0 <= i < packs.len() ==> pack_fits(#[trigger] packs[i]),
    ensures
        SelectKnownPacks::parse_body(packs_bytes(packs) + tail) == (
            Ok::<Seq<PackFields>, ProtocolError>(packs),
            tail,
        ),
{
    let encoding = |p: PackFields| pack_bytes(p);
    let item = |u: Seq<u8>| parse_pack(u);
    assert forall|i: int, rest: Seq<u8>| 0 <= i < packs.len() implies #[trigger] item(
        encoding(packs[i]) + rest,
    ) == (Ok::<PackFields, ProtocolError>(packs[i]), rest) by {
        assert(pack_fits(packs[i]));
        lemma_pack_round_trip(packs[i], rest);
    }
    reader::law_array_round_trip(packs, MAX_KNOWN_PACKS, encoding, item, tail);
}

/// A string within the default limits.
pub open spec fn text_fits(text: Seq<char>) -> bool {
    text.len() <= DEFAULT_MAX_STRING_LEN && utf8::encode_utf8(text).len()
        <= reader::max_string_bytes(
        DEFAULT_MAX_STRING_LEN,
    )
}

/// The names of a pack are within their limits.
pub open spec fn pack_fits(f: PackFields) -> bool {
    text_fits(f.namespace) && text_fits(f.id) && text_fits(f.version)
}

proof fn lemma_pack_round_trip(f: PackFields, rest: Seq<u8>)
    requires
        pack_fits(f),
    ensures
        parse_pack(pack_bytes(f) + rest) == (Ok::<PackFields, ProtocolError>(f), rest),
{
    let version = writer::string_bytes(f.version) + rest;
    let id = writer::string_bytes(f.id) + version;
    reader::law_string_round_trip(f.namespace, DEFAULT_MAX_STRING_LEN, id);
    reader::law_string_round_trip(f.id, DEFAULT_MAX_STRING_LEN, version);
    reader::law_string_round_trip(f.version, DEFAULT_MAX_STRING_LEN, rest);
    assert(pack_bytes(f) + rest =~= writer::string_bytes(f.namespace) + id);
}

/// Vendor extension channel. `minecraft:brand` travels here.
#[derive(Debug, Clone, PartialEq, Eq)]
pub struct PluginMessage {
    pub channel: String,
    pub data: Vec<u8>,
}

/// What a [`PluginMessage`] holds.
pub struct PluginFields {
    pub channel: Seq<char>,
    pub data: Seq<u8>,
}

/// The body of a [`PluginMessage`]: the payload runs to the end of the packet.
pub open spec fn plugin_bytes(f: PluginFields) -> Seq<u8> {
    writer::string_bytes(f.channel) + f.data
}

impl PluginMessage {
    /// The `minecraft:brand` message announcing this server's implementation.
    #[must_use]
    pub fn brand(brand: &str) -> (packet: Self)
        ensures
            packet.fields() == (PluginFields {
                channel: "minecraft:brand"@,
                data: writer::string_bytes(brand@),
            }),
    {
        let mut data: Vec<u8> = Vec::new();
        data.write_string(brand);
        assert(data@ =~= writer::string_bytes(brand@));
        PluginMessage { channel: "minecraft:brand".to_owned(), data }
    }
}

impl ClientboundPacket for PluginMessage {
    const ID: i32 = ids::configuration::clientbound::PLUGIN_MESSAGE;

    const NAME: &'static str = "PluginMessage";

    open spec fn packet_id() -> i32 {
        ids::configuration::clientbound::PLUGIN_MESSAGE
    }

    proof fn lemma_id() {
    }

    open spec fn body(&self) -> Seq<u8> {
        plugin_bytes(self.fields())
    }

    fn encode_body(&self, out: &mut Vec<u8>) {
        out.write_identifier(self.channel.as_str());
        // No length prefix: the payload runs to the end of the packet.
        out.write_bytes(self.data.as_slice());
        assert(out@ =~= old(out)@ + self.body());
    }
}

impl ServerboundPacket for PluginMessage {
    type Fields = PluginFields;

    const ID: i32 = ids::configuration::serverbound::PLUGIN_MESSAGE;

    const NAME: &'static str = "PluginMessage";

    open spec fn packet_id() -> i32 {
        ids::configuration::serverbound::PLUGIN_MESSAGE
    }

    proof fn lemma_id() {
    }

    open spec fn fields(&self) -> PluginFields {
        PluginFields { channel: self.channel@, data: self.data@ }
    }

    open spec fn parse_body(s: Seq<u8>) -> Parse<PluginFields> {
        match reader::parse_identifier(s) {
            (Err(e), t) => (Err(e), t),
            (Ok(channel), t) => (Ok(PluginFields { channel, data: t }), Seq::empty()),
        }
    }

    fn decode_body(r: &mut PacketReader<'_>) -> (read: Result<Self>) {
        let channel = r.read_identifier()?;
        let data = copy_bytes(r.read_remaining());
        Ok(PluginMessage { channel, data })
    }
}

/// A plugin message whose channel is within its limit is read back as it was
/// written, its payload being all that is left of the packet.
pub proof fn law_plugin_message_round_trip(f: PluginFields)
    requires
        text_fits(f.channel),
    ensures
        PluginMessage::parse_body(plugin_bytes(f)) == (
            Ok::<PluginFields, ProtocolError>(f),
            Seq::<u8>::empty(),
        ),
{
    reader::law_string_round_trip(f.channel, DEFAULT_MAX_STRING_LEN, f.data);
}

} // verus!
