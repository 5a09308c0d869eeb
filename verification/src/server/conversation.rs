//! What a client and the server say to each other, byte by byte.

use vstd::prelude::*;
use vstd::utf8;

use crate::protocol::error;
use crate::protocol::json;
use crate::protocol::layout::Field;
use crate::protocol::layout;
use crate::protocol::nbt;
use crate::protocol::packets;
use crate::protocol::packets::config as config_packets;
use crate::protocol::packets::formats;
use crate::protocol::packets::handshake;
use crate::protocol::packets::login as login_packets;
use crate::protocol::packets::status as status_packets;
use crate::protocol::text;
use crate::protocol::text::Message;
use crate::protocol::types::Uuid;
use crate::protocol::varint;
use crate::protocol::version;
use crate::protocol::wire;
use crate::protocol::wording;
use crate::protocol::writer;
use crate::server::config::{LoginFinishedFlag, ServerConfig};
use crate::server::connection;
use crate::server::connection::{Failure, PhaseView, ReplyView, StepView};
use crate::server::player;
use crate::server::server::ServerContext;

verus! {

/// A packet is an id and a body.
pub open spec fn framed(packet: Seq<u8>, id: i32, body: Seq<u8>) -> bool {
    layout::spells(packet, seq![Field::VarInt(id), Field::Raw(body)])
}

/// Nothing is said, and the connection goes on.
pub open spec fn quiet(step: StepView) -> bool {
    step.replies.len() == 0 && step.outcome is None && step.view_distance is None
}

/// Nothing is said, and the connection ends with a failure.
pub open spec fn broken(step: StepView, why: Failure) -> bool {
    &&& step.replies.len() == 0
    &&& step.outcome == Some(Err::<(), Failure>(why))
    &&& step.view_distance is None
}

/// A message of one text in one colour, and nothing else.
pub open spec fn plainly(m: Message, content: Seq<char>, color: Seq<char>) -> bool {
    &&& m.text == Some(content)
    &&& m.color == Some(color)
    &&& m.translate is None && m.bold is None && m.italic is None && m.underlined is None
    &&& m.strikethrough is None && m.obfuscated is None && m.extra.len() == 0
}

/// The client is told one thing during login, as JSON, and the connection ends.
pub open spec fn kicked_at_login(step: StepView, m: Message, why: Failure) -> bool {
    &&& step.replies.len() == 1
    &&& step.replies[0] matches ReplyView::Send(reply) && layout::spells(
        reply,
        seq![Field::VarInt(0x00), Field::Text(text::json_form(m))],
    )
    &&& step.outcome == Some(Err::<(), Failure>(why))
    &&& step.view_distance is None
}

/// The client is told one thing during configuration, as a tag, and the
/// connection ends.
pub open spec fn kicked_at_configuration(step: StepView, m: Message, why: Failure) -> bool {
    &&& step.replies.len() == 1
    &&& step.replies[0] matches ReplyView::Send(reply) && framed(
        reply,
        0x02,
        nbt::network_bytes(text::nbt_form(m)),
    )
    &&& step.outcome == Some(Err::<(), Failure>(why))
    &&& step.view_distance is None
}

proof fn lemma_framed(packet: Seq<u8>, id: i32, body: Seq<u8>)
    requires
        framed(packet, id, body),
    ensures
        connection::parted(packet) == Ok::<(i32, Seq<u8>), crate::protocol::error::ProtocolError>(
            (id, body),
        ),
{
    lemma_frame(id, body);
    layout::law_spelling_is_unique(
        packet,
        varint::varint_bytes(id) + body,
        seq![Field::VarInt(id), Field::Raw(body)],
    );
    connection::lemma_parted(id, body);
}

proof fn lemma_frame(id: i32, body: Seq<u8>)
    ensures
        framed(varint::varint_bytes(id) + body, id, body),
{
    layout::lemma_front(varint::varint_bytes(id));
    let (s, f) = layout::begin();
    let (s, f) = layout::then_varint(s, f, id);
    let (s, f) = layout::then_raw(s, f, body);
    assert(f =~= seq![Field::VarInt(id), Field::Raw(body)]);
}

proof fn lemma_text_packet(id: i32, content: Seq<char>)
    ensures
        layout::spells(
            varint::varint_bytes(id) + writer::string_bytes(content),
            seq![Field::VarInt(id), Field::Text(content)],
        ),
{
    layout::lemma_front(varint::varint_bytes(id));
    let (s, f) = layout::begin();
    let (s, f) = layout::then_varint(s, f, id);
    let (s, f) = layout::then_text(s, f, content);
    assert(f =~= seq![Field::VarInt(id), Field::Text(content)]);
}

// ---------------------------------------------------------------------------
// Handshake
// ---------------------------------------------------------------------------

/// A client that asks for the status is heard, whatever version it speaks.
pub proof fn law_handshake_for_status(
    packet: Seq<u8>,
    body: Seq<u8>,
    p: handshake::Intention,
    after: PhaseView,
    peer: Seq<char>,
    was: ServerContext,
    now: ServerContext,
    step: StepView,
)
    requires
        framed(packet, 0x00, body),
        layout::spells(
            body,
            seq![
                Field::VarInt(p.protocol_version),
                Field::Text(p.server_address@),
                Field::Short(p.server_port),
                Field::VarInt(1),
            ],
        ),
        p.next_state == handshake::NextState::Status,
        p.server_address@.len() <= 255,
        utf8::encode_utf8(p.server_address@).len() <= 765,
        connection::answers(PhaseView::Handshaking, after, peer, packet, was, now, step),
    ensures
        after == PhaseView::Status,
        quiet(step),
        now == was,
{
    lemma_framed(packet, 0x00, body);
    formats::law_intention_reads(body, p, "handshaking");
}

/// A client that asks to log in, of its own accord or sent by another server, is
/// let in to name itself just where it speaks version 776. Otherwise it is told
/// both versions, and the connection ends.
pub proof fn law_handshake_for_login(
    packet: Seq<u8>,
    body: Seq<u8>,
    p: handshake::Intention,
    after: PhaseView,
    peer: Seq<char>,
    was: ServerContext,
    now: ServerContext,
    step: StepView,
)
    requires
        framed(packet, 0x00, body),
        layout::spells(
            body,
            seq![
                Field::VarInt(p.protocol_version),
                Field::Text(p.server_address@),
                Field::Short(p.server_port),
                Field::VarInt(
                    if p.next_state == handshake::NextState::Login {
                        2
                    } else {
                        3
                    },
                ),
            ],
        ),
        p.next_state != handshake::NextState::Status,
        p.server_address@.len() <= 255,
        utf8::encode_utf8(p.server_address@).len() <= 765,
        connection::answers(PhaseView::Handshaking, after, peer, packet, was, now, step),
    ensures
        now == was,
        p.protocol_version == 776 ==> after == PhaseView::Login && quiet(step),
        p.protocol_version != 776 ==> after == PhaseView::Handshaking && exists|m: Message|
            #[trigger] kicked_at_login(
                step,
                m,
                Failure::UnsupportedVersion { got: p.protocol_version, expected: 776 },
            ) && plainly(
                m,
                "This server is running Minecraft "@ + "26.2"@ + " (protocol "@ + "776"@
                    + "). Your client speaks protocol "@ + json::decimal(p.protocol_version as int)
                    + "."@,
                "red"@,
            ),
{
    lemma_framed(packet, 0x00, body);
    formats::law_intention_reads(body, p, "handshaking");
    if p.protocol_version != 776 {
        let m = connection::version_notice(p.protocol_version);
        lemma_text_packet(0, text::json_form(m));
        assert(json::decimal(776) =~= "776"@) by {
            reveal_strlit("776");
            reveal_with_fuel(json::digits, 4);
        }
        assert(kicked_at_login(
            step,
            m,
            Failure::UnsupportedVersion { got: p.protocol_version, expected: 776 },
        ));
    }
}

/// Any other packet at the start ends the connection, and nothing is said.
pub proof fn law_handshake_comes_first(
    packet: Seq<u8>,
    id: i32,
    body: Seq<u8>,
    after: PhaseView,
    peer: Seq<char>,
    was: ServerContext,
    now: ServerContext,
    step: StepView,
)
    requires
        framed(packet, id, body),
        id != 0x00,
        connection::answers(PhaseView::Handshaking, after, peer, packet, was, now, step),
    ensures
        after == PhaseView::Handshaking,
        broken(step, Failure::UnexpectedPacket { state: "handshaking", id }),
        now == was,
{
    lemma_framed(packet, id, body);
}

// ---------------------------------------------------------------------------
// Status
// ---------------------------------------------------------------------------

/// An empty request is answered with the document, and the connection goes on.
/// The document is that of the players there are, with a sample of them.
pub proof fn law_status_is_given(
    packet: Seq<u8>,
    after: PhaseView,
    peer: Seq<char>,
    was: ServerContext,
    now: ServerContext,
    step: StepView,
)
    requires
        framed(packet, 0x00, Seq::empty()),
        was.wf(),
        connection::answers(PhaseView::Status, after, peer, packet, was, now, step),
    ensures
        after == PhaseView::Status,
        now.players == was.players,
        step.replies.len() == 1,
        step.outcome is None,
        step.view_distance is None,
        exists|sample: Seq<Seq<char>>|
            #![trigger connection::sampled(was.players@, sample)]
            connection::sampled(was.players@, sample) && (step.replies[0] matches ReplyView::Send(
                reply,
            ) && layout::spells(
                reply,
                seq![
                    Field::VarInt(0x00),
                    Field::Text(
                        status_packets::status_json(
                            was.status.document((was.players@.len() as usize) as i32, sample),
                        ),
                    ),
                ],
            )),
{
    lemma_framed(packet, 0x00, Seq::empty());
    formats::law_signals_are_empty(Seq::empty(), "status");
    let online = (was.players@.len() as usize) as i32;
    let held = now.status.held(online)->0;
    lemma_text_packet(0, (*held.json)@);
    assert(connection::sampled(was.players@, held.sample));
}

/// A ping is answered with its own number, and that ends the connection in
/// order.
pub proof fn law_ping_gets_pong(
    packet: Seq<u8>,
    body: Seq<u8>,
    payload: i64,
    after: PhaseView,
    peer: Seq<char>,
    was: ServerContext,
    now: ServerContext,
    step: StepView,
)
    requires
        framed(packet, 0x01, body),
        layout::spells(body, seq![Field::Long(payload)]),
        connection::answers(PhaseView::Status, after, peer, packet, was, now, step),
    ensures
        step.replies.len() == 1,
        step.replies[0] matches ReplyView::Send(reply) && layout::spells(
            reply,
            seq![Field::VarInt(0x01), Field::Long(payload)],
        ),
        step.outcome == Some(Ok::<(), Failure>(())),
        step.view_distance is None,
        now == was,
{
    lemma_framed(packet, 0x01, body);
    formats::law_ping_reads(body, status_packets::PingRequest { payload }, "status");
    layout::lemma_front(varint::varint_bytes(0x01));
    let (s, f) = layout::begin();
    let (s, f) = layout::then_varint(s, f, 0x01);
    let (s, f) = layout::then_long(s, f, payload);
    assert(f =~= seq![Field::VarInt(0x01), Field::Long(payload)]);
}

/// Any other packet during a server-list ping ends the connection.
pub proof fn law_status_knows_two_packets(
    packet: Seq<u8>,
    id: i32,
    body: Seq<u8>,
    after: PhaseView,
    peer: Seq<char>,
    was: ServerContext,
    now: ServerContext,
    step: StepView,
)
    requires
        framed(packet, id, body),
        id != 0x00 && id != 0x01,
        connection::answers(PhaseView::Status, after, peer, packet, was, now, step),
    ensures
        broken(step, Failure::UnexpectedPacket { state: "status", id }),
        now == was,
{
    lemma_framed(packet, id, body);
}

// ---------------------------------------------------------------------------
// Login
// ---------------------------------------------------------------------------

/// The fields of the packet that confirms a login: the identity, no properties,
/// and the flag where there is one to send.
pub open spec fn confirmation(uuid: Uuid, name: Seq<char>, flag: LoginFinishedFlag) -> Seq<
    Field,
> {
    let head = seq![
        Field::VarInt(0x02),
        Field::Uuid(uuid.value),
        Field::Text(name),
        Field::VarInt(0),
    ];
    match flag {
        LoginFinishedFlag::Omit => head,
        LoginFinishedFlag::SendFalse => head.push(Field::Bool(false)),
        LoginFinishedFlag::SendTrue => head.push(Field::Bool(true)),
    }
}

proof fn lemma_confirmation(uuid: Uuid, name: Seq<char>, flag: LoginFinishedFlag)
    ensures
        layout::spells(
            connection::login_finished_bytes(uuid, name, flag),
            confirmation(uuid, name, flag),
        ),
{
    let id = varint::varint_bytes(0x02);
    let (a, b, c) = (
        wire::be128(uuid.value),
        writer::string_bytes(name),
        varint::varint_bytes(0),
    );
    layout::lemma_front(id);
    let (s, f) = layout::begin();
    let (s, f) = layout::then_varint(s, f, 0x02);
    let (s, f) = layout::then_uuid(s, f, uuid.value);
    let (s, f) = layout::then_text(s, f, name);
    let (s, f) = layout::then_varint(s, f, 0);
    assert(f =~= seq![
        Field::VarInt(0x02),
        Field::Uuid(uuid.value),
        Field::Text(name),
        Field::VarInt(0),
    ]);
    match flag {
        LoginFinishedFlag::Omit => {
            assert(s =~= id + (a + b + c + Seq::<u8>::empty()));
        },
        LoginFinishedFlag::SendFalse => {
            let (s, f) = layout::then_bool(s, f, false);
            assert(s =~= id + (a + b + c + seq![writer::bool_byte(false)]));
        },
        LoginFinishedFlag::SendTrue => {
            let (s, f) = layout::then_bool(s, f, true);
            assert(s =~= id + (a + b + c + seq![writer::bool_byte(true)]));
        },
    }
}

/// A client that names itself in offline mode is accepted under the identity that
/// its name gives, and not under the one that it claims. Where packets are to be
/// compressed, that is announced first, and in force before the confirmation.
pub proof fn law_hello_is_accepted(
    packet: Seq<u8>,
    body: Seq<u8>,
    p: login_packets::Hello,
    after: PhaseView,
    peer: Seq<char>,
    was: ServerContext,
    now: ServerContext,
    step: StepView,
)
    requires
        framed(packet, 0x00, body),
        layout::spells(body, seq![Field::Text(p.name@), Field::Uuid(p.profile_id.value)]),
        p.name@.len() <= 16,
        utf8::encode_utf8(p.name@).len() <= 48,
        !was.config.online_mode,
        connection::answers(PhaseView::Login, after, peer, packet, was, now, step),
    ensures
        ({
            let uuid = player::offline_id(p.name@);
            let threshold = was.config.compression_threshold;
            let fields = confirmation(uuid, p.name@, was.config.login_finished_flag);
            let n = step.replies.len() as int;
            &&& after == (PhaseView::Acknowledging { uuid, name: p.name@ })
            &&& step.outcome is None && step.view_distance is None
            &&& n == (if threshold >= 0 {
                3int
            } else {
                1int
            })
            &&& step.replies[n - 1] matches ReplyView::Send(reply) && layout::spells(reply, fields)
            &&& threshold >= 0 ==> {
                &&& step.replies[0] matches ReplyView::Send(reply) && layout::spells(
                    reply,
                    seq![Field::VarInt(0x03), Field::VarInt(threshold)],
                )
                &&& step.replies[1] == ReplyView::Compress(threshold as usize)
            }
        }),
        now == was,
{
    lemma_framed(packet, 0x00, body);
    formats::law_hello_reads(body, p, "login");
    let uuid = player::offline_id(p.name@);
    let threshold = was.config.compression_threshold;
    lemma_confirmation(uuid, p.name@, was.config.login_finished_flag);
    layout::lemma_front(varint::varint_bytes(0x03));
    let (s, f) = layout::begin();
    let (s, f) = layout::then_varint(s, f, 0x03);
    let (s, f) = layout::then_varint(s, f, threshold);
    assert(f =~= seq![Field::VarInt(0x03), Field::VarInt(threshold)]);
}

/// Where identities would have to be verified, a client that names itself is told
/// that this cannot be done, and the connection ends.
pub proof fn law_hello_is_refused_online(
    packet: Seq<u8>,
    body: Seq<u8>,
    p: login_packets::Hello,
    after: PhaseView,
    peer: Seq<char>,
    was: ServerContext,
    now: ServerContext,
    step: StepView,
)
    requires
        framed(packet, 0x00, body),
        layout::spells(body, seq![Field::Text(p.name@), Field::Uuid(p.profile_id.value)]),
        p.name@.len() <= 16,
        utf8::encode_utf8(p.name@).len() <= 48,
        was.config.online_mode,
        connection::answers(PhaseView::Login, after, peer, packet, was, now, step),
    ensures
        after == PhaseView::Login,
        now == was,
        exists|m: Message| #[trigger]
            kicked_at_login(step, m, Failure::Rejected("online mode is not implemented"@))
                && plainly(
                m,
                "This server has online-mode enabled, which this build does not yet support."@,
                "red"@,
            ),
{
    lemma_framed(packet, 0x00, body);
    formats::law_hello_reads(body, p, "login");
    let m = connection::online_mode_notice();
    lemma_text_packet(0, text::json_form(m));
    assert(kicked_at_login(step, m, Failure::Rejected("online mode is not implemented"@)));
}

/// Any other packet where a client should name itself, or acknowledge its login,
/// ends the connection, and nobody joins.
pub proof fn law_login_knows_its_packets(
    stage: PhaseView,
    packet: Seq<u8>,
    id: i32,
    body: Seq<u8>,
    after: PhaseView,
    peer: Seq<char>,
    was: ServerContext,
    now: ServerContext,
    step: StepView,
)
    requires
        stage is Login || stage is Acknowledging,
        framed(packet, id, body),
        stage is Login ==> id != 0x00,
        stage is Acknowledging ==> id != 0x03,
        connection::answers(stage, after, peer, packet, was, now, step),
    ensures
        after == stage,
        broken(step, Failure::UnexpectedPacket { state: "login", id }),
        now.players@ == was.players@,
{
    lemma_framed(packet, id, body);
}

/// A client that acknowledges its login where there is room, and nobody of its
/// name, counts among the players from then on, and is told the brand of the
/// server and the data pack that it has.
pub proof fn law_acknowledged_client_joins(
    uuid: Uuid,
    name: Seq<char>,
    packet: Seq<u8>,
    after: PhaseView,
    peer: Seq<char>,
    was: ServerContext,
    now: ServerContext,
    step: StepView,
)
    requires
        framed(packet, 0x03, Seq::empty()),
        (was.players@.len() as int) < was.config.max_players,
        forall|id: u128| #[trigger]
            was.players@.contains_key(id) ==> was.players@[id].name@ != name,
        connection::answers(
            PhaseView::Acknowledging { uuid, name },
            after,
            peer,
            packet,
            was,
            now,
            step,
        ),
    ensures
        after == (PhaseView::Configuring { uuid, name }),
        now.players@.contains_key(uuid.value),
        now.players@[uuid.value].uuid == uuid,
        now.players@[uuid.value].name@ == name,
        now.players@[uuid.value].addr@ == peer,
        forall|id: u128|
            id != uuid.value ==> (now.players@.contains_key(id) <==> was.players@.contains_key(
                id,
            )) && (#[trigger] now.players@[id]) == was.players@[id],
        step.outcome is None,
        step.view_distance is None,
        step.replies.len() == 2,
        step.replies[0] matches ReplyView::Send(reply) && layout::spells(
            reply,
            seq![Field::VarInt(0x01), Field::Text("minecraft:brand"@), Field::Text("Rukkit"@)],
        ),
        step.replies[1] matches ReplyView::Send(reply) && layout::spells(
            reply,
            seq![
                Field::VarInt(0x0E),
                Field::VarInt(1),
                Field::Text("minecraft"@),
                Field::Text("core"@),
                Field::Text("26.2"@),
            ],
        ),
{
    lemma_framed(packet, 0x03, Seq::empty());
    formats::law_signals_are_empty(Seq::empty(), "login");
    lemma_brand();
    lemma_packs();
}

proof fn lemma_brand()
    ensures
        layout::spells(
            connection::brand_bytes(),
            seq![Field::VarInt(0x01), Field::Text("minecraft:brand"@), Field::Text("Rukkit"@)],
        ),
{
    let id = varint::varint_bytes(0x01);
    layout::lemma_front(id);
    let (s, f) = layout::begin();
    let (s, f) = layout::then_varint(s, f, 0x01);
    let (s, f) = layout::then_text(s, f, "minecraft:brand"@);
    let (s, f) = layout::then_text(s, f, "Rukkit"@);
    assert(f =~= seq![
        Field::VarInt(0x01),
        Field::Text("minecraft:brand"@),
        Field::Text("Rukkit"@),
    ]);
    assert(s =~= connection::brand_bytes());
}

proof fn lemma_packs()
    ensures
        layout::spells(
            connection::known_packs_bytes(),
            seq![
                Field::VarInt(0x0E),
                Field::VarInt(1),
                Field::Text("minecraft"@),
                Field::Text("core"@),
                Field::Text("26.2"@),
            ],
        ),
{
    let id = varint::varint_bytes(0x0E);
    layout::lemma_front(id);
    let (s, f) = layout::begin();
    let (s, f) = layout::then_varint(s, f, 0x0E);
    let (s, f) = layout::then_varint(s, f, 1);
    let (s, f) = layout::then_text(s, f, "minecraft"@);
    let (s, f) = layout::then_text(s, f, "core"@);
    let (s, f) = layout::then_text(s, f, "26.2"@);
    assert(f =~= seq![
        Field::VarInt(0x0E),
        Field::VarInt(1),
        Field::Text("minecraft"@),
        Field::Text("core"@),
        Field::Text("26.2"@),
    ]);
    let pack = config_packets::PackFields {
        namespace: "minecraft"@,
        id: "core"@,
        version: "26.2"@,
    };
    let encoding = |p: config_packets::PackFields| config_packets::pack_bytes(p);
    let one = seq![pack];
    assert(writer::concat_bytes(one, encoding) =~= config_packets::pack_bytes(pack)) by {
        assert(one.drop_last() =~= Seq::<config_packets::PackFields>::empty());
        reveal_with_fuel(writer::concat_bytes, 2);
    }
    assert(s =~= id + (varint::varint_bytes(1) + config_packets::pack_bytes(pack)));
}

/// A client that acknowledges its login where there is no room is told so, and
/// one whose name is in use is told that; nobody joins, and the connection ends.
pub proof fn law_unwelcome_client_is_told(
    uuid: Uuid,
    name: Seq<char>,
    packet: Seq<u8>,
    after: PhaseView,
    peer: Seq<char>,
    was: ServerContext,
    now: ServerContext,
    step: StepView,
)
    requires
        framed(packet, 0x03, Seq::empty()),
        connection::answers(
            PhaseView::Acknowledging { uuid, name },
            after,
            peer,
            packet,
            was,
            now,
            step,
        ),
    ensures
        was.players@.len() as int >= was.config.max_players ==> ({
            &&& after == (PhaseView::Acknowledging { uuid, name })
            &&& now.players@ == was.players@
            &&& exists|m: Message| #[trigger]
                kicked_at_configuration(step, m, Failure::Rejected("The server is full"@))
                    && plainly(m, "The server is full"@, "red"@)
        }),
        (was.players@.len() as int) < was.config.max_players && (exists|id: u128| #[trigger]
            was.players@.contains_key(id) && was.players@[id].name@ == name) ==> ({
            &&& after == (PhaseView::Acknowledging { uuid, name })
            &&& now.players@ == was.players@
            &&& exists|m: Message| #[trigger]
                kicked_at_configuration(
                    step,
                    m,
                    Failure::Rejected("A player with that name is already connected"@),
                ) && plainly(m, "Someone is already playing under that name"@, "red"@)
        }),
{
    lemma_framed(packet, 0x03, Seq::empty());
    formats::law_signals_are_empty(Seq::empty(), "login");
    let full = connection::join_notice(player::JoinError::Full);
    let taken = connection::join_notice(player::JoinError::NameTaken);
    lemma_frame(0x02, nbt::network_bytes(text::nbt_form(full)));
    lemma_frame(0x02, nbt::network_bytes(text::nbt_form(taken)));
    if was.players@.len() as int >= was.config.max_players {
        assert(kicked_at_configuration(step, full, Failure::Rejected("The server is full"@)));
    } else if player::taken(was.players@, name) {
        assert(kicked_at_configuration(
            step,
            taken,
            Failure::Rejected("A player with that name is already connected"@),
        ));
    }
}

// ---------------------------------------------------------------------------
// Configuration
// ---------------------------------------------------------------------------

/// A plugin message, whatever its channel and payload, is taken note of without
/// an answer, and the connection goes on.
pub proof fn law_plugin_message_is_noted(
    packet: Seq<u8>,
    body: Seq<u8>,
    p: config_packets::PluginMessage,
    stage: PhaseView,
    after: PhaseView,
    peer: Seq<char>,
    was: ServerContext,
    now: ServerContext,
    step: StepView,
)
    requires
        stage is Configuring,
        framed(packet, 0x02, body),
        layout::spells(body, seq![Field::Text(p.channel@), Field::Raw(p.data@)]),
        p.channel@.len() <= 32767,
        utf8::encode_utf8(p.channel@).len() <= 98301,
        connection::answers(stage, after, peer, packet, was, now, step),
    ensures
        quiet(step),
        after == stage,
        now == was,
{
    lemma_framed(packet, 0x02, body);
    formats::law_plugin_message_reads(body, p, "configuration");
}

/// A keep-alive is taken note of without an answer, and the connection goes on.
pub proof fn law_keep_alive_is_noted(
    packet: Seq<u8>,
    body: Seq<u8>,
    id: i64,
    stage: PhaseView,
    after: PhaseView,
    peer: Seq<char>,
    was: ServerContext,
    now: ServerContext,
    step: StepView,
)
    requires
        stage is Configuring,
        framed(packet, 0x04, body),
        layout::spells(body, seq![Field::Long(id)]),
        connection::answers(stage, after, peer, packet, was, now, step),
    ensures
        quiet(step),
        after == stage,
        now == was,
{
    lemma_framed(packet, 0x04, body);
    formats::law_config_keep_alive_reads(
        body,
        config_packets::KeepAlive { id },
        "configuration",
    );
}

/// Client settings are answered with nothing but the view distance that is
/// granted: what the client asks for, not below zero, and not above what the
/// server sends.
pub proof fn law_settings_grant_a_view_distance(
    packet: Seq<u8>,
    body: Seq<u8>,
    p: config_packets::ClientInformation,
    stage: PhaseView,
    after: PhaseView,
    peer: Seq<char>,
    was: ServerContext,
    now: ServerContext,
    step: StepView,
)
    requires
        stage is Configuring,
        framed(packet, 0x00, body),
        layout::spells(
            body,
            seq![
                Field::Text(p.locale@),
                Field::SignedByte(p.view_distance),
                Field::VarInt(config_packets::chat_mode_id(p.chat_mode)),
                Field::Bool(p.chat_colors),
                Field::Byte(p.displayed_skin_parts),
                Field::VarInt(p.main_hand),
                Field::Bool(p.text_filtering_enabled),
                Field::Bool(p.allows_listing),
                Field::VarInt(p.particle_status),
            ],
        ),
        p.locale@.len() <= 16,
        utf8::encode_utf8(p.locale@).len() <= 48,
        connection::answers(stage, after, peer, packet, was, now, step),
    ensures
        step.replies.len() == 0,
        step.outcome is None,
        step.view_distance matches Some(chunks) && 0 <= chunks <= was.config.view_distance && (
        p.view_distance >= 0 ==> chunks <= p.view_distance) && (chunks == was.config.view_distance
            || chunks == p.view_distance || (chunks == 0 && p.view_distance < 0)),
        after == stage,
        now == was,
{
    lemma_framed(packet, 0x00, body);
    formats::law_client_information_reads(body, p, "configuration");
}

/// A client that names its data packs is told that the world cannot be entered,
/// and the connection ends.
pub proof fn law_known_packs_end_the_connection(
    packet: Seq<u8>,
    body: Seq<u8>,
    p: config_packets::SelectKnownPacks,
    stage: PhaseView,
    after: PhaseView,
    peer: Seq<char>,
    was: ServerContext,
    now: ServerContext,
    step: StepView,
)
    requires
        stage is Configuring,
        framed(packet, 0x07, body),
        layout::spells(
            body,
            seq![Field::VarInt(p.packs@.len() as i32)] + layout::fields_of_each(
                p.packs@,
                |pack: config_packets::KnownPack| formats::pack_layout(pack),
            ),
        ),
        p.packs@.len() <= 1024,
        forall|i: int|
            0 <= i < p.packs@.len() ==> config_packets::pack_fits((#[trigger] p.packs@[i])@),
        connection::answers(stage, after, peer, packet, was, now, step),
    ensures
        exists|m: Message| #[trigger]
            kicked_at_configuration(step, m, Failure::Rejected("registry data not loaded"@))
                && plainly(
                m,
                "Rukkit can accept your login, but cannot yet enter the world: the 26.2 registry data is not loaded. Server-list ping and login work; see the README roadmap."@,
                "gold"@,
            ),
        after == stage,
        now == was,
{
    lemma_framed(packet, 0x07, body);
    formats::law_known_packs_reads(body, p, "configuration");
    let m = connection::registry_notice();
    lemma_frame(0x02, nbt::network_bytes(text::nbt_form(m)));
    assert(kicked_at_configuration(step, m, Failure::Rejected("registry data not loaded"@)));
}

/// A client that has finished configuring ends the connection in order.
pub proof fn law_finished_configuration_ends_well(
    packet: Seq<u8>,
    stage: PhaseView,
    after: PhaseView,
    peer: Seq<char>,
    was: ServerContext,
    now: ServerContext,
    step: StepView,
)
    requires
        stage is Configuring,
        framed(packet, 0x03, Seq::empty()),
        connection::answers(stage, after, peer, packet, was, now, step),
    ensures
        step.replies.len() == 0,
        step.outcome == Some(Ok::<(), Failure>(())),
        step.view_distance is None,
        after == stage,
        now == was,
{
    lemma_framed(packet, 0x03, Seq::empty());
    formats::law_signals_are_empty(Seq::empty(), "configuration");
}

/// A packet of configuration that this server has no use for is passed over, and
/// the connection goes on.
pub proof fn law_other_packets_are_passed_over(
    packet: Seq<u8>,
    id: i32,
    body: Seq<u8>,
    stage: PhaseView,
    after: PhaseView,
    peer: Seq<char>,
    was: ServerContext,
    now: ServerContext,
    step: StepView,
)
    requires
        stage is Configuring,
        framed(packet, id, body),
        id != 0x00 && id != 0x02 && id != 0x03 && id != 0x04 && id != 0x07,
        connection::answers(stage, after, peer, packet, was, now, step),
    ensures
        quiet(step),
        after == stage,
        now == was,
{
    lemma_framed(packet, id, body);
}

/// A packet of configuration that this server knows and cannot read ends the
/// connection with the fault of the packet, and nothing is said.
pub proof fn law_unreadable_packets_end_the_connection(
    packet: Seq<u8>,
    id: i32,
    body: Seq<u8>,
    stage: PhaseView,
    after: PhaseView,
    peer: Seq<char>,
    was: ServerContext,
    now: ServerContext,
    step: StepView,
)
    requires
        stage is Configuring,
        framed(packet, id, body),
        connection::answers(stage, after, peer, packet, was, now, step),
    ensures
        id == 0x00 ==> (packets::parse_exact::<config_packets::ClientInformation>(
            body,
            "configuration",
        ) matches Err(e) ==> broken(step, Failure::Protocol(e))),
        id == 0x02 ==> (packets::parse_exact::<config_packets::PluginMessage>(
            body,
            "configuration",
        ) matches Err(e) ==> broken(step, Failure::Protocol(e))),
        id == 0x03 ==> (packets::parse_exact::<config_packets::FinishConfigurationAck>(
            body,
            "configuration",
        ) matches Err(e) ==> broken(step, Failure::Protocol(e))),
        id == 0x04 ==> (packets::parse_exact::<config_packets::KeepAlive>(
            body,
            "configuration",
        ) matches Err(e) ==> broken(step, Failure::Protocol(e))),
        id == 0x07 ==> (packets::parse_exact::<config_packets::SelectKnownPacks>(
            body,
            "configuration",
        ) matches Err(e) ==> broken(step, Failure::Protocol(e))),
{
    lemma_framed(packet, id, body);
}

// ---------------------------------------------------------------------------
// Around the conversation
// ---------------------------------------------------------------------------

/// The sample of the status document is of twelve players, or of all where there
/// are fewer: each name is that of somebody connected, and none comes twice.
pub proof fn law_sample_is_of_players(
    players: Map<u128, player::PlayerInfo>,
    names: Seq<Seq<char>>,
    i: int,
    j: int,
)
    requires
        connection::sampled(players, names),
    ensures
        names.len() <= 12 && names.len() <= players.len(),
        names.len() == 12 || names.len() == players.len(),
        0 <= i < names.len() ==> exists|id: u128| #[trigger]
            players.contains_key(id) && players[id].name@ == names[i],
        0 <= i < j < names.len() ==> names[i] != names[j],
{
    if 0 <= i < names.len() {
        assert(player::taken(players, names[i]));
    }
}

/// A server admits as many players as it is configured for, and nobody where that
/// is negative.
pub proof fn law_capacity(config: ServerConfig)
    ensures
        config.max_players >= 0 ==> connection::capacity_of(config) == config.max_players,
        config.max_players < 0 ==> connection::capacity_of(config) == 0,
{
}

/// Why a connection ended is told with what was met before what was expected, and
/// with what the peer or the server said at the end.
pub proof fn law_endings_tell_why(why: Failure)
    ensures
        ({
            let told = connection::failure_text(why);
            match why {
                Failure::Io(what) => what.is_suffix_of(told),
                Failure::Protocol(e) => ("protocol error: "@ + error::error_text(e)) == told,
                Failure::Closed => told == "peer closed the connection"@,
                Failure::TimedOut => told == "timed out waiting for the client"@,
                Failure::UnsupportedVersion { got, expected } => wording::between(
                    told,
                    "unsupported protocol version "@,
                    got as int,
                    expected as int,
                    ")"@,
                ),
                Failure::UnexpectedPacket { state, id } => ("unexpected packet "@
                    + error::id_text(id)).is_prefix_of(told) && state@.is_suffix_of(told),
                Failure::Rejected(what) => told == what,
            }
        }),
{
    reveal_strlit(" (this server speaks ");
}

} // verus!
