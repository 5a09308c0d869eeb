//! The state machine driven through the codec, from both ends.

use bytes::BytesMut;
use rukkit::protocol::codec::{Decoder, Encoder};
use rukkit::protocol::packets::{handshake, ids, login as login_packets, ServerboundPacket};
use rukkit::protocol::reader::DEFAULT_MAX_STRING_LEN;
use rukkit::protocol::types::Uuid;
use rukkit::protocol::{version, PacketReader, PacketWrite};
use rukkit::server::config::LoginFinishedFlag;
use rukkit::server::connection::{Connection, Phase};
use rukkit::server::{offline_uuid, Server, ServerConfig, ServerContext};

/// A minimal client that speaks the framed protocol to a connection.
struct TestClient {
    connection: Option<Connection>,
    encoder: Encoder,
    decoder: Decoder,
}

impl TestClient {
    fn connect() -> Self {
        Self {
            connection: Some(Connection::new("127.0.0.1:40000".into())),
            encoder: Encoder::new(),
            decoder: Decoder::new(),
        }
    }

    /// Sends a packet, and has the server answer it.
    fn send_raw(&mut self, packet: &[u8], ctx: &mut ServerContext) {
        let mut wire = BytesMut::new();
        self.encoder.encode(packet, &mut wire).expect("encode");
        let Some(mut connection) = self.connection.take() else {
            panic!("the server hung up");
        };
        connection.feed(&mut wire);
        let mut out = BytesMut::new();
        let mut over = false;
        while !over {
            let Ok(Some(packet)) = connection.read_packet() else {
                break;
            };
            let step = connection.step(&packet, ctx);
            for reply in &step.replies {
                connection.perform(reply, &mut out).expect("perform");
            }
            over = step.outcome.is_some();
        }
        self.decoder.feed(&mut out);
        if over {
            connection.close(ctx);
        } else {
            self.connection = Some(connection);
        }
    }

    fn handshake(&mut self, protocol: i32, next: handshake::NextState, ctx: &mut ServerContext) {
        let intention = handshake::Intention {
            protocol_version: protocol,
            server_address: "127.0.0.1".into(),
            server_port: 25565,
            next_state: next,
        };
        let mut packet = Vec::new();
        packet.write_varint(handshake::Intention::ID);
        intention.encode_body(&mut packet);
        self.send_raw(&packet, ctx);
    }

    fn hello(&mut self, name: &str, ctx: &mut ServerContext) {
        let mut packet = Vec::new();
        packet.write_varint(login_packets::Hello::ID);
        login_packets::Hello {
            name: name.into(),
            profile_id: Uuid::nil(),
        }
        .encode_body(&mut packet);
        self.send_raw(&packet, ctx);
    }

    /// Reads one packet, returning `None` if the server sent no more.
    fn recv(&mut self) -> Option<Vec<u8>> {
        self.decoder
            .decode()
            .expect("decode")
            .map(|packet| packet.to_vec())
    }

    fn hung_up(&self) -> bool {
        self.connection.is_none()
    }
}

fn test_config() -> ServerConfig {
    ServerConfig {
        bind: "127.0.0.1:0".into(),
        motd: "Rukkit integration test".into(),
        max_players: 4,
        ..ServerConfig::default()
    }
}

fn server(config: ServerConfig) -> ServerContext {
    Server::new(config, true).expect("valid config").into_context()
}

#[test]
fn a_server_list_ping_returns_a_valid_status_document() {
    let mut ctx = server(test_config());
    let mut client = TestClient::connect();

    client.handshake(version::PROTOCOL_VERSION, handshake::NextState::Status, &mut ctx);
    client.send_raw(&[ids::status::serverbound::STATUS_REQUEST as u8], &mut ctx);

    let packet = client.recv().expect("a status response");
    let mut r = PacketReader::new(&packet);
    assert_eq!(
        r.read_varint().unwrap(),
        ids::status::clientbound::STATUS_RESPONSE
    );

    let json = r.read_string(DEFAULT_MAX_STRING_LEN).unwrap();
    let status: serde_json::Value = serde_json::from_str(&json).expect("valid status JSON");

    assert_eq!(status["version"]["protocol"], version::PROTOCOL_VERSION);
    assert_eq!(status["version"]["name"], version::MINECRAFT_VERSION);
    assert_eq!(status["players"]["max"], 4);
    assert_eq!(status["players"]["online"], 0);
    assert_eq!(status["description"]["text"], "Rukkit integration test");
}

#[test]
fn a_ping_payload_is_echoed_exactly() {
    let mut ctx = server(test_config());
    let mut client = TestClient::connect();

    client.handshake(version::PROTOCOL_VERSION, handshake::NextState::Status, &mut ctx);
    client.send_raw(&[ids::status::serverbound::STATUS_REQUEST as u8], &mut ctx);
    client.recv().expect("status response");

    let payload: i64 = -0x0123_4567_89AB_CDEF;
    let mut packet = Vec::new();
    packet.write_varint(ids::status::serverbound::PING_REQUEST);
    packet.write_i64(payload);
    client.send_raw(&packet, &mut ctx);

    let response = client.recv().expect("a pong");
    let mut r = PacketReader::new(&response);
    assert_eq!(
        r.read_varint().unwrap(),
        ids::status::clientbound::PONG_RESPONSE
    );
    assert_eq!(r.read_i64().unwrap(), payload);
}

#[test]
fn a_ping_without_a_status_request_still_gets_a_pong() {
    // Some server-list implementations skip straight to the ping.
    let mut ctx = server(test_config());
    let mut client = TestClient::connect();

    client.handshake(version::PROTOCOL_VERSION, handshake::NextState::Status, &mut ctx);

    let mut packet = Vec::new();
    packet.write_varint(ids::status::serverbound::PING_REQUEST);
    packet.write_i64(99);
    client.send_raw(&packet, &mut ctx);

    let response = client.recv().expect("a pong");
    let mut r = PacketReader::new(&response);
    assert_eq!(
        r.read_varint().unwrap(),
        ids::status::clientbound::PONG_RESPONSE
    );
    assert_eq!(r.read_i64().unwrap(), 99);
}

#[test]
fn a_mismatched_protocol_version_is_told_why() {
    let mut ctx = server(test_config());
    let mut client = TestClient::connect();

    client.handshake(
        version::PROTOCOL_VERSION - 1,
        handshake::NextState::Login,
        &mut ctx,
    );

    let packet = client.recv().expect("a disconnect");
    let mut r = PacketReader::new(&packet);
    assert_eq!(
        r.read_varint().unwrap(),
        ids::login::clientbound::LOGIN_DISCONNECT
    );
    let reason = r.read_string(DEFAULT_MAX_STRING_LEN).unwrap();
    assert!(reason.contains("26.2"), "{reason}");
    assert!(
        reason.contains(&version::PROTOCOL_VERSION.to_string()),
        "{reason}"
    );
    assert!(client.hung_up());
}

#[test]
fn login_reaches_configuration_and_enables_compression() {
    let mut ctx = server(test_config());
    let mut client = TestClient::connect();

    client.handshake(version::PROTOCOL_VERSION, handshake::NextState::Login, &mut ctx);
    client.hello("tester", &mut ctx);

    // Compression is negotiated first, and applies from the next packet on.
    let set_compression = client.recv().expect("set compression");
    let mut r = PacketReader::new(&set_compression);
    assert_eq!(
        r.read_varint().unwrap(),
        ids::login::clientbound::SET_COMPRESSION
    );
    let threshold = r.read_varint().unwrap();
    assert_eq!(threshold, 256);
    client.decoder.enable_compression(threshold as usize);
    client.encoder.enable_compression(threshold as usize);

    // The very next packet arrives compressed; decoding it proves the switch
    // happened on exactly the right byte on both sides.
    let success = client.recv().expect("login success");
    let mut r = PacketReader::new(&success);
    assert_eq!(
        r.read_varint().unwrap(),
        ids::login::clientbound::LOGIN_SUCCESS
    );
    let uuid = r.read_uuid().unwrap();
    let name = r.read_string(16).unwrap();
    assert_eq!(name, "tester");
    assert_eq!(uuid, offline_uuid("tester"));
    assert_eq!(r.read_varint().unwrap(), 0, "no skin properties");
    // The default config appends the trailing flag.
    assert_eq!(r.remaining(), 1, "expected the trailing flag");
    assert!(!r.read_bool().unwrap());

    // Acknowledge, and the server should move us into configuration.
    client.send_raw(&[ids::login::serverbound::LOGIN_ACKNOWLEDGED as u8], &mut ctx);

    let brand = client.recv().expect("brand plugin message");
    let mut r = PacketReader::new(&brand);
    assert_eq!(
        r.read_varint().unwrap(),
        ids::configuration::clientbound::PLUGIN_MESSAGE
    );
    assert_eq!(
        r.read_string(DEFAULT_MAX_STRING_LEN).unwrap(),
        "minecraft:brand"
    );
    assert_eq!(r.read_string(DEFAULT_MAX_STRING_LEN).unwrap(), "Rukkit");

    // The client counts among the players until its connection is closed.
    assert!(ctx.players.contains_name("tester"));
    let Some(connection) = client.connection.take() else {
        panic!("the connection should go on");
    };
    assert!(matches!(connection.session().phase(), Phase::Configuring { .. }));
    connection.close(&mut ctx);
    assert!(ctx.players.is_empty());
}

#[test]
fn the_login_finished_trailing_flag_follows_the_config() {
    // A client that disagrees about this field rejects login_finished outright,
    // so both layouts have to be reachable from configuration alone.
    for (flag, expected_trailing) in [
        (LoginFinishedFlag::Omit, 0usize),
        (LoginFinishedFlag::SendFalse, 1),
        (LoginFinishedFlag::SendTrue, 1),
    ] {
        let config = ServerConfig {
            login_finished_flag: flag,
            // Keep it uncompressed so the framing stays trivial here.
            compression_threshold: -1,
            ..test_config()
        };
        let mut ctx = server(config);
        let mut client = TestClient::connect();

        client.handshake(version::PROTOCOL_VERSION, handshake::NextState::Login, &mut ctx);
        client.hello("tester", &mut ctx);

        let finished = client.recv().expect("login_finished");
        let mut r = PacketReader::new(&finished);
        assert_eq!(
            r.read_varint().unwrap(),
            ids::login::clientbound::LOGIN_SUCCESS
        );
        r.read_uuid().unwrap();
        assert_eq!(r.read_string(16).unwrap(), "tester");
        assert_eq!(r.read_varint().unwrap(), 0);
        assert_eq!(r.remaining(), expected_trailing, "layout for {flag:?}");

        if expected_trailing == 1 {
            assert_eq!(
                r.read_bool().unwrap(),
                flag == LoginFinishedFlag::SendTrue,
                "flag value for {flag:?}"
            );
        }
    }
}

#[test]
fn a_garbage_first_packet_is_dropped_without_taking_the_server_down() {
    let mut ctx = server(test_config());

    {
        let mut client = TestClient::connect();
        // A valid frame carrying a packet id that means nothing in handshaking.
        client.send_raw(&[0x7F, 0x01, 0x02], &mut ctx);
        // The server hangs up rather than answering.
        assert!(client.recv().is_none());
        assert!(client.hung_up());
    }

    // The next client is served normally, proving the failure was contained.
    let mut client = TestClient::connect();
    client.handshake(version::PROTOCOL_VERSION, handshake::NextState::Status, &mut ctx);
    client.send_raw(&[ids::status::serverbound::STATUS_REQUEST as u8], &mut ctx);
    assert!(client.recv().is_some(), "server should still be serving");
}
