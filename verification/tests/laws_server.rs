//! Promises of the server, on concrete values.

use std::sync::Arc;

use rukkit::protocol::nbt::read_network;
use rukkit::protocol::packets::config::{ClientInformation, FinishConfigurationAck};
use rukkit::protocol::packets::handshake::{Intention, NextState};
use rukkit::protocol::packets::login::Hello;
use rukkit::protocol::packets::{ids, ServerboundPacket};
use rukkit::protocol::reader::DEFAULT_MAX_STRING_LEN;
use rukkit::protocol::types::Uuid;
use rukkit::protocol::{version, Component, PacketReader, PacketWrite};
use rukkit::server::connection::{
    effective_view_distance, ConnError, Phase, Reply, Session, Step,
};
use rukkit::server::player::{JoinError, PlayerInfo};
use rukkit::server::status::{base64_encode, StatusCache};
use rukkit::server::{offline_uuid, PlayerRegistry, Server, ServerConfig, ServerContext};

fn server(config: ServerConfig) -> ServerContext {
    Server::new(config, true).expect("valid config").into_context()
}

fn packet(id: i32, body: impl FnOnce(&mut Vec<u8>)) -> Vec<u8> {
    let mut packet = Vec::new();
    packet.write_varint(id);
    body(&mut packet);
    packet
}

fn intention(protocol_version: i32, next_state: NextState) -> Vec<u8> {
    packet(Intention::ID, |out| {
        Intention {
            protocol_version,
            server_address: "localhost".into(),
            server_port: 25565,
            next_state,
        }
        .encode_body(out)
    })
}

fn hello(name: &str) -> Vec<u8> {
    packet(Hello::ID, |out| {
        Hello {
            name: name.into(),
            profile_id: Uuid::from_u128(42),
        }
        .encode_body(out)
    })
}

fn acknowledged() -> Vec<u8> {
    packet(ids::login::serverbound::LOGIN_ACKNOWLEDGED, |_| {})
}

/// The packet of the only reply.
fn only_packet(step: &Step) -> &[u8] {
    match &step.replies[..] {
        [Reply::Send(packet)] => packet,
        other => panic!("one packet expected, not {other:?}"),
    }
}

/// A session that has been let in to name itself.
fn at_login(ctx: &mut ServerContext) -> Session {
    let mut session = Session::new("127.0.0.1:5".into());
    let step = session.step(
        &intention(version::PROTOCOL_VERSION, NextState::Login),
        ctx,
    );
    assert!(step.replies.is_empty() && step.outcome.is_none());
    assert!(matches!(session.phase(), Phase::Login));
    session
}

/// A session of a client that counts among the players.
fn playing(name: &str, ctx: &mut ServerContext) -> Session {
    let mut session = at_login(ctx);
    assert!(session.step(&hello(name), ctx).outcome.is_none());
    assert!(session.step(&acknowledged(), ctx).outcome.is_none());
    session
}

#[test]
fn another_version_is_turned_away_and_told_why() {
    let mut ctx = server(ServerConfig::default());
    for next in [NextState::Login, NextState::Transfer] {
        let mut session = Session::new("127.0.0.1:5".into());
        let step = session.step(&intention(775, next), &mut ctx);
        assert!(matches!(
            step.outcome,
            Some(Err(ConnError::UnsupportedVersion {
                got: 775,
                expected: 776
            }))
        ));
        let mut r = PacketReader::new(only_packet(&step));
        assert_eq!(
            r.read_varint().unwrap(),
            ids::login::clientbound::LOGIN_DISCONNECT
        );
        assert_eq!(
            r.read_string(DEFAULT_MAX_STRING_LEN).unwrap(),
            "{\"text\":\"This server is running Minecraft 26.2 (protocol 776). \
             Your client speaks protocol 775.\",\"color\":\"red\"}"
        );
    }
    // A server-list ping is answered whatever the version.
    let mut session = Session::new("127.0.0.1:5".into());
    let step = session.step(&intention(775, NextState::Status), &mut ctx);
    assert!(step.outcome.is_none());
}

#[test]
fn compression_is_announced_before_it_is_turned_on() {
    let mut ctx = server(ServerConfig::default());
    let mut session = at_login(&mut ctx);
    let step = session.step(&hello("Notch"), &mut ctx);
    assert!(matches!(
        &step.replies[..],
        [Reply::Send(_), Reply::Compress(256), Reply::Send(_)]
    ));
    let Reply::Send(announcement) = &step.replies[0] else {
        panic!("a packet comes first");
    };
    assert_eq!(announcement, &[3, 0x80, 0x02]);
}

#[test]
fn the_identity_that_a_client_claims_is_ignored() {
    let mut ctx = server(ServerConfig {
        compression_threshold: -1,
        ..ServerConfig::default()
    });
    let mut session = at_login(&mut ctx);
    let step = session.step(&hello("Notch"), &mut ctx);
    let mut r = PacketReader::new(only_packet(&step));
    assert_eq!(
        r.read_varint().unwrap(),
        ids::login::clientbound::LOGIN_SUCCESS
    );
    assert_eq!(
        r.read_uuid().unwrap().to_string(),
        "b50ad385-829d-3141-a216-7e7d7539ba7f"
    );
}

#[test]
fn online_mode_is_refused_plainly() {
    let mut ctx = server(ServerConfig {
        online_mode: true,
        ..ServerConfig::default()
    });
    let mut session = at_login(&mut ctx);
    let step = session.step(&hello("Notch"), &mut ctx);
    let Some(Err(ConnError::Rejected(why))) = &step.outcome else {
        panic!("the client is let in");
    };
    assert_eq!(why, "online mode is not implemented");
    let mut r = PacketReader::new(only_packet(&step));
    r.read_varint().unwrap();
    assert!(r
        .read_string(DEFAULT_MAX_STRING_LEN)
        .unwrap()
        .contains("online-mode"));
}

#[test]
fn a_full_server_and_a_taken_name_are_explained() {
    let mut ctx = server(ServerConfig {
        max_players: 2,
        ..ServerConfig::default()
    });
    let first = playing("first", &mut ctx);

    let mut same = at_login(&mut ctx);
    same.step(&hello("first"), &mut ctx);
    let step = same.step(&acknowledged(), &mut ctx);
    let Some(Err(ConnError::Rejected(why))) = &step.outcome else {
        panic!("the name is taken");
    };
    assert_eq!(why, JoinError::NameTaken.message());

    let second = playing("second", &mut ctx);
    let mut third = at_login(&mut ctx);
    third.step(&hello("third"), &mut ctx);
    let step = third.step(&acknowledged(), &mut ctx);
    let mut r = PacketReader::new(only_packet(&step));
    assert_eq!(
        r.read_varint().unwrap(),
        ids::configuration::clientbound::DISCONNECT
    );
    let reason = read_network(&mut r).unwrap();
    let reason = reason.as_compound().unwrap();
    assert_eq!(
        reason.get("text").unwrap().as_str(),
        Some("The server is full")
    );
    third.close(&mut ctx);
    assert_eq!(ctx.players.count(), 2);

    // Whoever leaves makes room, and nobody else is touched.
    first.close(&mut ctx);
    assert_eq!(ctx.players.count(), 1);
    assert!(ctx.players.contains_name("second"));
    second.close(&mut ctx);
    assert!(ctx.players.is_empty());
}

#[test]
fn a_player_is_known_by_name_and_address() {
    let mut ctx = server(ServerConfig::default());
    let session = playing("someone", &mut ctx);
    let info = ctx.players.get(offline_uuid("someone")).unwrap();
    assert_eq!(info.name, "someone");
    assert_eq!(info.addr, "127.0.0.1:5");
    assert_eq!(session.addr(), "127.0.0.1:5");
}

#[test]
fn configuration_answers_what_it_knows_and_ignores_the_rest() {
    let mut ctx = server(ServerConfig::default());
    let mut session = playing("someone", &mut ctx);

    let settings = packet(ClientInformation::ID, |out| {
        ClientInformation {
            locale: "en_us".into(),
            view_distance: 32,
            chat_mode: Default::default(),
            chat_colors: true,
            displayed_skin_parts: 0,
            main_hand: 1,
            text_filtering_enabled: false,
            allows_listing: true,
            particle_status: 0,
        }
        .encode_body(out)
    });
    let step = session.step(&settings, &mut ctx);
    assert_eq!(step.view_distance, Some(10));
    assert!(step.replies.is_empty() && step.outcome.is_none());

    let step = session.step(&packet(0x70, |out| out.write_u8(1)), &mut ctx);
    assert!(step.replies.is_empty() && step.outcome.is_none());

    let alive = packet(ids::configuration::serverbound::KEEP_ALIVE, |out| {
        out.write_i64(1)
    });
    assert!(session.step(&alive, &mut ctx).outcome.is_none());
    let cut_short = packet(ids::configuration::serverbound::KEEP_ALIVE, |out| {
        out.write_u8(1)
    });
    assert!(matches!(
        session.step(&cut_short, &mut ctx).outcome,
        Some(Err(ConnError::Protocol(_)))
    ));

    let packs = packet(ids::configuration::serverbound::SELECT_KNOWN_PACKS, |out| {
        out.write_varint(0)
    });
    let step = session.step(&packs, &mut ctx);
    let Some(Err(ConnError::Rejected(why))) = &step.outcome else {
        panic!("the world cannot be entered");
    };
    assert_eq!(why, "registry data not loaded");
    let mut r = PacketReader::new(only_packet(&step));
    r.read_varint().unwrap();
    let reason = read_network(&mut r).unwrap();
    let color = reason.as_compound().unwrap().get("color").unwrap();
    assert_eq!(color.as_str(), Some("gold"));

    let done = packet(FinishConfigurationAck::ID, |_| {});
    assert!(matches!(
        session.step(&done, &mut ctx).outcome,
        Some(Ok(()))
    ));
}

#[test]
fn unexpected_packets_end_every_strict_phase() {
    let mut ctx = server(ServerConfig::default());
    let stray = packet(0x7F, |_| {});
    let unexpected = |step: Step, name: &str| match step.outcome {
        Some(Err(ConnError::UnexpectedPacket { state, id: 0x7F })) => state == name,
        _ => false,
    };

    let mut session = Session::new("127.0.0.1:5".into());
    assert!(unexpected(session.step(&stray, &mut ctx), "handshaking"));

    let mut session = Session::new("127.0.0.1:5".into());
    session.step(&intention(776, NextState::Status), &mut ctx);
    assert!(unexpected(session.step(&stray, &mut ctx), "status"));

    let mut session = at_login(&mut ctx);
    assert!(unexpected(session.step(&stray, &mut ctx), "login"));

    let mut session = at_login(&mut ctx);
    session.step(&hello("x"), &mut ctx);
    assert!(unexpected(session.step(&stray, &mut ctx), "login"));
    assert!(ctx.players.is_empty());
}

#[test]
fn a_ping_that_is_broken_off_is_no_failure() {
    let mut ctx = server(ServerConfig::default());
    let mut session = Session::new("127.0.0.1:5".into());
    assert!(session.read_ended(ConnError::Closed).is_err());
    session.step(&intention(776, NextState::Status), &mut ctx);
    assert!(session.read_ended(ConnError::Closed).is_ok());
    assert!(session.read_ended(ConnError::TimedOut).is_err());
}

#[test]
fn a_failed_send_is_reported_but_for_another_version() {
    let io = || ConnError::Io("gone".into());
    assert!(matches!(
        Session::send_ended(None, io()),
        Err(ConnError::Io(_))
    ));
    assert!(matches!(
        Session::send_ended(Some(Err(ConnError::Rejected("no".into()))), io()),
        Err(ConnError::Io(_))
    ));
    let other = ConnError::UnsupportedVersion {
        got: 1,
        expected: 776,
    };
    assert!(matches!(
        Session::send_ended(Some(Err(other)), io()),
        Err(ConnError::UnsupportedVersion { got: 1, .. })
    ));
}

#[test]
fn a_view_distance_is_a_request() {
    assert_eq!(effective_view_distance(5, 10), 5);
    assert_eq!(effective_view_distance(20, 10), 10);
    assert_eq!(effective_view_distance(-1, 10), 0);
}

#[test]
fn joining_and_leaving_cancel_out() {
    let mut registry = PlayerRegistry::new();
    let info = |name: &str| PlayerInfo {
        uuid: offline_uuid(name),
        name: name.into(),
        addr: "a".into(),
    };
    registry.try_insert(info("a"), 2).unwrap();
    registry.try_insert(info("b"), 2).unwrap();
    assert_eq!(registry.try_insert(info("c"), 2), Err(JoinError::Full));
    assert_eq!(registry.remove(offline_uuid("b")), Some(info("b")));
    assert_eq!(registry.snapshot(), vec![info("a")]);
    assert_eq!(registry.try_insert(info("a"), 2), Err(JoinError::NameTaken));
}

#[test]
fn offline_identities_are_of_version_three() {
    for name in ["", "a", "Notch", "한글"] {
        let uuid = offline_uuid(name);
        assert_eq!(uuid.get_version_num(), 3);
        assert_eq!(uuid.as_bytes()[8] >> 6, 2);
    }
}

#[test]
fn four_characters_stand_for_three_bytes() {
    for len in 0..20 {
        let bytes = vec![0xA5u8; len];
        assert_eq!(base64_encode(&bytes).len(), len.div_ceil(3) * 4);
    }
}

#[test]
fn a_document_is_built_once_and_shared() {
    let mut cache = StatusCache::new(Component::text("m"), 5);
    let names = vec!["a".to_owned()];
    let first = cache.json(1, &names);
    let again = cache.json(1, &names);
    assert!(Arc::ptr_eq(&first, &again));
    assert_eq!(cache.rebuild_count(), 1);
    cache.json(2, &names);
    cache.json(2, &[]);
    assert_eq!(cache.rebuild_count(), 3);
}

#[test]
fn tick_durations_are_the_nearest_nanoseconds() {
    let nanos = |tick_rate: u32| {
        ServerConfig {
            tick_rate,
            ..ServerConfig::default()
        }
        .tick_duration()
        .as_nanos()
    };
    for rate in [1, 3, 7, 20, 60, 144, 1000, 999_999_999, u32::MAX] {
        let expected = std::time::Duration::from_secs_f64(1.0 / f64::from(rate));
        assert_eq!(nanos(rate), expected.as_nanos(), "at {rate}");
    }
    // The rates for which the quotient is a whole number and a half.
    for power in 0..10 {
        let rate = 1024 * 5u32.pow(power);
        let expected = std::time::Duration::from_secs_f64(1.0 / f64::from(rate));
        assert_eq!(nanos(rate), expected.as_nanos(), "at {rate}");
    }
    assert_eq!(nanos(20), 50_000_000);
    assert_eq!(nanos(3), 333_333_333);
    // A rate of zero is taken as one.
    assert_eq!(nanos(0), 1_000_000_000);
}

#[test]
fn settings_that_would_misbehave_are_refused_one_by_one() {
    let refused = |config: ServerConfig| config.validate(true).unwrap_err().message();
    let defaults = ServerConfig::default;
    assert_eq!(
        refused(ServerConfig {
            tick_rate: 0,
            ..defaults()
        }),
        "tick_rate must be at least 1"
    );
    assert_eq!(
        refused(ServerConfig {
            view_distance: 1,
            ..defaults()
        }),
        "view_distance must be at least 2"
    );
    assert_eq!(
        refused(ServerConfig {
            max_players: -1,
            ..defaults()
        }),
        "max_players cannot be negative"
    );
    assert_eq!(
        refused(ServerConfig {
            keepalive_timeout_secs: 15,
            ..defaults()
        }),
        "keepalive_timeout_secs must exceed keepalive_interval_secs"
    );
    let unbound = ServerConfig {
        bind: "nowhere".into(),
        ..defaults()
    };
    assert_eq!(
        unbound.validate(false).unwrap_err().message(),
        "`nowhere` is not a valid address"
    );
}
