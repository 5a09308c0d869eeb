//! Building a server.

use rukkit::server::server::{report_is_due, TICK_REPORT_INTERVAL};
use rukkit::server::{Server, ServerConfig};

fn test_config() -> ServerConfig {
    ServerConfig {
        bind: "127.0.0.1:0".into(),
        ..ServerConfig::default()
    }
}

#[test]
fn a_server_can_be_built_from_defaults() {
    let server = Server::new(test_config(), true).expect("valid config");
    assert_eq!(server.context().players.count(), 0);
}

#[test]
fn an_invalid_config_is_refused_at_construction() {
    let config = ServerConfig {
        tick_rate: 0,
        ..test_config()
    };
    assert!(Server::new(config, true).is_err());
}

#[test]
fn the_status_document_reflects_the_configured_motd() {
    let config = ServerConfig {
        motd: "Rukkit test".into(),
        ..test_config()
    };
    let mut ctx = Server::new(config, true).unwrap().into_context();
    let json = ctx.status.json(0, &[]);
    assert!(json.contains("Rukkit test"), "{json}");
}

#[test]
fn a_bind_address_that_does_not_parse_is_refused_at_construction() {
    assert!(Server::new(test_config(), false).is_err());
}

#[test]
fn a_new_server_uses_the_overworld_and_the_placeholder_blocks() {
    let server = Server::new(test_config(), true).unwrap();
    assert_eq!(server.context().limits.min_y, -64);
    assert_eq!(server.context().limits.height, 384);
    assert_eq!(server.context().states.bedrock, 4);
    assert_eq!(server.context().states.total_states, 27_000);
    assert_eq!(server.context().config.bind, "127.0.0.1:0");
}

#[test]
fn tick_health_is_reported_at_whole_intervals() {
    assert!(report_is_due(TICK_REPORT_INTERVAL));
    assert!(report_is_due(2 * TICK_REPORT_INTERVAL));
    assert!(!report_is_due(TICK_REPORT_INTERVAL - 1));
    assert!(!report_is_due(TICK_REPORT_INTERVAL + 1));
}

#[test]
fn the_spawn_chunk_follows_the_configured_world() {
    let flat = Server::new(test_config(), true).unwrap().into_context();
    let chunk = flat.spawn_chunk();
    assert_eq!(chunk.block(7, -60, 7, &flat.states), flat.states.grass_block);
    assert_eq!(chunk.block(7, -64, 7, &flat.states), flat.states.bedrock);

    let config = ServerConfig {
        flat_world: false,
        ..test_config()
    };
    let empty = Server::new(config, true).unwrap().into_context();
    let chunk = empty.spawn_chunk();
    assert!(chunk.sections().iter().all(|s| s.is_empty(&empty.states)));
}
