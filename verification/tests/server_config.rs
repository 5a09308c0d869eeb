//! Server configuration.

use rukkit::server::ServerConfig;

#[test]
fn defaults_are_valid() {
    ServerConfig::default()
        .validate(true)
        .expect("defaults must pass");
}

#[test]
fn bad_bind_address_is_caught_by_validation() {
    let mut config = ServerConfig {
        bind: "not-an-address".into(),
        ..ServerConfig::default()
    };
    assert!(config.validate(false).is_err());

    config.bind = "127.0.0.1:25565".into();
    assert!(config.validate(true).is_ok());
}

#[test]
fn zero_tick_rate_is_rejected() {
    let config = ServerConfig {
        tick_rate: 0,
        ..ServerConfig::default()
    };
    assert!(config.validate(true).is_err());
}

#[test]
fn keepalive_timeout_must_exceed_the_interval() {
    let defaults = ServerConfig::default();
    let mut config = ServerConfig {
        keepalive_timeout_secs: defaults.keepalive_interval_secs,
        ..defaults
    };
    assert!(config.validate(true).is_err());

    config.keepalive_timeout_secs = config.keepalive_interval_secs + 1;
    assert!(config.validate(true).is_ok());
}

#[test]
fn simulation_distance_is_clamped_to_view_distance() {
    let mut config = ServerConfig {
        view_distance: 6,
        simulation_distance: 16,
        ..ServerConfig::default()
    };
    assert_eq!(config.effective_simulation_distance(), 6);

    config.simulation_distance = 4;
    assert_eq!(config.effective_simulation_distance(), 4);
}

#[test]
fn negative_threshold_disables_compression() {
    let mut config = ServerConfig::default();
    assert_eq!(config.compression(), Some(256), "the default threshold");
    config.compression_threshold = -1;
    assert_eq!(config.compression(), None);
}

#[test]
fn tick_duration_matches_the_rate() {
    let mut config = ServerConfig::default();
    assert_eq!(config.tick_duration().as_millis(), 50);
    config.tick_rate = 40;
    assert_eq!(config.tick_duration().as_millis(), 25);
}
