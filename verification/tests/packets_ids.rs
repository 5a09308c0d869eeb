//! The packet id tables.

use rukkit::protocol::packets::ids;

/// Two packets sharing an id in the same direction and state would make one
/// of them silently unreachable, which is a very hard bug to spot at
/// runtime. Check each table instead.
fn assert_unique(name: &str, ids: &[(&str, i32)]) {
    let mut seen: Vec<(&str, i32)> = Vec::new();
    for &(packet, id) in ids {
        if let Some((other, _)) = seen.iter().find(|(_, other_id)| *other_id == id) {
            panic!("{name}: {packet} and {other} share id {id:#04x}");
        }
        seen.push((packet, id));
    }
}

#[test]
fn login_ids_are_unique() {
    assert_unique(
        "login serverbound",
        &[
            ("HELLO", ids::login::serverbound::HELLO),
            ("ENCRYPTION_RESPONSE", ids::login::serverbound::ENCRYPTION_RESPONSE),
            ("PLUGIN_RESPONSE", ids::login::serverbound::PLUGIN_RESPONSE),
            ("LOGIN_ACKNOWLEDGED", ids::login::serverbound::LOGIN_ACKNOWLEDGED),
            ("COOKIE_RESPONSE", ids::login::serverbound::COOKIE_RESPONSE),
        ],
    );
    assert_unique(
        "login clientbound",
        &[
            ("LOGIN_DISCONNECT", ids::login::clientbound::LOGIN_DISCONNECT),
            ("ENCRYPTION_REQUEST", ids::login::clientbound::ENCRYPTION_REQUEST),
            ("LOGIN_SUCCESS", ids::login::clientbound::LOGIN_SUCCESS),
            ("SET_COMPRESSION", ids::login::clientbound::SET_COMPRESSION),
            ("PLUGIN_REQUEST", ids::login::clientbound::PLUGIN_REQUEST),
            ("COOKIE_REQUEST", ids::login::clientbound::COOKIE_REQUEST),
        ],
    );
}

#[test]
fn configuration_ids_are_unique() {
    assert_unique(
        "configuration serverbound",
        &[
            ("CLIENT_INFORMATION", ids::configuration::serverbound::CLIENT_INFORMATION),
            ("COOKIE_RESPONSE", ids::configuration::serverbound::COOKIE_RESPONSE),
            ("PLUGIN_MESSAGE", ids::configuration::serverbound::PLUGIN_MESSAGE),
            ("FINISH_CONFIGURATION", ids::configuration::serverbound::FINISH_CONFIGURATION),
            ("KEEP_ALIVE", ids::configuration::serverbound::KEEP_ALIVE),
            ("PONG", ids::configuration::serverbound::PONG),
            (
                "RESOURCE_PACK_RESPONSE",
                ids::configuration::serverbound::RESOURCE_PACK_RESPONSE,
            ),
            ("SELECT_KNOWN_PACKS", ids::configuration::serverbound::SELECT_KNOWN_PACKS),
        ],
    );
    assert_unique(
        "configuration clientbound",
        &[
            ("COOKIE_REQUEST", ids::configuration::clientbound::COOKIE_REQUEST),
            ("PLUGIN_MESSAGE", ids::configuration::clientbound::PLUGIN_MESSAGE),
            ("DISCONNECT", ids::configuration::clientbound::DISCONNECT),
            ("FINISH_CONFIGURATION", ids::configuration::clientbound::FINISH_CONFIGURATION),
            ("KEEP_ALIVE", ids::configuration::clientbound::KEEP_ALIVE),
            ("PING", ids::configuration::clientbound::PING),
            ("RESET_CHAT", ids::configuration::clientbound::RESET_CHAT),
            ("REGISTRY_DATA", ids::configuration::clientbound::REGISTRY_DATA),
            ("REMOVE_RESOURCE_PACK", ids::configuration::clientbound::REMOVE_RESOURCE_PACK),
            ("ADD_RESOURCE_PACK", ids::configuration::clientbound::ADD_RESOURCE_PACK),
            ("STORE_COOKIE", ids::configuration::clientbound::STORE_COOKIE),
            ("TRANSFER", ids::configuration::clientbound::TRANSFER),
            (
                "UPDATE_ENABLED_FEATURES",
                ids::configuration::clientbound::UPDATE_ENABLED_FEATURES,
            ),
            ("UPDATE_TAGS", ids::configuration::clientbound::UPDATE_TAGS),
            ("SELECT_KNOWN_PACKS", ids::configuration::clientbound::SELECT_KNOWN_PACKS),
            ("CUSTOM_REPORT_DETAILS", ids::configuration::clientbound::CUSTOM_REPORT_DETAILS),
            ("SERVER_LINKS", ids::configuration::clientbound::SERVER_LINKS),
        ],
    );
}

#[test]
fn play_ids_are_unique() {
    assert_unique(
        "play serverbound",
        &[
            ("ACCEPT_TELEPORTATION", ids::play::serverbound::ACCEPT_TELEPORTATION),
            ("CHAT_COMMAND", ids::play::serverbound::CHAT_COMMAND),
            ("CHAT", ids::play::serverbound::CHAT),
            ("CLIENT_TICK_END", ids::play::serverbound::CLIENT_TICK_END),
            ("PLUGIN_MESSAGE", ids::play::serverbound::PLUGIN_MESSAGE),
            ("KEEP_ALIVE", ids::play::serverbound::KEEP_ALIVE),
            ("MOVE_PLAYER_POS", ids::play::serverbound::MOVE_PLAYER_POS),
            ("MOVE_PLAYER_POS_ROT", ids::play::serverbound::MOVE_PLAYER_POS_ROT),
            ("MOVE_PLAYER_ROT", ids::play::serverbound::MOVE_PLAYER_ROT),
            (
                "MOVE_PLAYER_STATUS_ONLY",
                ids::play::serverbound::MOVE_PLAYER_STATUS_ONLY,
            ),
        ],
    );
    assert_unique(
        "play clientbound",
        &[
            ("KEEP_ALIVE", ids::play::clientbound::KEEP_ALIVE),
            ("CHUNK_DATA", ids::play::clientbound::CHUNK_DATA),
            ("GAME_EVENT", ids::play::clientbound::GAME_EVENT),
            ("LOGIN", ids::play::clientbound::LOGIN),
            ("DISCONNECT", ids::play::clientbound::DISCONNECT),
            ("PLAYER_POSITION", ids::play::clientbound::PLAYER_POSITION),
            (
                "SET_CHUNK_CACHE_CENTER",
                ids::play::clientbound::SET_CHUNK_CACHE_CENTER,
            ),
            (
                "SET_DEFAULT_SPAWN_POSITION",
                ids::play::clientbound::SET_DEFAULT_SPAWN_POSITION,
            ),
            ("SYSTEM_CHAT", ids::play::clientbound::SYSTEM_CHAT),
        ],
    );
}

#[test]
#[allow(clippy::assertions_on_constants)]
fn play_table_is_still_flagged_provisional() {
    // A reminder in test form: clear this flag in the same change that
    // verifies the play ids against 26.2, not before.
    assert!(ids::play::PROVISIONAL);
}
