//! The packet of the handshaking state.

use rukkit::protocol::packets::decode_exact;
use rukkit::protocol::packets::handshake::{Intention, NextState, MAX_ADDRESS_LEN};
use rukkit::protocol::{PacketWrite, PROTOCOL_VERSION};

#[test]
fn round_trips() {
    let original = Intention {
        protocol_version: PROTOCOL_VERSION,
        server_address: "mc.example.com".into(),
        server_port: 25565,
        next_state: NextState::Login,
    };
    let mut body = Vec::new();
    original.encode_body(&mut body);
    assert_eq!(
        decode_exact::<Intention>(&body, "handshaking").unwrap(),
        original
    );
}

#[test]
fn all_next_states_round_trip() {
    for state in [NextState::Status, NextState::Login, NextState::Transfer] {
        assert_eq!(NextState::from_id(state.id()).unwrap(), state);
    }
}

#[test]
fn unknown_next_state_is_rejected() {
    assert!(NextState::from_id(0).is_err());
    assert!(NextState::from_id(4).is_err());
}

#[test]
fn overlong_address_is_rejected() {
    let mut body = Vec::new();
    body.write_varint(776);
    body.write_string(&"a".repeat(MAX_ADDRESS_LEN + 1));
    body.write_u16(25565);
    body.write_varint(1);
    assert!(decode_exact::<Intention>(&body, "handshaking").is_err());
}
