//! Encoding and decoding whole packets.

use rukkit::protocol::packets::handshake::Intention;
use rukkit::protocol::packets::{config, decode_exact, encode, handshake, ClientboundPacket};

#[test]
fn encode_clears_the_scratch_buffer() {
    // A reused send buffer must not leak bytes from the previous packet.
    let mut scratch = vec![0xFFu8; 32];
    encode(&config::FinishConfiguration, &mut scratch);
    assert_eq!(
        scratch,
        vec![config::FinishConfiguration::ID as u8],
        "stale bytes survived encode"
    );
}

#[test]
fn decode_exact_rejects_trailing_bytes() {
    let mut body = Vec::new();
    let original = Intention {
        protocol_version: 776,
        server_address: "localhost".into(),
        server_port: 25565,
        next_state: handshake::NextState::Status,
    };
    original.encode_body(&mut body);
    assert_eq!(
        decode_exact::<Intention>(&body, "handshaking").unwrap(),
        original
    );

    body.push(0);
    assert!(decode_exact::<Intention>(&body, "handshaking").is_err());
}
