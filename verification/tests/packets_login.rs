//! Packets of the login state.

use rukkit::protocol::packets::login::{
    EncryptionResponse, Hello, LoginAcknowledged, LoginSuccess, ProfileProperty, SetCompression,
    MAX_USERNAME_LEN,
};
use rukkit::protocol::packets::{decode_exact, encode, ClientboundPacket};
use rukkit::protocol::reader::DEFAULT_MAX_STRING_LEN;
use rukkit::protocol::types::Uuid;
use rukkit::protocol::{PacketReader, PacketWrite};

#[test]
fn hello_round_trips() {
    let original = Hello {
        name: "Notch".into(),
        profile_id: Uuid::from_u128(42),
    };
    let mut body = Vec::new();
    original.encode_body(&mut body);
    assert_eq!(decode_exact::<Hello>(&body, "login").unwrap(), original);
}

#[test]
fn username_longer_than_sixteen_is_rejected() {
    let mut body = Vec::new();
    body.write_string(&"x".repeat(17));
    body.write_uuid(Uuid::nil());
    assert!(decode_exact::<Hello>(&body, "login").is_err());

    let mut body = Vec::new();
    body.write_string(&"x".repeat(16));
    body.write_uuid(Uuid::nil());
    assert!(decode_exact::<Hello>(&body, "login").is_ok());
}

#[test]
fn encryption_response_round_trips() {
    let mut body = Vec::new();
    body.write_byte_array(&[1, 2, 3, 4]);
    body.write_byte_array(&[9, 8]);
    let packet = decode_exact::<EncryptionResponse>(&body, "login").unwrap();
    assert_eq!(packet.shared_secret, [1, 2, 3, 4]);
    assert_eq!(packet.verify_token, [9, 8]);
}

#[test]
fn absurd_key_length_is_rejected() {
    let mut body = Vec::new();
    body.write_varint(1_000_000);
    assert!(decode_exact::<EncryptionResponse>(&body, "login").is_err());
}

#[test]
fn login_acknowledged_is_empty() {
    assert!(decode_exact::<LoginAcknowledged>(&[], "login").is_ok());
    assert!(decode_exact::<LoginAcknowledged>(&[1], "login").is_err());
}

#[test]
fn login_success_encodes_properties_with_optional_signatures() {
    let packet = LoginSuccess {
        profile_id: Uuid::from_u128(7),
        username: "player".into(),
        properties: vec![
            ProfileProperty {
                name: "textures".into(),
                value: "base64".into(),
                signature: Some("sig".into()),
            },
            ProfileProperty {
                name: "other".into(),
                value: "v".into(),
                signature: None,
            },
        ],
    };
    let mut out = Vec::new();
    encode(&packet, &mut out);

    let mut r = PacketReader::new(&out);
    assert_eq!(r.read_varint().unwrap(), LoginSuccess::ID);
    assert_eq!(r.read_uuid().unwrap(), packet.profile_id);
    assert_eq!(r.read_string(MAX_USERNAME_LEN).unwrap(), "player");
    assert_eq!(r.read_varint().unwrap(), 2);

    assert_eq!(r.read_string(DEFAULT_MAX_STRING_LEN).unwrap(), "textures");
    assert_eq!(r.read_string(DEFAULT_MAX_STRING_LEN).unwrap(), "base64");
    assert_eq!(
        r.read_option(|r| r.read_string(DEFAULT_MAX_STRING_LEN))
            .unwrap(),
        Some("sig".to_owned())
    );

    assert_eq!(r.read_string(DEFAULT_MAX_STRING_LEN).unwrap(), "other");
    assert_eq!(r.read_string(DEFAULT_MAX_STRING_LEN).unwrap(), "v");
    assert_eq!(
        r.read_option(|r| r.read_string(DEFAULT_MAX_STRING_LEN))
            .unwrap(),
        None
    );
    assert!(r.is_empty());
}

#[test]
fn set_compression_carries_the_threshold() {
    let mut out = Vec::new();
    encode(&SetCompression { threshold: 256 }, &mut out);
    let mut r = PacketReader::new(&out);
    assert_eq!(r.read_varint().unwrap(), SetCompression::ID);
    assert_eq!(r.read_varint().unwrap(), 256);
}
