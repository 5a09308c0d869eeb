//! Packets of the status state, and the status document.

use rukkit::protocol::packets::status::{
    PingRequest, PongResponse, SamplePlayer, ServerStatus, StatusRequest, StatusResponse,
};
use rukkit::protocol::packets::{decode_exact, encode, ClientboundPacket};
use rukkit::protocol::text::NamedColor;
use rukkit::protocol::{Component, PacketWrite};

#[test]
fn ping_payload_is_echoed_exactly() {
    let payload = -0x0123_4567_89AB_CDEF;
    let mut body = Vec::new();
    body.write_i64(payload);
    let request = decode_exact::<PingRequest>(&body, "status").unwrap();
    assert_eq!(request.payload, payload);

    let mut out = Vec::new();
    encode(&PongResponse { payload }, &mut out);
    assert_eq!(out[0] as i32, PongResponse::ID);
    assert_eq!(&out[1..], &payload.to_be_bytes());
}

#[test]
fn status_request_has_an_empty_body() {
    assert!(decode_exact::<StatusRequest>(&[], "status").is_ok());
    assert!(decode_exact::<StatusRequest>(&[0x00], "status").is_err());
}

#[test]
fn status_document_reports_the_targeted_version() {
    let status = ServerStatus::new(Component::text("A Rukkit server"), 3, 20);
    let json = status.to_json();
    assert!(json.contains(r#""protocol":776"#), "{json}");
    assert!(json.contains(r#""name":"26.2""#), "{json}");
    assert!(json.contains(r#""online":3"#), "{json}");
    assert!(json.contains(r#""max":20"#), "{json}");
    // Absent favicon must be omitted, not sent as null.
    assert!(!json.contains("favicon"), "{json}");
}

#[test]
fn status_document_round_trips() {
    let mut status =
        ServerStatus::new(Component::text("Rukkit").color(NamedColor::Aqua), 0, 100);
    status.players.sample.push(SamplePlayer {
        name: "someone".into(),
        id: "00000000-0000-0000-0000-000000000000".into(),
    });
    let parsed: serde_json::Value = serde_json::from_str(&status.to_json()).unwrap();
    assert_eq!(parsed["version"]["name"], status.version.name);
    assert_eq!(parsed["version"]["protocol"], status.version.protocol);
    assert_eq!(parsed["players"]["max"], status.players.max);
    assert_eq!(parsed["players"]["online"], status.players.online);
    let sample = parsed["players"]["sample"].as_array().unwrap();
    assert_eq!(sample.len(), 1);
    assert_eq!(sample[0]["name"], "someone");
    assert_eq!(sample[0]["id"], "00000000-0000-0000-0000-000000000000");
    assert_eq!(parsed["description"]["text"], "Rukkit");
    assert_eq!(parsed["description"]["color"], "aqua");
    assert_eq!(parsed["enforcesSecureChat"], false);
    assert_eq!(parsed.as_object().unwrap().len(), 4);
}

#[test]
fn status_response_body_is_a_single_string() {
    let packet = StatusResponse {
        json: r#"{"x":1}"#.into(),
    };
    let mut out = Vec::new();
    encode(&packet, &mut out);
    // id, then a 7-byte string prefix
    assert_eq!(out[0] as i32, StatusResponse::ID);
    assert_eq!(out[1], 7);
}
