//! Taking packets apart.

use rukkit::protocol::PacketWrite;
use rukkit::server::connection::split_id;

#[test]
fn split_id_separates_the_id_from_the_body() {
    let mut packet = Vec::new();
    packet.write_varint(0x2C);
    packet.write_bytes(b"body");
    let (id, body) = split_id(&packet).unwrap();
    assert_eq!(id, 0x2C);
    assert_eq!(body, b"body");
}

#[test]
fn split_id_handles_multibyte_ids() {
    let mut packet = Vec::new();
    packet.write_varint(300);
    packet.write_bytes(b"x");
    let (id, body) = split_id(&packet).unwrap();
    assert_eq!(id, 300);
    assert_eq!(body, b"x");
}

#[test]
fn split_id_rejects_an_empty_packet() {
    assert!(split_id(&[]).is_err());
}

#[test]
fn an_id_with_no_body_is_fine() {
    let (id, body) = split_id(&[0x00]).unwrap();
    assert_eq!(id, 0);
    assert!(body.is_empty());
}
