//! The texts of errors.

use rukkit::protocol::crypt::Encryptor;
use rukkit::protocol::ProtocolError;
use rukkit::server::config::ConfigError;
use rukkit::server::connection::ConnError;
use rukkit::server::player::JoinError;

#[test]
fn protocol_errors_say_what_is_wrong() {
    let cases: Vec<(ProtocolError, &str)> = vec![
        (
            ProtocolError::UnexpectedEof {
                needed: 3,
                available: 0,
            },
            "unexpected end of packet: needed 3 more byte(s), had 0",
        ),
        (
            ProtocolError::VarIntTooLong { max: 5 },
            "VarInt/VarLong longer than the 5-byte maximum",
        ),
        (
            ProtocolError::StringTooLong { len: 20, max: 16 },
            "string is 20 bytes, over the 16-byte limit",
        ),
        (
            ProtocolError::StringTooManyChars { len: 17, max: 16 },
            "string is 17 characters, over the 16-character limit",
        ),
        (ProtocolError::InvalidUtf8, "invalid UTF-8 in string"),
        (
            ProtocolError::NegativeLength(-1),
            "negative length prefix: -1",
        ),
        (
            ProtocolError::LengthLimitExceeded { len: 9, max: 8 },
            "length prefix 9 exceeds the 8 element limit",
        ),
        (
            ProtocolError::FrameTooLarge { len: 11, max: 10 },
            "frame is 11 bytes, over the 10-byte limit",
        ),
        (
            ProtocolError::InvalidEnum {
                kind: "GameMode",
                value: -7,
            },
            "-7 is not a valid GameMode",
        ),
        (
            ProtocolError::UnknownPacket {
                state: "play",
                id: 5,
            },
            "unknown packet id 0x05 in state play",
        ),
        (
            ProtocolError::TrailingBytes {
                state: "login",
                id: 0x2F,
                trailing: 4,
            },
            "4 trailing byte(s) after packet 0x2f in state login",
        ),
        (ProtocolError::Nbt("bad root"), "malformed NBT: bad root"),
        (
            ProtocolError::NbtTooDeep { max: 512 },
            "NBT nested more than 512 levels deep",
        ),
        (
            ProtocolError::Compression("broken".into()),
            "zlib error: broken",
        ),
        (
            ProtocolError::DecompressedTooLarge { len: 7, max: 6 },
            "declared uncompressed size 7 exceeds the 6-byte limit",
        ),
        (
            ProtocolError::BadlyCompressed {
                size: 10,
                threshold: 256,
            },
            "packet of 10 bytes was compressed despite being under the 256-byte threshold",
        ),
    ];
    for (error, expected) in cases {
        assert_eq!(error.message(), expected);
    }
}

#[test]
fn packet_ids_are_shown_by_their_bits() {
    for id in [0, 1, 15, 16, 0x7F, 0x1234, i32::MAX, -1, i32::MIN] {
        let error = ProtocolError::UnknownPacket { state: "play", id };
        assert_eq!(
            error.message(),
            format!("unknown packet id {id:#04x} in state play")
        );
    }
}

#[test]
fn connection_errors_say_what_is_wrong() {
    let cases: Vec<(ConnError, &str)> = vec![
        (ConnError::Io("broken pipe".into()), "io error: broken pipe"),
        (
            ConnError::Protocol(ProtocolError::InvalidUtf8),
            "protocol error: invalid UTF-8 in string",
        ),
        (ConnError::Closed, "peer closed the connection"),
        (ConnError::TimedOut, "timed out waiting for the client"),
        (
            ConnError::UnsupportedVersion {
                got: -1,
                expected: 776,
            },
            "unsupported protocol version -1 (this server speaks 776)",
        ),
        (
            ConnError::UnexpectedPacket {
                state: "handshaking",
                id: 0x7F,
            },
            "unexpected packet 0x7f in state handshaking",
        ),
        (ConnError::Rejected("no".into()), "no"),
    ];
    for (error, expected) in cases {
        assert_eq!(error.message(), expected);
    }
}

#[test]
fn configuration_errors_say_what_is_wrong() {
    let (path, source) = ("rukkit.toml".to_owned(), "no such file".to_owned());
    let read = ConfigError::Read {
        path: path.clone(),
        source: source.clone(),
    };
    let write = ConfigError::Write {
        path: path.clone(),
        source: source.clone(),
    };
    let parse = ConfigError::Parse { path, source };
    assert_eq!(read.message(), "reading rukkit.toml: no such file");
    assert_eq!(write.message(), "writing rukkit.toml: no such file");
    assert_eq!(parse.message(), "parsing rukkit.toml: no such file");
    assert_eq!(ConfigError::Invalid("no".into()).message(), "no");
}

#[test]
fn a_refused_player_is_told_why() {
    assert_eq!(JoinError::Full.message(), "The server is full");
    assert_eq!(
        JoinError::NameTaken.message(),
        "A player with that name is already connected"
    );
}

#[test]
fn a_bad_secret_is_reported_by_its_length() {
    let Err(error) = Encryptor::new(&[0; 15]) else {
        panic!("fifteen bytes are no secret");
    };
    assert_eq!(
        error.message(),
        "shared secret must be 16 bytes, got 15"
    );
}
