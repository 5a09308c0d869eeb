//! Minecraft Java Edition wire protocol for 26.2 (protocol 776).
//!
//! Free of I/O and of game logic: bytes become packet structs and packet
//! structs become bytes.

pub mod buffer;
pub mod codec;
pub mod crypt;
pub mod error;
pub mod frame_format;
pub mod json;
pub mod layout;
pub mod mutf8;
pub mod nbt;
pub mod packets;
pub mod reader;
pub mod reading;
pub mod tag_format;
pub mod tag_reading;
pub mod text;
pub mod text_format;
pub mod types;
pub mod varint;
pub mod version;
pub mod wire;
pub mod wording;
pub mod writer;
pub mod zlib;

pub use error::{ProtocolError, Result};
pub use reader::PacketReader;
pub use text::Component;
pub use types::{BlockPos, ChunkPos, Difficulty, GameMode};
pub use version::{DATA_VERSION, MINECRAFT_VERSION, PROTOCOL_VERSION};
pub use writer::PacketWrite;

use vstd::prelude::*;

verus! {

/// Connection state, which determines how a packet id is interpreted.
///
/// The client and server must agree on the current state at all times; a
/// mismatch shows up as a nonsensical packet id rather than as a clean error,
/// which is why every transition is driven explicitly by an acknowledgement
/// packet rather than inferred.
#[derive(Debug, Clone, Copy, PartialEq, Eq, Hash, Structural)]
pub enum State {
    Handshaking,
    Status,
    Login,
    /// Registries and resource packs are negotiated here, before play begins
    /// and whenever the server needs to reconfigure.
    Configuration,
    Play,
}

/// The name of a connection state.
pub open spec fn state_name(state: State) -> &'static str {
    match state {
        State::Handshaking => "handshaking",
        State::Status => "status",
        State::Login => "login",
        State::Configuration => "configuration",
        State::Play => "play",
    }
}

impl Default for State {
    /// The state in which every connection starts.
    fn default() -> (state: Self)
        ensures
            state == State::Handshaking,
    {
        State::Handshaking
    }
}

impl State {
    #[must_use]
    pub fn name(self) -> (name: &'static str)
        ensures
            name == state_name(self),
    {
        match self {
            State::Handshaking => "handshaking",
            State::Status => "status",
            State::Login => "login",
            State::Configuration => "configuration",
            State::Play => "play",
        }
    }
}

} // verus!
