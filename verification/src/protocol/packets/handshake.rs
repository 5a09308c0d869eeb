//! Handshaking state: a single packet that selects what happens next.

use vstd::prelude::*;
use vstd::utf8;

use crate::protocol::error::{ProtocolError, Result};
use crate::protocol::packets::{ids, ServerboundPacket};
use crate::protocol::reader::{PacketReader, Parse};
use crate::protocol::reader;
use crate::protocol::types::{Float32, Float64, Uuid};
use crate::protocol::varint;
use crate::protocol::wire;
use crate::protocol::writer::PacketWrite;
use crate::protocol::writer;

verus! {

/// Maximum length allowed for the address field.
pub const MAX_ADDRESS_LEN: usize = 255;

/// What the client wants to do after the handshake.
#[derive(Debug, Clone, Copy, PartialEq, Eq, Structural)]
pub enum NextState {
    Status,
    Login,
    /// A transfer from another server. Handled like a login.
    Transfer,
}

/// The number of a next state on the wire.
pub open spec fn next_state_id(next: NextState) -> i32 {
    match next {
        NextState::Status => 1,
        NextState::Login => 2,
        NextState::Transfer => 3,
    }
}

/// The next state that a number stands for.
pub open spec fn parse_next_state(id: i32) -> Result<NextState> {
    if id == 1 {
        Ok(NextState::Status)
    } else if id == 2 {
        Ok(NextState::Login)
    } else if id == 3 {
        Ok(NextState::Transfer)
    } else {
        Err(ProtocolError::InvalidEnum { kind: "NextState", value: id as i64 })
    }
}

impl NextState {
    pub fn from_id(id: i32) -> (next: Result<Self>)
        ensures
            next == parse_next_state(id),
    {
        match id {
            1 => Ok(NextState::Status),
            2 => Ok(NextState::Login),
            3 => Ok(NextState::Transfer),
            other => Err(ProtocolError::InvalidEnum { kind: "NextState", value: other as i64 }),
        }
    }

    #[must_use]
    pub fn id(self) -> (id: i32)
        ensures
            id == next_state_id(self),
    {
        match self {
            NextState::Status => 1,
            NextState::Login => 2,
            NextState::Transfer => 3,
        }
    }
}

/// The opening packet of every connection.
#[derive(Debug, PartialEq, Eq)]
pub struct Intention {
    pub protocol_version: i32,
    /// Hostname the client connected to. Proxies append their own data here,
    /// so it is not trustworthy on its own.
    pub server_address: String,
    pub server_port: u16,
    pub next_state: NextState,
}

/// What an [`Intention`] holds.
pub struct IntentionFields {
    pub protocol_version: i32,
    pub server_address: Seq<char>,
    pub server_port: u16,
    pub next_state: NextState,
}

/// The body of an [`Intention`].
pub open spec fn intention_bytes(f: IntentionFields) -> Seq<u8> {
    varint::varint_bytes(f.protocol_version) + writer::string_bytes(f.server_address)
        + wire::be16(f.server_port)
        + varint::varint_bytes(next_state_id(f.next_state))
}

impl Intention {
    /// Writes the body. Present for client-side tooling; the server only ever
    /// decodes this packet.
    pub fn encode_body(&self, out: &mut Vec<u8>)
        ensures
            final(out)@ == old(out)@ + intention_bytes(self.fields()),
    {
        out.write_varint(self.protocol_version);
        out.write_string(self.server_address.as_str());
        out.write_u16(self.server_port);
        out.write_varint(self.next_state.id());
        assert(out@ =~= old(out)@ + intention_bytes(self.fields()));
    }
}

impl ServerboundPacket for Intention {
    type Fields = IntentionFields;

    const ID: i32 = ids::handshaking::serverbound::INTENTION;

    const NAME: &'static str = "Intention";

    open spec fn packet_id() -> i32 {
        ids::handshaking::serverbound::INTENTION
    }

    proof fn lemma_id() {
    }

    open spec fn fields(&self) -> IntentionFields {
        IntentionFields {
            protocol_version: self.protocol_version,
            server_address: self.server_address@,
            server_port: self.server_port,
            next_state: self.next_state,
        }
    }

    open spec fn parse_body(s: Seq<u8>) -> Parse<IntentionFields> {
        match reader::take_varint(s) {
            (Err(e), t) => (Err(e), t),
            (Ok(protocol_version), t) => match reader::parse_string(t, MAX_ADDRESS_LEN) {
                (Err(e), u) => (Err(e), u),
                (Ok(server_address), u) => match reader::parse_u16(u) {
                    (Err(e), v) => (Err(e), v),
                    (Ok(server_port), v) => match reader::take_varint(v) {
                        (Err(e), w) => (Err(e), w),
                        (Ok(id), w) => match parse_next_state(id) {
                            Err(e) => (Err(e), w),
                            Ok(next_state) => (
                                Ok(
                                    IntentionFields {
                                        protocol_version,
                                        server_address,
                                        server_port,
                                        next_state,
                                    },
                                ),
                                w,
                            ),
                        },
                    },
                },
            },
        }
    }

    fn decode_body(r: &mut PacketReader<'_>) -> (read: Result<Self>) {
        let protocol_version: i32 = r.read_varint()?;
        let server_address = r.read_string(MAX_ADDRESS_LEN)?;
        let server_port: u16 = r.read_u16()?;
        let next: i32 = r.read_varint()?;
        let next_state = NextState::from_id(next)?;
        Ok(Intention { protocol_version, server_address, server_port, next_state })
    }
}

/// Every intention whose address is within its limit is read back as it was
/// written.
pub proof fn law_intention_round_trip(f: IntentionFields, tail: Seq<u8>)
    requires
        f.server_address.len() <= MAX_ADDRESS_LEN,
        utf8::encode_utf8(f.server_address).len() <= reader::max_string_bytes(MAX_ADDRESS_LEN),
    ensures
        Intention::parse_body(intention_bytes(f) + tail) == (
            Ok::<IntentionFields, ProtocolError>(f),
            tail,
        ),
{
    let next = varint::varint_bytes(next_state_id(f.next_state)) + tail;
    let port = wire::be16(f.server_port) + next;
    let address = writer::string_bytes(f.server_address) + port;
    reader::law_variable_width_round_trip(f.protocol_version, 0, address);
    reader::law_string_round_trip(f.server_address, MAX_ADDRESS_LEN, port);
    reader::law_fixed_width_round_trip(
        false,
        0,
        f.server_port,
        0,
        0,
        0,
        0,
        Float32 { bits: 0 },
        Float64 { bits: 0 },
        Uuid { value: 0 },
        next,
    );
    reader::law_variable_width_round_trip(next_state_id(f.next_state), 0, tail);
    assert(intention_bytes(f) + tail =~= varint::varint_bytes(f.protocol_version) + address);
}

} // verus!
