//! Packet definitions, grouped by connection state.
//!
//! Each packet is a plain struct with an id and a body codec. The server matches
//! on the id and decodes into a concrete type.

pub mod config;
pub mod formats;
pub mod handshake;
pub mod ids;
pub mod limits;
pub mod login;
pub mod play;
pub mod status;
pub mod status_format;

use vstd::prelude::*;

use crate::protocol::error::{ProtocolError, Result};
use crate::protocol::reader::{PacketReader, Parse};
use crate::protocol::reader;
use crate::protocol::varint;
use crate::protocol::writer::PacketWrite;

verus! {

/// A packet this server sends.
pub trait ClientboundPacket {
    /// VarInt packet id within its state.
    const ID: i32;

    /// Name used in logs and errors.
    const NAME: &'static str;

    /// The id as contracts speak of it.
    spec fn packet_id() -> i32;

    /// The two ids are one.
    proof fn lemma_id()
        ensures
            Self::ID == Self::packet_id(),
    ;

    /// The bytes of the body, excluding the id.
    spec fn body(&self) -> Seq<u8>;

    /// Writes the body, excluding the id.
    fn encode_body(&self, out: &mut Vec<u8>)
        ensures
            final(out)@ == old(out)@ + self.body(),
    ;
}

/// A packet this server receives.
pub trait ServerboundPacket: Sized {
    /// What the packet holds.
    type Fields;

    /// VarInt packet id within its state.
    const ID: i32;

    /// Name used in logs and errors.
    const NAME: &'static str;

    /// The id as contracts speak of it.
    spec fn packet_id() -> i32;

    /// The two ids are one.
    proof fn lemma_id()
        ensures
            Self::ID == Self::packet_id(),
    ;

    /// What the packet holds.
    spec fn fields(&self) -> Self::Fields;

    /// The packet whose body is at the front of `s`.
    spec fn parse_body(s: Seq<u8>) -> Parse<Self::Fields>;

    /// Reads the body, with the id already consumed.
    fn decode_body(r: &mut PacketReader<'_>) -> (read: Result<Self>)
        ensures
            final(r).input() == old(r).input(),
            (match read {
                Ok(packet) => Ok::<Self::Fields, ProtocolError>(packet.fields()),
                Err(e) => Err(e),
            }, final(r).rest()) == Self::parse_body(old(r).rest()),
    ;
}

/// A packet as it is framed: its id followed by its body.
pub open spec fn packet_bytes<P: ClientboundPacket>(packet: P) -> Seq<u8> {
    varint::varint_bytes(P::packet_id()) + packet.body()
}

/// The packet that takes up all of `body`.
pub open spec fn parse_exact<P: ServerboundPacket>(
    body: Seq<u8>,
    state: &'static str,
) -> Result<P::Fields> {
    match P::parse_body(body) {
        (Err(e), _) => Err(e),
        (Ok(fields), rest) => match reader::finished_or(rest, state, P::packet_id()) {
            Err(e) => Err(e),
            Ok(()) => Ok(fields),
        },
    }
}

/// What a packet that was read holds.
pub open spec fn fields_of<P: ServerboundPacket>(read: Result<P>) -> Result<P::Fields> {
    match read {
        Ok(packet) => Ok(packet.fields()),
        Err(e) => Err(e),
    }
}

/// Serializes a packet into `out` as id followed by body.
///
/// `out` is cleared first so a single scratch buffer can be reused for the life
/// of a connection.
pub fn encode<P: ClientboundPacket>(packet: &P, out: &mut Vec<u8>)
    ensures
        final(out)@ == packet_bytes(*packet),
{
    proof {
        P::lemma_id();
    }
    out.clear();
    out.write_varint(P::ID);
    packet.encode_body(out);
    assert(out@ =~= packet_bytes(*packet));
}

/// Decodes a packet body and requires it to be consumed exactly.
pub fn decode_exact<P: ServerboundPacket>(body: &[u8], state: &'static str) -> (read: Result<P>)
    ensures
        fields_of(read) == parse_exact::<P>(body@, state),
{
    proof {
        P::lemma_id();
    }
    let mut r = PacketReader::new(body);
    let packet = P::decode_body(&mut r)?;
    r.expect_finished(state, P::ID)?;
    Ok(packet)
}

} // verus!
