//! Login state: identity, optional encryption, and compression setup.

use vstd::prelude::*;
use vstd::utf8;

use crate::protocol::error::{ProtocolError, Result};
use crate::protocol::packets::{ids, ClientboundPacket, ServerboundPacket};
use crate::protocol::reader::{PacketReader, Parse};
use crate::protocol::reader;
use crate::protocol::text;
use crate::protocol::types::Uuid;
use crate::protocol::varint;
use crate::protocol::wire::copy_bytes;
use crate::protocol::wire;
use crate::protocol::writer::PacketWrite;
use crate::protocol::writer;

verus! {

/// The username length cap.
pub const MAX_USERNAME_LEN: usize = 16;

/// Length cap for the (legacy, now always empty) server id field.
pub const MAX_SERVER_ID_LEN: usize = 20;

/// Generous cap for RSA keys and verify tokens.
pub const MAX_KEY_LEN: usize = 1024;

/// First packet of the login flow.
#[derive(Debug, Clone, PartialEq, Eq)]
pub struct Hello {
    pub name: String,
    /// The client's own idea of its UUID. It must never be trusted as an
    /// identity.
    pub profile_id: Uuid,
}

/// What a [`Hello`] holds.
pub struct HelloFields {
    pub name: Seq<char>,
    pub profile_id: Uuid,
}

/// The body of a [`Hello`].
pub open spec fn hello_bytes(f: HelloFields) -> Seq<u8> {
    writer::string_bytes(f.name) + wire::be128(f.profile_id.value)
}

impl Hello {
    pub fn encode_body(&self, out: &mut Vec<u8>)
        ensures
            final(out)@ == old(out)@ + hello_bytes(self.fields()),
    {
        out.write_string(self.name.as_str());
        out.write_uuid(self.profile_id);
        assert(out@ =~= old(out)@ + hello_bytes(self.fields()));
    }
}

impl ServerboundPacket for Hello {
    type Fields = HelloFields;

    const ID: i32 = ids::login::serverbound::HELLO;

    const NAME: &'static str = "Hello";

    open spec fn packet_id() -> i32 {
        ids::login::serverbound::HELLO
    }

    proof fn lemma_id() {
    }

    open spec fn fields(&self) -> HelloFields {
        HelloFields { name: self.name@, profile_id: self.profile_id }
    }

    open spec fn parse_body(s: Seq<u8>) -> Parse<HelloFields> {
        match reader::parse_string(s, MAX_USERNAME_LEN) {
            (Err(e), t) => (Err(e), t),
            (Ok(name), t) => match reader::parse_uuid(t) {
                (Err(e), u) => (Err(e), u),
                (Ok(profile_id), u) => (Ok(HelloFields { name, profile_id }), u),
            },
        }
    }

    fn decode_body(r: &mut PacketReader<'_>) -> (read: Result<Self>) {
        let name = r.read_string(MAX_USERNAME_LEN)?;
        let profile_id = r.read_uuid()?;
        Ok(Hello { name, profile_id })
    }
}

/// Every hello whose name is within its limit is read back as it was written.
pub proof fn law_hello_round_trip(f: HelloFields, tail: Seq<u8>)
    requires
        f.name.len() <= MAX_USERNAME_LEN,
        utf8::encode_utf8(f.name).len() <= reader::max_string_bytes(MAX_USERNAME_LEN),
    ensures
        Hello::parse_body(hello_bytes(f) + tail) == (Ok::<HelloFields, ProtocolError>(f), tail),
{
    reader::law_string_round_trip(f.name, MAX_USERNAME_LEN, wire::be128(f.profile_id.value) + tail);
    reader::lemma_reads_uuid(f.profile_id, tail);
    assert(hello_bytes(f) + tail =~= writer::string_bytes(f.name)
        + (wire::be128(f.profile_id.value) + tail));
}

/// The client's half of the key exchange.
#[derive(Debug, Clone, PartialEq, Eq)]
pub struct EncryptionResponse {
    /// AES key, RSA-encrypted with the server's public key.
    pub shared_secret: Vec<u8>,
    /// The server's verify token, encrypted the same way.
    pub verify_token: Vec<u8>,
}

/// What an [`EncryptionResponse`] holds.
pub struct EncryptionResponseFields {
    pub shared_secret: Seq<u8>,
    pub verify_token: Seq<u8>,
}

impl ServerboundPacket for EncryptionResponse {
    type Fields = EncryptionResponseFields;

    const ID: i32 = ids::login::serverbound::ENCRYPTION_RESPONSE;

    const NAME: &'static str = "EncryptionResponse";

    open spec fn packet_id() -> i32 {
        ids::login::serverbound::ENCRYPTION_RESPONSE
    }

    proof fn lemma_id() {
    }

    open spec fn fields(&self) -> EncryptionResponseFields {
        EncryptionResponseFields {
            shared_secret: self.shared_secret@,
            verify_token: self.verify_token@,
        }
    }

    open spec fn parse_body(s: Seq<u8>) -> Parse<EncryptionResponseFields> {
        match reader::parse_byte_array(s, MAX_KEY_LEN) {
            (Err(e), t) => (Err(e), t),
            (Ok(shared_secret), t) => match reader::parse_byte_array(t, MAX_KEY_LEN) {
                (Err(e), u) => (Err(e), u),
                (Ok(verify_token), u) => (
                    Ok(EncryptionResponseFields { shared_secret, verify_token }),
                    u,
                ),
            },
        }
    }

    fn decode_body(r: &mut PacketReader<'_>) -> (read: Result<Self>) {
        let shared_secret = copy_bytes(r.read_byte_array(MAX_KEY_LEN)?);
        let verify_token = copy_bytes(r.read_byte_array(MAX_KEY_LEN)?);
        Ok(EncryptionResponse { shared_secret, verify_token })
    }
}

/// Two byte arrays within the key limit are read back as an encryption response.
pub proof fn law_encryption_response_reads(f: EncryptionResponseFields, tail: Seq<u8>)
    requires
        f.shared_secret.len() <= MAX_KEY_LEN,
        f.verify_token.len() <= MAX_KEY_LEN,
    ensures
        EncryptionResponse::parse_body(
            writer::byte_array_bytes(f.shared_secret) + writer::byte_array_bytes(f.verify_token)
                + tail,
        ) == (Ok::<EncryptionResponseFields, ProtocolError>(f), tail),
{
    let rest = writer::byte_array_bytes(f.verify_token) + tail;
    reader::law_byte_array_round_trip(f.shared_secret, MAX_KEY_LEN, rest);
    reader::law_byte_array_round_trip(f.verify_token, MAX_KEY_LEN, tail);
    assert(writer::byte_array_bytes(f.shared_secret) + writer::byte_array_bytes(f.verify_token)
        + tail
        =~= writer::byte_array_bytes(f.shared_secret) + rest);
}

/// Sent once the client has processed the login success; moves to configuration.
#[derive(Debug, Clone, Copy, PartialEq, Eq)]
pub struct LoginAcknowledged;

impl ServerboundPacket for LoginAcknowledged {
    type Fields = ();

    const ID: i32 = ids::login::serverbound::LOGIN_ACKNOWLEDGED;

    const NAME: &'static str = "LoginAcknowledged";

    open spec fn packet_id() -> i32 {
        ids::login::serverbound::LOGIN_ACKNOWLEDGED
    }

    proof fn lemma_id() {
    }

    open spec fn fields(&self) -> () {
        ()
    }

    open spec fn parse_body(s: Seq<u8>) -> Parse<()> {
        (Ok(()), s)
    }

    fn decode_body(_r: &mut PacketReader<'_>) -> (read: Result<Self>) {
        Ok(LoginAcknowledged)
    }
}

/// Kick during login. Carries JSON, not NBT, unlike the play-state disconnect.
#[derive(Debug, Clone, PartialEq, Eq)]
pub struct LoginDisconnect {
    pub reason_json: String,
}

impl ClientboundPacket for LoginDisconnect {
    const ID: i32 = ids::login::clientbound::LOGIN_DISCONNECT;

    const NAME: &'static str = "LoginDisconnect";

    open spec fn packet_id() -> i32 {
        ids::login::clientbound::LOGIN_DISCONNECT
    }

    proof fn lemma_id() {
    }

    open spec fn body(&self) -> Seq<u8> {
        writer::string_bytes(self.reason_json@)
    }

    fn encode_body(&self, out: &mut Vec<u8>) {
        out.write_string(self.reason_json.as_str());
    }
}

/// The server's half of the key exchange.
#[derive(Debug, Clone, PartialEq, Eq)]
pub struct EncryptionRequest {
    /// Always empty; kept because the field is still on the wire.
    pub server_id: String,
    /// DER-encoded RSA public key.
    pub public_key: Vec<u8>,
    pub verify_token: Vec<u8>,
    /// Whether the client should contact the session server.
    pub should_authenticate: bool,
}

impl ClientboundPacket for EncryptionRequest {
    const ID: i32 = ids::login::clientbound::ENCRYPTION_REQUEST;

    const NAME: &'static str = "EncryptionRequest";

    open spec fn packet_id() -> i32 {
        ids::login::clientbound::ENCRYPTION_REQUEST
    }

    proof fn lemma_id() {
    }

    open spec fn body(&self) -> Seq<u8> {
        writer::string_bytes(self.server_id@) + writer::byte_array_bytes(self.public_key@)
            + writer::byte_array_bytes(
            self.verify_token@,
        ) + seq![writer::bool_byte(self.should_authenticate)]
    }

    fn encode_body(&self, out: &mut Vec<u8>) {
        out.write_string(self.server_id.as_str());
        out.write_byte_array(self.public_key.as_slice());
        out.write_byte_array(self.verify_token.as_slice());
        out.write_bool(self.should_authenticate);
        assert(out@ =~= old(out)@ + self.body());
    }
}

/// A signed profile property, such as the player's skin.
#[derive(Debug, Clone, PartialEq, Eq)]
pub struct ProfileProperty {
    pub name: String,
    pub value: String,
    pub signature: Option<String>,
}

/// A string behind a presence boolean.
pub open spec fn optional_string_bytes(text: Option<Seq<char>>) -> Seq<u8> {
    match text {
        Some(t) => seq![1u8] + writer::string_bytes(t),
        None => seq![0u8],
    }
}

/// The bytes of a profile property.
pub open spec fn property_bytes(p: ProfileProperty) -> Seq<u8> {
    writer::string_bytes(p.name@) + writer::string_bytes(p.value@)
        + optional_string_bytes(text::chars(p.signature))
}

/// The bytes of profile properties, one after the other.
pub open spec fn properties_bytes(properties: Seq<ProfileProperty>) -> Seq<u8>
    decreases properties.len(),
{
    if properties.len() == 0 {
        Seq::empty()
    } else {
        properties_bytes(properties.drop_last()) + property_bytes(properties.last())
    }
}

fn write_property(p: &ProfileProperty, out: &mut Vec<u8>)
    ensures
        final(out)@ == old(out)@ + property_bytes(*p),
{
    out.write_string(p.name.as_str());
    out.write_string(p.value.as_str());
    match &p.signature {
        Some(signature) => {
            out.write_bool(true);
            out.write_string(signature.as_str());
        },
        None => out.write_bool(false),
    }
    assert(out@ =~= old(out)@ + property_bytes(*p));
}

/// Confirms the resolved identity and ends the login exchange.
#[derive(Debug, Clone, PartialEq, Eq)]
pub struct LoginSuccess {
    pub profile_id: Uuid,
    pub username: String,
    pub properties: Vec<ProfileProperty>,
}

impl ClientboundPacket for LoginSuccess {
    const ID: i32 = ids::login::clientbound::LOGIN_SUCCESS;

    const NAME: &'static str = "LoginSuccess";

    open spec fn packet_id() -> i32 {
        ids::login::clientbound::LOGIN_SUCCESS
    }

    proof fn lemma_id() {
    }

    open spec fn body(&self) -> Seq<u8> {
        wire::be128(self.profile_id.value) + writer::string_bytes(self.username@)
            + varint::varint_bytes(
            self.properties@.len() as i32,
        ) + properties_bytes(self.properties@)
    }

    fn encode_body(&self, out: &mut Vec<u8>) {
        out.write_uuid(self.profile_id);
        out.write_string(self.username.as_str());
        out.write_varint(self.properties.len() as i32);
        let ghost head = out@;
        let mut i: usize = 0;
        assert(head + properties_bytes(self.properties@.take(0)) =~= head);
        while i < self.properties.len()
            invariant
                i <= self.properties@.len(),
                out@ == head + properties_bytes(self.properties@.take(i as int)),
            decreases self.properties@.len() - i,
        {
            write_property(&self.properties[i], out);
            assert(self.properties@.take(i + 1).drop_last() =~= self.properties@.take(i as int));
            assert(out@ =~= head + properties_bytes(self.properties@.take(i + 1)));
            i += 1;
        }
        assert(self.properties@.take(i as int) =~= self.properties@);
        assert(out@ =~= old(out)@ + self.body());
    }
}

/// A [`LoginSuccess`] with the "strict error handling" flag that some versions
/// expect after the profile properties, where there is one to send.
#[derive(Debug, Clone, PartialEq, Eq)]
pub struct LoginFinished {
    pub success: LoginSuccess,
    pub strict_error_handling: Option<bool>,
}

/// The flag, where there is one.
pub open spec fn flag_bytes(flag: Option<bool>) -> Seq<u8> {
    match flag {
        Some(f) => seq![writer::bool_byte(f)],
        None => Seq::empty(),
    }
}

impl ClientboundPacket for LoginFinished {
    const ID: i32 = ids::login::clientbound::LOGIN_SUCCESS;

    const NAME: &'static str = "LoginFinished";

    open spec fn packet_id() -> i32 {
        ids::login::clientbound::LOGIN_SUCCESS
    }

    proof fn lemma_id() {
    }

    open spec fn body(&self) -> Seq<u8> {
        self.success.body() + flag_bytes(self.strict_error_handling)
    }

    fn encode_body(&self, out: &mut Vec<u8>) {
        self.success.encode_body(out);
        if let Some(flag) = self.strict_error_handling {
            out.write_bool(flag);
        }
        assert(out@ =~= old(out)@ + self.body());
    }
}

/// Enables compression for every subsequent packet.
///
/// This packet itself is sent uncompressed; the codec must be switched only
/// after it has been written.
#[derive(Debug, Clone, Copy, PartialEq, Eq, Structural)]
pub struct SetCompression {
    /// Packets at or above this size are compressed. Negative disables.
    pub threshold: i32,
}

impl ClientboundPacket for SetCompression {
    const ID: i32 = ids::login::clientbound::SET_COMPRESSION;

    const NAME: &'static str = "SetCompression";

    open spec fn packet_id() -> i32 {
        ids::login::clientbound::SET_COMPRESSION
    }

    proof fn lemma_id() {
    }

    open spec fn body(&self) -> Seq<u8> {
        varint::varint_bytes(self.threshold)
    }

    fn encode_body(&self, out: &mut Vec<u8>) {
        out.write_varint(self.threshold);
    }
}

} // verus!
