//! Frame codec: length prefixing, optional zlib compression, optional
//! encryption.
//!
//! A frame is a VarInt length followed by that many bytes. Once compression is
//! negotiated the body gains a second VarInt holding the uncompressed size,
//! where `0` means "this one was sent as-is because it was under the
//! threshold". Once encryption is negotiated the entire byte stream, length
//! prefix included, is enciphered.
//!
//! Ordering matters: the `Set Compression` packet itself is sent *uncompressed*,
//! and the first encrypted byte is the one immediately after `Encryption
//! Response`. Callers therefore enable each feature only after the switching
//! packet has been handed to the codec.

use bytes::{Bytes, BytesMut};
use flate2::Decompress;
use vstd::prelude::*;

use crate::protocol::buffer::{
    bytes_from_vec, bytes_mut_advance, bytes_mut_freeze, bytes_mut_put, bytes_mut_slice,
    bytes_mut_split_to, bytes_mut_with_capacity,
};
use crate::protocol::buffer;
use crate::protocol::crypt::{Decryptor, Encryptor};
use crate::protocol::crypt;
use crate::protocol::error::{ProtocolError, Result};
use crate::protocol::varint;
use crate::protocol::varint::varint_len;
use crate::protocol::writer::PacketWrite;
use crate::protocol::zlib::{compress_into, decompress_exact, new_decompressor};
use crate::protocol::zlib;

verus! {

/// Hard cap on a single frame.
pub const MAX_FRAME_LEN: usize = 0x20_0000;

/// The usual threshold: packets at or above this are compressed.
pub const DEFAULT_COMPRESSION_THRESHOLD: usize = 256;

// ---------------------------------------------------------------------------
// The format
// ---------------------------------------------------------------------------

/// The body of the first frame in `stream` and what follows the frame. `None`
/// where the frame is not complete yet.
pub open spec fn next_frame(stream: Seq<u8>) -> Result<Option<(Seq<u8>, Seq<u8>)>> {
    match varint::parse_varint(stream) {
        Err(ProtocolError::UnexpectedEof { needed, available }) => Ok(None),
        Err(e) => Err(e),
        Ok((len, used)) => if len < 0 {
            Err(ProtocolError::NegativeLength(len))
        } else if len > MAX_FRAME_LEN {
            Err(ProtocolError::FrameTooLarge { len: len as usize, max: MAX_FRAME_LEN })
        } else if stream.len() < used + len {
            Ok(None)
        } else {
            Ok(Some((stream.skip(used as int).take(len as int), stream.skip(used + len))))
        },
    }
}

/// What the body of a frame turns out to be.
pub enum Unpacked {
    /// A packet.
    Packet(Seq<u8>),
    /// Nothing that the format allows.
    Malformed(ProtocolError),
    /// A zlib stream that is broken or not of the size it was declared with.
    BadStream,
}

/// The packet in the body of a frame, under a compression threshold where
/// compression is on.
pub open spec fn unpack(body: Seq<u8>, compression: Option<usize>) -> Unpacked {
    match compression {
        None => Unpacked::Packet(body),
        Some(threshold) => match varint::parse_varint(body) {
            Err(e) => Unpacked::Malformed(e),
            Ok((size, used)) => if size == 0 {
                Unpacked::Packet(body.skip(used as int))
            } else if size < 0 {
                Unpacked::Malformed(ProtocolError::NegativeLength(size))
            } else if size < threshold {
                Unpacked::Malformed(
                    ProtocolError::BadlyCompressed { size: size as usize, threshold },
                )
            } else if size > MAX_FRAME_LEN {
                Unpacked::Malformed(
                    ProtocolError::DecompressedTooLarge {
                        len: size as usize,
                        max: MAX_FRAME_LEN,
                    },
                )
            } else {
                match zlib::zlib_content(body.skip(used as int)) {
                    Some(packet) => if packet.len() == size {
                        Unpacked::Packet(packet)
                    } else {
                        Unpacked::BadStream
                    },
                    None => Unpacked::BadStream,
                }
            },
        },
    }
}

/// A frame without compression.
pub open spec fn plain_frame(packet: Seq<u8>) -> Seq<u8> {
    varint::varint_bytes(packet.len() as i32) + packet
}

/// A frame under the compression threshold.
pub open spec fn small_frame(packet: Seq<u8>) -> Seq<u8> {
    varint::varint_bytes((1 + packet.len()) as i32) + varint::varint_bytes(0) + packet
}

/// The length of the body of a compressed frame.
pub open spec fn deflated_body_len(size: nat, stream: Seq<u8>) -> nat {
    varint::varint_bytes(size as i32).len() + stream.len()
}

/// A compressed frame of a packet of `size` bytes.
pub open spec fn deflated_frame(size: nat, stream: Seq<u8>) -> Seq<u8> {
    varint::varint_bytes(deflated_body_len(size, stream) as i32)
        + varint::varint_bytes(size as i32) + stream
}

/// The stream in a compressed frame.
pub open spec fn packed(packet: Seq<u8>) -> Seq<u8> {
    zlib::deflated(packet, zlib::COMPRESSION_LEVEL)
}

/// The frame of a packet, under a compression threshold where compression is on.
pub open spec fn frame_of(compression: Option<usize>, packet: Seq<u8>) -> Seq<u8> {
    match compression {
        None => plain_frame(packet),
        Some(threshold) => if packet.len() < threshold {
            small_frame(packet)
        } else {
            deflated_frame(packet.len(), packed(packet))
        },
    }
}

/// The packets that are sent: those whose frame is within the limit. Under a
/// compression threshold there is none.
pub open spec fn sendable(compression: Option<usize>, packet: Seq<u8>) -> bool {
    match compression {
        None => packet.len() <= MAX_FRAME_LEN,
        Some(threshold) => packet.len() < threshold || deflated_body_len(
            packet.len(),
            packed(packet),
        ) <= MAX_FRAME_LEN,
    }
}

/// `frame` carries `packet`, under a compression threshold where compression is
/// on. A stream inside it inflates to the packet.
pub open spec fn frames(compression: Option<usize>, packet: Seq<u8>, frame: Seq<u8>) -> bool {
    &&& sendable(compression, packet)
    &&& frame == frame_of(compression, packet)
    &&& compression is Some && packet.len() >= compression->0 ==> zlib::zlib_content(packed(packet))
        == Some(packet)
}

/// The secret and the shift register of a cipher.
pub type CipherState = (Seq<u8>, Seq<u8>);

/// `plain` as it is sent, enciphered where encryption is on.
pub open spec fn sealed(cipher: Option<CipherState>, plain: Seq<u8>) -> Seq<u8> {
    match cipher {
        None => plain,
        Some((secret, register)) => crypt::enciphered(secret, register, plain),
    }
}

/// `sent` as it was before it was sent, deciphered where encryption is on.
pub open spec fn opened(cipher: Option<CipherState>, sent: Seq<u8>) -> Seq<u8> {
    match cipher {
        None => sent,
        Some((secret, register)) => crypt::deciphered(secret, register, sent),
    }
}

/// The state of a cipher after `sent` went through it.
pub open spec fn stepped(cipher: Option<CipherState>, sent: Seq<u8>) -> Option<CipherState> {
    match cipher {
        None => None,
        Some((secret, register)) => Some((secret, crypt::advanced(register, sent))),
    }
}

/// What decoding does to the bytes that wait: it takes the first frame away,
/// where it is complete, and gives the packet in it.
pub open spec fn receives(
    compression: Option<usize>,
    before: Seq<u8>,
    after: Seq<u8>,
    decoded: Result<Option<Bytes>>,
) -> bool {
    match next_frame(before) {
        Err(e) => decoded == Err::<Option<Bytes>, ProtocolError>(e) && after == before,
        Ok(None) => decoded == Ok::<Option<Bytes>, ProtocolError>(None) && after == before,
        Ok(Some((body, rest))) => after == rest && match unpack(body, compression) {
            Unpacked::Packet(packet) => decoded is Ok && decoded->Ok_0 is Some
                && buffer::bytes_content(
                decoded->Ok_0->0,
            ) == packet,
            Unpacked::Malformed(e) => decoded == Err::<Option<Bytes>, ProtocolError>(e),
            Unpacked::BadStream => decoded is Err && decoded->Err_0 is Compression,
        },
    }
}

/// What encoding does to the buffer and the cipher: it appends the frame of the
/// packet, enciphered where encryption is on. A packet that is refused leaves
/// the buffer and the cipher as they were.
///
/// Only a packet whose frame is over the limit is refused. It is told by its
/// length, but for one whose stream is over half of what a buffer can hold.
pub open spec fn transmits(
    compression: Option<usize>,
    cipher: Option<CipherState>,
    packet: Seq<u8>,
    before: Seq<u8>,
    after: Seq<u8>,
    cipher_after: Option<CipherState>,
    encoded: Result<()>,
) -> bool {
    &&& encoded is Ok <==> sendable(compression, packet)
    &&& match encoded {
        Ok(()) => {
            let frame = frame_of(compression, packet);
            let sent = sealed(cipher, frame);
            &&& frames(compression, packet, frame)
            &&& after == before + sent
            &&& cipher_after == stepped(cipher, sent)
        },
        Err(e) => {
            let len = match compression {
                None => packet.len(),
                Some(_) => deflated_body_len(packet.len(), packed(packet)),
            };
            &&& after == before
            &&& cipher_after == cipher
            &&& {
                ||| e == (ProtocolError::FrameTooLarge { len: len as usize, max: MAX_FRAME_LEN })
                ||| compression is Some && packed(packet).len() > isize::MAX / 2
                    && e is Compression
            }
        },
    }
}

// ---------------------------------------------------------------------------
// Decoding
// ---------------------------------------------------------------------------

/// Splits an incoming byte stream into packet bodies.
pub struct Decoder {
    buffer: BytesMut,
    compression: Option<usize>,
    decryptor: Option<Decryptor>,
    decompressor: Decompress,
}

impl Default for Decoder {
    fn default() -> (decoder: Self)
        ensures
            decoder.pending() == Seq::<u8>::empty(),
            decoder.compression() is None,
            decoder.cipher() is None,
    {
        Decoder::new()
    }
}

impl Decoder {
    /// The bytes buffered but not yet decoded.
    pub closed spec fn pending(&self) -> Seq<u8> {
        buffer::bytes_mut_content(self.buffer)
    }

    /// The compression threshold, where compression is on.
    pub closed spec fn compression(&self) -> Option<usize> {
        self.compression
    }

    /// The state of the cipher, where decryption is on.
    pub closed spec fn cipher(&self) -> Option<CipherState> {
        match self.decryptor {
            Some(d) => Some((d.secret(), d.register())),
            None => None,
        }
    }

    #[must_use]
    pub fn new() -> (decoder: Self)
        ensures
            decoder.pending() == Seq::<u8>::empty(),
            decoder.compression() is None,
            decoder.cipher() is None,
    {
        Self {
            buffer: bytes_mut_with_capacity(8 * 1024),
            compression: None,
            decryptor: None,
            decompressor: new_decompressor(),
        }
    }

    /// Turns on compression with the negotiated threshold.
    pub fn enable_compression(&mut self, threshold: usize)
        ensures
            final(self).compression() == Some(threshold),
            final(self).pending() == old(self).pending(),
            final(self).cipher() == old(self).cipher(),
    {
        self.compression = Some(threshold);
    }

    /// Turns on decryption. Every byte fed in after this call is deciphered.
    pub fn enable_encryption(&mut self, decryptor: Decryptor)
        ensures
            final(self).cipher() == Some((decryptor.secret(), decryptor.register())),
            final(self).pending() == old(self).pending(),
            final(self).compression() == old(self).compression(),
    {
        self.decryptor = Some(decryptor);
    }

    #[must_use]
    pub fn is_encrypted(&self) -> (encrypted: bool)
        ensures
            encrypted == (self.cipher() is Some),
    {
        self.decryptor.is_some()
    }

    /// Bytes buffered but not yet forming a complete frame.
    #[must_use]
    pub fn buffered(&self) -> (n: usize)
        ensures
            n == self.pending().len(),
    {
        bytes_mut_slice(&self.buffer).len()
    }

    /// Feeds freshly read socket bytes, deciphering them in place first.
    pub fn feed(&mut self, data: &mut [u8])
        ensures
            final(self).compression() == old(self).compression(),
            final(data)@ == opened(old(self).cipher(), old(data)@),
            final(self).pending() == old(self).pending() + final(data)@,
            final(self).cipher() == stepped(old(self).cipher(), old(data)@),
    {
        if let Some(decryptor) = &mut self.decryptor {
            decryptor.decrypt(data);
        }
        bytes_mut_put(&mut self.buffer, data);
    }

    /// Pops the next complete packet body, or `Ok(None)` if more bytes are
    /// needed.
    ///
    /// The returned buffer starts at the packet id.
    pub fn decode(&mut self) -> (decoded: Result<Option<Bytes>>)
        ensures
            final(self).compression() == old(self).compression(),
            final(self).cipher() == old(self).cipher(),
            receives(
                old(self).compression(),
                old(self).pending(),
                final(self).pending(),
                decoded,
            ),
    {
        proof {
            varint::lemma_group_count_bounds(self.pending(), varint::MAX_VARINT_BYTES as nat);
        }
        let (frame_len, header_len) = match varint::read_varint(bytes_mut_slice(&self.buffer)) {
            Ok(v) => v,
            // A partial length prefix simply means "read more from the socket".
            Err(ProtocolError::UnexpectedEof { needed, available }) => return Ok(None),
            Err(e) => return Err(e),
        };
        if frame_len < 0 {
            return Err(ProtocolError::NegativeLength(frame_len));
        }
        let frame_len: usize = frame_len as usize;
        if frame_len > MAX_FRAME_LEN {
            return Err(ProtocolError::FrameTooLarge { len: frame_len, max: MAX_FRAME_LEN });
        }
        if self.buffered() < header_len + frame_len {
            return Ok(None);
        }
        let ghost stream = self.pending();
        bytes_mut_advance(&mut self.buffer, header_len);
        let mut frame = bytes_mut_split_to(&mut self.buffer, frame_len);
        let ghost body = buffer::bytes_mut_content(frame);
        assert(self.pending() =~= stream.skip(header_len + frame_len));
        let threshold: usize = match self.compression {
            None => return Ok(Some(bytes_mut_freeze(frame))),
            Some(threshold) => threshold,
        };
        proof {
            varint::lemma_group_count_bounds(body, varint::MAX_VARINT_BYTES as nat);
        }
        let (size, used) = varint::read_varint(bytes_mut_slice(&frame))?;
        if size == 0 {
            // Sent uncompressed; hand back the same allocation.
            bytes_mut_advance(&mut frame, used);
            return Ok(Some(bytes_mut_freeze(frame)));
        }
        if size < 0 {
            return Err(ProtocolError::NegativeLength(size));
        }
        let size: usize = size as usize;
        if size < threshold {
            return Err(ProtocolError::BadlyCompressed { size, threshold });
        }
        if size > MAX_FRAME_LEN {
            return Err(ProtocolError::DecompressedTooLarge { len: size, max: MAX_FRAME_LEN });
        }
        bytes_mut_advance(&mut frame, used);
        let packet = decompress_exact(&mut self.decompressor, bytes_mut_slice(&frame), size)?;
        Ok(Some(bytes_from_vec(packet)))
    }
}

// ---------------------------------------------------------------------------
// Encoding
// ---------------------------------------------------------------------------

/// Serializes packet bodies into framed, optionally compressed and encrypted
/// bytes.
pub struct Encoder {
    compression: Option<usize>,
    encryptor: Option<Encryptor>,
}

impl Default for Encoder {
    fn default() -> (encoder: Self)
        ensures
            encoder.compression() is None,
            encoder.cipher() is None,
    {
        Encoder::new()
    }
}

impl Encoder {
    /// The compression threshold, where compression is on.
    pub closed spec fn compression(&self) -> Option<usize> {
        self.compression
    }

    /// The state of the cipher, where encryption is on.
    pub closed spec fn cipher(&self) -> Option<CipherState> {
        match self.encryptor {
            Some(e) => Some((e.secret(), e.register())),
            None => None,
        }
    }

    #[must_use]
    pub fn new() -> (encoder: Self)
        ensures
            encoder.compression() is None,
            encoder.cipher() is None,
    {
        Self { compression: None, encryptor: None }
    }

    /// Turns on compression. Call this *after* writing `Set Compression`.
    pub fn enable_compression(&mut self, threshold: usize)
        ensures
            final(self).compression() == Some(threshold),
            final(self).cipher() == old(self).cipher(),
    {
        self.compression = Some(threshold);
    }

    /// Turns on encryption. Call this *after* writing `Encryption Request`.
    pub fn enable_encryption(&mut self, encryptor: Encryptor)
        ensures
            final(self).cipher() == Some((encryptor.secret(), encryptor.register())),
            final(self).compression() == old(self).compression(),
    {
        self.encryptor = Some(encryptor);
    }

    #[must_use]
    pub fn is_encrypted(&self) -> (encrypted: bool)
        ensures
            encrypted == (self.cipher() is Some),
    {
        self.encryptor.is_some()
    }

    /// Appends one framed packet to `out`.
    ///
    /// `packet` must already contain the VarInt packet id followed by the body.
    /// A packet that is refused leaves the buffer and the cipher as they were.
    pub fn encode(&mut self, packet: &[u8], out: &mut BytesMut) -> (encoded: Result<()>)
        ensures
            final(self).compression() == old(self).compression(),
            transmits(
                old(self).compression(),
                old(self).cipher(),
                packet@,
                buffer::bytes_mut_content(*old(out)),
                buffer::bytes_mut_content(*final(out)),
                final(self).cipher(),
                encoded,
            ),
    {
        let mut frame: Vec<u8> = match self.compression {
            None => {
                if packet.len() > MAX_FRAME_LEN {
                    return Err(
                        ProtocolError::FrameTooLarge { len: packet.len(), max: MAX_FRAME_LEN },
                    );
                }
                let mut frame: Vec<u8> = Vec::new();
                frame.write_varint(packet.len() as i32);
                frame.write_bytes(packet);
                assert(frame@ =~= plain_frame(packet@));
                frame
            },
            Some(threshold) => {
                if packet.len() < threshold {
                    // Below the threshold the body is passed through, marked by a
                    // zero uncompressed-size field (one byte as a VarInt).
                    let mut frame: Vec<u8> = Vec::new();
                    frame.write_varint((1 + packet.len()) as i32);
                    frame.write_varint(0);
                    frame.write_bytes(packet);
                    assert(frame@ =~= small_frame(packet@));
                    frame
                } else {
                    let stream = compress_into(packet)?;
                    compressed_frame(packet.len(), stream.as_slice())?
                }
            },
        };
        let ghost plain = frame@;
        assert(frames(self.compression(), packet@, plain));
        if let Some(encryptor) = &mut self.encryptor {
            encryptor.encrypt(frame.as_mut_slice());
        }
        bytes_mut_put(out, frame.as_slice());
        Ok(())
    }
}

/// The frame of a packet of `size` bytes that was deflated into `stream`.
pub fn compressed_frame(size: usize, stream: &[u8]) -> (frame: Result<Vec<u8>>)
    requires
        stream@.len() <= isize::MAX,
    ensures
        match frame {
            Ok(f) => deflated_body_len(size as nat, stream@) <= MAX_FRAME_LEN && f@
                == deflated_frame(size as nat, stream@),
            Err(e) => deflated_body_len(size as nat, stream@) > MAX_FRAME_LEN && e == (
            ProtocolError::FrameTooLarge {
                len: deflated_body_len(size as nat, stream@) as usize,
                max: MAX_FRAME_LEN,
            }),
        },
{
    let len: usize = varint_len(size as i32) + stream.len();
    if len > MAX_FRAME_LEN {
        return Err(ProtocolError::FrameTooLarge { len, max: MAX_FRAME_LEN });
    }
    let mut frame: Vec<u8> = Vec::new();
    frame.write_varint(len as i32);
    frame.write_varint(size as i32);
    frame.write_bytes(stream);
    assert(frame@ =~= deflated_frame(size as nat, stream@));
    Ok(frame)
}

// ---------------------------------------------------------------------------
// Laws
// ---------------------------------------------------------------------------

/// The packets whose frames the other side accepts: within the frame limit, and
/// not an empty packet that was deflated, whose size field would say that it was
/// not.
pub open spec fn deliverable(compression: Option<usize>, packet: Seq<u8>) -> bool {
    match compression {
        None => packet.len() <= MAX_FRAME_LEN,
        Some(threshold) => if packet.len() < threshold {
            1 + packet.len() <= MAX_FRAME_LEN
        } else {
            0 < packet.len() <= MAX_FRAME_LEN
        },
    }
}

/// A frame is read back as the packet it carries, whatever follows it in the
/// stream, with or without compression.
pub proof fn law_frame_round_trip(
    compression: Option<usize>,
    packet: Seq<u8>,
    frame: Seq<u8>,
    tail: Seq<u8>,
)
    requires
        frames(compression, packet, frame),
        deliverable(compression, packet),
    ensures
        match next_frame(frame + tail) {
            Ok(Some((body, rest))) => rest == tail && unpack(body, compression)
                == Unpacked::Packet(packet),
            _ => false,
        },
{
    let body = frame_body(compression, packet);
    lemma_frame_body(compression, packet, frame);
    varint::law_varint_round_trip(body.len() as i32, body + tail);
    let used = varint::varint_bytes(body.len() as i32).len() as int;
    assert(frame + tail =~= varint::varint_bytes(body.len() as i32) + (body + tail));
    assert((frame + tail).skip(used).take(body.len() as int) =~= body);
    assert((frame + tail).skip(used + body.len()) =~= tail);
}

/// Until the last byte of a frame has arrived, more is waited for: no error, no
/// packet.
pub proof fn law_partial_frame_waits(
    compression: Option<usize>,
    packet: Seq<u8>,
    frame: Seq<u8>,
    k: int,
)
    requires
        frames(compression, packet, frame),
        deliverable(compression, packet),
        0 <= k < frame.len(),
    ensures
        next_frame(frame.take(k)) == Ok::<Option<(Seq<u8>, Seq<u8>)>, ProtocolError>(None),
{
    let body = frame_body(compression, packet);
    lemma_frame_body(compression, packet, frame);
    let prefix = varint::varint_bytes(body.len() as i32);
    if k < prefix.len() {
        varint::law_varint_prefix_is_truncated(body.len() as i32, k);
        assert(frame.take(k) =~= prefix.take(k));
    } else {
        let part = body.take(k - prefix.len());
        varint::law_varint_round_trip(body.len() as i32, part);
        assert(frame.take(k) =~= prefix + part);
    }
}

/// What is sent through one cipher and received through its mirror is what was
/// sent.
pub proof fn law_sent_is_received(cipher: Option<CipherState>, plain: Seq<u8>)
    ensures
        opened(cipher, sealed(cipher, plain)) == plain,
{
    if let Some((secret, register)) = cipher {
        crypt::law_cipher_round_trip(secret, register, plain);
    }
}

/// A packet that was encoded comes out of a decoder in the same state: framed,
/// compressed where it has to be, enciphered, sent, deciphered and unpacked.
pub proof fn law_packet_arrives(
    compression: Option<usize>,
    cipher: Option<CipherState>,
    packet: Seq<u8>,
    frame: Seq<u8>,
)
    requires
        frames(compression, packet, frame),
        deliverable(compression, packet),
    ensures
        match next_frame(opened(cipher, sealed(cipher, frame))) {
            Ok(Some((body, rest))) => rest == Seq::<u8>::empty() && unpack(body, compression)
                == Unpacked::Packet(packet),
            _ => false,
        },
{
    law_sent_is_received(cipher, frame);
    law_frame_round_trip(compression, packet, frame, Seq::empty());
    assert(frame + Seq::<u8>::empty() =~= frame);
}

/// What an encoder appended for a packet, fed to a decoder in the same state,
/// gives that packet and nothing else, and leaves the decoder where the encoder
/// is.
pub proof fn law_encoded_is_decoded(
    compression: Option<usize>,
    cipher: Option<CipherState>,
    packet: Seq<u8>,
    before: Seq<u8>,
    after: Seq<u8>,
    cipher_after: Option<CipherState>,
)
    requires
        transmits(compression, cipher, packet, before, after, cipher_after, Ok(())),
        deliverable(compression, packet),
    ensures
        ({
            let sent = after.skip(before.len() as int);
            &&& cipher_after == stepped(cipher, sent)
            &&& match next_frame(opened(cipher, sent)) {
                Ok(Some((body, rest))) => rest == Seq::<u8>::empty() && unpack(body, compression)
                    == Unpacked::Packet(packet),
                _ => false,
            }
        }),
{
    let frame = frame_of(compression, packet);
    law_packet_arrives(compression, cipher, packet, frame);
    assert(after.skip(before.len() as int) =~= sealed(cipher, frame));
}

/// Feeding bytes in two pieces has the effect of feeding them at once.
pub proof fn law_feed_in_pieces(cipher: Option<CipherState>, first: Seq<u8>, second: Seq<u8>)
    ensures
        opened(cipher, first + second) == opened(cipher, first) + opened(
            stepped(cipher, first),
            second,
        ),
        stepped(cipher, first + second) == stepped(stepped(cipher, first), second),
{
    if let Some((secret, register)) = cipher {
        crypt::law_keystream_continuous(secret, register, first, second);
    }
}

/// The two ends stay in step: what is sent after something else was sent is
/// received after it.
pub proof fn law_ends_stay_in_step(cipher: Option<CipherState>, first: Seq<u8>, second: Seq<u8>)
    ensures
        ({
            let sent = sealed(cipher, first);
            let after = sealed(stepped(cipher, sent), second);
            opened(cipher, sent + after) == first + second
        }),
{
    let sent = sealed(cipher, first);
    let after = sealed(stepped(cipher, sent), second);
    law_feed_in_pieces(cipher, sent, after);
    law_sent_is_received(cipher, first);
    law_sent_is_received(stepped(cipher, sent), second);
}

/// The part of a frame behind its length.
spec fn frame_body(compression: Option<usize>, packet: Seq<u8>) -> Seq<u8> {
    match compression {
        None => packet,
        Some(threshold) => if packet.len() < threshold {
            varint::varint_bytes(0) + packet
        } else {
            varint::varint_bytes(packet.len() as i32) + packed(packet)
        },
    }
}

/// A frame is the length of its body and the body, and the body unpacks to the
/// packet.
proof fn lemma_frame_body(compression: Option<usize>, packet: Seq<u8>, frame: Seq<u8>)
    requires
        frames(compression, packet, frame),
        deliverable(compression, packet),
    ensures
        ({
            let body = frame_body(compression, packet);
            &&& body.len() <= MAX_FRAME_LEN
            &&& frame == varint::varint_bytes(body.len() as i32) + body
            &&& unpack(body, compression) == Unpacked::Packet(packet)
        }),
{
    let body = frame_body(compression, packet);
    if let Some(threshold) = compression {
        if packet.len() < threshold {
            varint::law_varint_round_trip(0, packet);
            assert(varint::varint_bytes(0).len() == 1) by {
                assert(0i32 as u32 as u64 == 0) by (bit_vector);
            }
            assert(body.skip(1) =~= packet);
            assert(frame =~= varint::varint_bytes(body.len() as i32) + body);
        } else {
            let stream = packed(packet);
            let size = packet.len() as i32;
            varint::law_varint_round_trip(size, stream);
            assert(body.skip(varint::varint_bytes(size).len() as int) =~= stream);
            assert(frame =~= varint::varint_bytes(body.len() as i32) + body);
        }
    }
}

} // verus!
