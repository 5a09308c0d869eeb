//! The frames of the protocol, byte by byte.

use bytes::Bytes;
use vstd::prelude::*;

use crate::protocol::buffer;
use crate::protocol::codec;
use crate::protocol::codec::Unpacked;
use crate::protocol::crypt;
use crate::protocol::error::{ProtocolError, Result};
use crate::protocol::layout::Field;
use crate::protocol::layout;
use crate::protocol::varint;
use crate::protocol::zlib;

verus! {

/// A frame is the number of the bytes that follow and these bytes: the packet
/// alone without compression; a zero and the packet below the threshold; and from
/// the threshold on the size of the packet and its zlib stream.
pub proof fn law_frame_format(packet: Seq<u8>, size: Seq<u8>, threshold: usize)
    requires
        packet.len() < 0x7FFF_FFFF,
        layout::is_varint(size, packet.len() as i32),
    ensures
        layout::spells(
            codec::frame_of(None, packet),
            seq![Field::VarInt(packet.len() as i32), Field::Raw(packet)],
        ),
        packet.len() < threshold ==> layout::spells(
            codec::frame_of(Some(threshold), packet),
            seq![
                Field::VarInt((1 + packet.len()) as i32),
                Field::VarInt(0),
                Field::Raw(packet),
            ],
        ),
        packet.len() >= threshold ==> layout::spells(
            codec::frame_of(Some(threshold), packet),
            seq![
                Field::VarInt((size.len() + zlib::deflated(packet, 6).len()) as i32),
                Field::VarInt(packet.len() as i32),
                Field::Raw(zlib::deflated(packet, 6)),
            ],
        ),
{
    let len = packet.len() as i32;
    layout::lemma_front(varint::varint_bytes(len));
    let (s, f) = layout::begin();
    let (s, f) = layout::then_varint(s, f, len);
    let (s, f) = layout::then_raw(s, f, packet);
    assert(f =~= seq![Field::VarInt(len), Field::Raw(packet)]);
    let more = (1 + packet.len()) as i32;
    layout::lemma_front(varint::varint_bytes(more));
    let (s, f) = layout::begin();
    let (s, f) = layout::then_varint(s, f, more);
    let (s, f) = layout::then_varint(s, f, 0);
    let (s, f) = layout::then_raw(s, f, packet);
    assert(f =~= seq![Field::VarInt(more), Field::VarInt(0), Field::Raw(packet)]);
    let stream = zlib::deflated(packet, 6);
    let whole = (size.len() + stream.len()) as i32;
    lemma_head(size, len);
    layout::lemma_front(varint::varint_bytes(whole));
    let (s, f) = layout::begin();
    let (s, f) = layout::then_varint(s, f, whole);
    let (s, f) = layout::then_varint(s, f, len);
    let (s, f) = layout::then_raw(s, f, stream);
    assert(f =~= seq![Field::VarInt(whole), Field::VarInt(len), Field::Raw(stream)]);
}

/// A number of bytes up to two mebibytes, and that many bytes, are read as a
/// frame, and what follows is left. With fewer bytes more is waited for.
pub proof fn law_frame_reads(head: Seq<u8>, body: Seq<u8>, part: Seq<u8>, tail: Seq<u8>)
    requires
        body.len() <= 0x20_0000,
        layout::is_varint(head, body.len() as i32),
        part.len() < body.len(),
    ensures
        codec::next_frame(head + body + tail) == Ok::<
            Option<(Seq<u8>, Seq<u8>)>,
            ProtocolError,
        >(Some((body, tail))),
        codec::next_frame(head + part) == Ok::<Option<(Seq<u8>, Seq<u8>)>, ProtocolError>(None),
        codec::next_frame(Seq::empty()) == Ok::<Option<(Seq<u8>, Seq<u8>)>, ProtocolError>(None),
{
    let len = body.len() as i32;
    lemma_head(head, len);
    varint::law_varint_round_trip(len, body + tail);
    varint::law_varint_round_trip(len, part);
    assert(head + body + tail =~= head + (body + tail));
    let s = head + (body + tail);
    assert(s.skip(head.len() as int).take(len as int) =~= body);
    assert(s.skip(head.len() + len) =~= tail);
    varint::lemma_group_count_none(Seq::empty(), 5);
}

proof fn lemma_head(head: Seq<u8>, v: i32)
    requires
        layout::is_varint(head, v),
    ensures
        head == varint::varint_bytes(v),
{
    layout::law_varint_bytes(v);
    let (s, f) = layout::begin();
    layout::lemma_front(head);
    layout::lemma_front(varint::varint_bytes(v));
    layout::lemma_then(s, f, head, Field::VarInt(v));
    layout::lemma_then(s, f, varint::varint_bytes(v), Field::VarInt(v));
    layout::law_spelling_is_unique(head, varint::varint_bytes(v), f.push(Field::VarInt(v)));
}

/// A frame that says it is longer than two mebibytes is refused, and so is one
/// that says it has a negative length.
pub proof fn law_frame_is_limited(head: Seq<u8>, v: i32, tail: Seq<u8>)
    requires
        layout::is_varint(head, v),
    ensures
        v < 0 ==> codec::next_frame(head + tail) == Err::<
            Option<(Seq<u8>, Seq<u8>)>,
            ProtocolError,
        >(ProtocolError::NegativeLength(v)),
        v > 0x20_0000 ==> codec::next_frame(head + tail) == Err::<
            Option<(Seq<u8>, Seq<u8>)>,
            ProtocolError,
        >(ProtocolError::FrameTooLarge { len: v as usize, max: 0x20_0000 }),
{
    lemma_head(head, v);
    varint::law_varint_round_trip(v, tail);
}

/// The body of a frame is the packet itself without compression. Under a
/// threshold it is a zero and the packet, or the size of the packet, which is
/// neither below the threshold nor over two mebibytes, and a zlib stream of just
/// that size.
pub proof fn law_body_unpacks(size: Seq<u8>, v: i32, content: Seq<u8>, threshold: usize)
    requires
        layout::is_varint(size, v),
    ensures
        codec::unpack(size + content, None) == Unpacked::Packet(size + content),
        ({
            let got = codec::unpack(size + content, Some(threshold));
            &&& v == 0 ==> got == Unpacked::Packet(content)
            &&& v < 0 ==> got == Unpacked::Malformed(ProtocolError::NegativeLength(v))
            &&& 0 < v < threshold ==> got == Unpacked::Malformed(
                ProtocolError::BadlyCompressed { size: v as usize, threshold },
            )
            &&& v > 0 && v >= threshold && v > 0x20_0000 ==> got == Unpacked::Malformed(
                ProtocolError::DecompressedTooLarge { len: v as usize, max: 0x20_0000 },
            )
            &&& v > 0 && threshold <= v <= 0x20_0000 ==> match zlib::zlib_content(content) {
                Some(packet) => if packet.len() == v {
                    got == Unpacked::Packet(packet)
                } else {
                    got == Unpacked::BadStream
                },
                None => got == Unpacked::BadStream,
            }
        }),
{
    lemma_head(size, v);
    varint::law_varint_round_trip(v, content);
    assert((size + content).skip(size.len() as int) =~= content);
}

/// A packet is sent as one frame behind what waits already, where the frame holds
/// no more than two mebibytes; under the threshold there is no limit. One that is
/// over it is refused, and then nothing is added.
pub proof fn law_packets_are_sent(
    packet: Seq<u8>,
    size: Seq<u8>,
    threshold: Option<usize>,
    before: Seq<u8>,
    after: Seq<u8>,
    encoded: Result<()>,
)
    requires
        packet.len() < 0x7FFF_FFFF,
        layout::is_varint(size, packet.len() as i32),
        codec::transmits(threshold, None, packet, before, after, None, encoded),
    ensures
        ({
            let sent = after.skip(before.len() as int);
            let stream = zlib::deflated(packet, 6);
            let fits = match threshold {
                None => packet.len() <= 0x20_0000,
                Some(least) => packet.len() < least || size.len() + stream.len() <= 0x20_0000,
            };
            &&& encoded is Ok <==> fits
            &&& !fits ==> after == before
            &&& fits ==> after == before + sent && layout::spells(
                sent,
                match threshold {
                    None => seq![Field::VarInt(packet.len() as i32), Field::Raw(packet)],
                    Some(least) => if packet.len() < least {
                        seq![
                            Field::VarInt((1 + packet.len()) as i32),
                            Field::VarInt(0),
                            Field::Raw(packet),
                        ]
                    } else {
                        seq![
                            Field::VarInt((size.len() + stream.len()) as i32),
                            Field::VarInt(packet.len() as i32),
                            Field::Raw(stream),
                        ]
                    },
                },
            )
            &&& threshold is None && !fits ==> encoded == Err::<(), ProtocolError>(
                ProtocolError::FrameTooLarge { len: packet.len() as usize, max: 0x20_0000 },
            )
        }),
{
    let least = match threshold {
        None => 0usize,
        Some(least) => least,
    };
    lemma_head(size, packet.len() as i32);
    law_frame_format(packet, size, least);
    let frame = codec::frame_of(threshold, packet);
    assert((before + frame).skip(before.len() as int) =~= frame);
}

/// The first frame that is complete is taken away, and the packet in it is given;
/// the frames behind it wait. Where none is complete, or what comes first is no
/// frame, nothing is taken.
pub proof fn law_packets_are_received(
    head: Seq<u8>,
    body: Seq<u8>,
    part: Seq<u8>,
    tail: Seq<u8>,
    after: Seq<u8>,
    decoded: Result<Option<Bytes>>,
)
    requires
        body.len() <= 0x20_0000,
        layout::is_varint(head, body.len() as i32),
        part.len() < body.len(),
    ensures
        codec::receives(None, head + body + tail, after, decoded) ==> after == tail && (
        decoded matches Ok(Some(packet)) && buffer::bytes_content(packet) == body),
        codec::receives(None, head + part, after, decoded) ==> after == head + part && decoded
            == Ok::<Option<Bytes>, ProtocolError>(None),
        codec::receives(None, Seq::empty(), after, decoded) ==> after.len() == 0 && decoded == Ok::<
            Option<Bytes>,
            ProtocolError,
        >(None),
{
    law_frame_reads(head, body, part, tail);
}

/// The last sixteen bytes of a register and the ciphertext that followed it.
pub open spec fn window(register: Seq<u8>, cipher: Seq<u8>) -> Seq<u8> {
    (register + cipher).skip(cipher.len() as int)
}

/// Each byte is combined with the first byte of the enciphered sixteen bytes of
/// ciphertext before it, whether it is enciphered or deciphered, and the register
/// is left at the last sixteen bytes of ciphertext.
pub proof fn law_cipher_feeds_back(
    secret: Seq<u8>,
    register: Seq<u8>,
    text: Seq<u8>,
    k: int,
)
    requires
        register.len() == 16,
        0 <= k < text.len(),
    ensures
        ({
            let sent = crypt::enciphered(secret, register, text);
            &&& sent.len() == text.len()
            &&& sent[k] == text[k] ^ crypt::aes_first_byte(secret, window(register, sent.take(k)))
            &&& crypt::deciphered(secret, register, text).len() == text.len()
            &&& crypt::deciphered(secret, register, text)[k] == text[k] ^ crypt::aes_first_byte(
                secret,
                window(register, text.take(k)),
            )
            &&& crypt::advanced(register, text) == window(register, text)
        }),
    decreases text.len(),
{
    let sent = crypt::enciphered(secret, register, text);
    let seen = crypt::deciphered(secret, register, text);
    let rest = text.skip(1);
    let c = sent[0];
    let ours = crypt::shifted(register, c);
    let theirs = crypt::shifted(register, text[0]);
    crypt::law_cipher_round_trip(secret, register, text);
    assert(window(register, sent.take(0)) =~= register);
    assert(window(register, text.take(0)) =~= register);
    assert(sent.skip(1) =~= crypt::enciphered(secret, ours, rest));
    assert(seen.skip(1) =~= crypt::deciphered(secret, theirs, rest));
    if rest.len() == 0 {
        assert(crypt::advanced(theirs, rest) == theirs);
        assert(crypt::deciphered(secret, theirs, rest).len() == 0);
        assert(window(register, text) =~= theirs);
    } else {
        let j = if k > 0 {
            k - 1
        } else {
            0
        };
        law_cipher_feeds_back(secret, ours, rest, j);
        law_cipher_feeds_back(secret, theirs, rest, j);
        assert(window(theirs, rest) =~= window(register, text));
        if k > 0 {
            assert(window(ours, sent.skip(1).take(j)) =~= window(register, sent.take(k)));
            assert(window(theirs, rest.take(j)) =~= window(register, text.take(k)));
            assert(sent[k] == sent.skip(1)[j]);
            assert(seen[k] == seen.skip(1)[j]);
        }
    }
}

} // verus!
