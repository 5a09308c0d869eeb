//! zlib streams, as the frame codec uses them.

use flate2::{
    Compress, CompressError, Compression, Decompress, DecompressError, FlushCompress,
    FlushDecompress, Status,
};
use vstd::prelude::*;

use crate::protocol::error::{ProtocolError, Result};
use crate::protocol::json;

verus! {

#[verifier::external_type_specification]
#[verifier::external_body]
pub struct ExDecompress(Decompress);

#[verifier::external_type_specification]
#[verifier::external_body]
pub struct ExCompressError(CompressError);

#[verifier::external_type_specification]
#[verifier::external_body]
pub struct ExDecompressError(DecompressError);

/// zlib level. Level 6 is zlib's own default; the marginal ratio above it costs
/// far more CPU than the bandwidth is worth on a chunk-heavy send path.
pub const COMPRESSION_LEVEL: u32 = 6;

/// What the zlib stream at the front of `stream` inflates to. `None` where there
/// is no complete and intact stream.
pub uninterp spec fn zlib_content(stream: Seq<u8>) -> Option<Seq<u8>>;

/// The zlib stream that `data` is deflated into at a level.
pub uninterp spec fn deflated(data: Seq<u8>, level: u32) -> Seq<u8>;

/// Calls `Decompress::new` for zlib streams.
#[verifier::external_body]
pub(crate) fn new_decompressor() -> Decompress {
    Decompress::new(true)
}

/// Calls `Compress::compress_vec` on a new `Compress` for zlib streams, to
/// deflate all of `data` into the capacity that `room` bytes are given. It fails
/// only for a compressor that was set up wrong, which this one is not. The stream
/// depends on the data and the level alone, is finished where there is room for
/// it, and inflates to the data. Like every vector of bytes it holds no more than
/// `isize::MAX` of them.
#[verifier::external_body]
fn deflate(data: &[u8], level: u32, room: usize) -> (stream: core::result::Result<
    Option<Vec<u8>>,
    CompressError,
>)
    requires
        level <= 9,
        0 < room <= isize::MAX,
    ensures
        stream is Ok,
        stream matches Ok(Some(out)) ==> out@ == deflated(data@, level) && zlib_content(out@)
            == Some(data@) && out@.len() <= isize::MAX,
        deflated(data@, level).len() <= room ==> stream->Ok_0 is Some,
{
    let mut zlib = Compress::new(Compression::new(level), true);
    let mut out = Vec::with_capacity(room);
    match zlib.compress_vec(data, &mut out, FlushCompress::Finish)? {
        Status::StreamEnd => Ok(Some(out)),
        _ => Ok(None),
    }
}

/// Calls `Decompress::decompress_vec` after `Decompress::reset`, to inflate
/// `stream` into at least `limit` bytes of room. Content that fits the limit is
/// given back, and nothing is given back that is not the content.
#[verifier::external_body]
fn inflate(zlib: &mut Decompress, stream: &[u8], limit: usize) -> (content: core::result::Result<
    Option<Vec<u8>>,
    DecompressError,
>)
    requires
        0 < limit <= isize::MAX,
    ensures
        content matches Ok(Some(out)) ==> zlib_content(stream@) == Some(out@),
        zlib_content(stream@) is Some && zlib_content(stream@)->0.len() <= limit
            ==> content is Ok && content->Ok_0 is Some,
{
    zlib.reset(true);
    let mut out = Vec::with_capacity(limit);
    match zlib.decompress_vec(stream, &mut out, FlushDecompress::Finish)? {
        Status::StreamEnd => Ok(Some(out)),
        _ => Ok(None),
    }
}

/// Compresses `input` into one zlib stream.
///
/// The first attempt has room for data that does not compress at all; should
/// that not be enough, the room is doubled.
pub fn compress_into(input: &[u8]) -> (stream: Result<Vec<u8>>)
    ensures
        match stream {
            Ok(out) => out@ == deflated(input@, COMPRESSION_LEVEL) && zlib_content(out@) == Some(
                input@,
            ) && out@.len() <= isize::MAX,
            Err(e) => e is Compression && deflated(input@, COMPRESSION_LEVEL).len() > isize::MAX
                / 2,
        },
{
    let most: usize = isize::MAX as usize;
    let mut room: usize = if input.len() <= most / 2 {
        input.len() + input.len() / 16 + 64
    } else {
        most
    };
    loop
        invariant
            0 < room <= most,
            most == isize::MAX,
        decreases most - room,
    {
        match deflate(input, COMPRESSION_LEVEL, room) {
            Err(e) => return Err(ProtocolError::Compression(e.to_string())),
            Ok(Some(out)) => return Ok(out),
            Ok(None) => {
                if room > most / 2 {
                    return Err(
                        ProtocolError::Compression("deflated data fits no buffer".to_owned()),
                    );
                }
                // Output buffer is full; give it more room and try again.
                room = room * 2;
            },
        }
    }
}

/// Inflates `input` and requires the result to be exactly `expected` bytes.
///
/// The output is capped at the declared size, so a stream that tries to expand
/// beyond what the sender promised is rejected rather than allowed to exhaust
/// memory.
pub fn decompress_exact(zlib: &mut Decompress, input: &[u8], expected: usize) -> (content: Result<
    Vec<u8>,
>)
    requires
        0 < expected <= isize::MAX,
    ensures
        match content {
            Ok(out) => zlib_content(input@) == Some(out@) && out@.len() == expected,
            Err(e) => e is Compression && !(zlib_content(input@) is Some && zlib_content(
                input@,
            )->0.len() == expected),
        },
{
    match inflate(zlib, input, expected) {
        Err(e) => Err(ProtocolError::Compression(e.to_string())),
        Ok(inflated) => exact_content(inflated, expected),
    }
}

/// What is wrong with inflated content of which exactly `expected` bytes were
/// declared, where anything is.
pub open spec fn content_fault(inflated: Option<Seq<u8>>, expected: usize) -> Option<Seq<char>> {
    match inflated {
        None => Some("truncated zlib stream, or larger than its declared size"@),
        Some(out) => if out.len() == expected {
            None
        } else {
            Some(
                "zlib stream produced "@ + json::decimal(out.len() as int) + " bytes, declared "@
                    + json::decimal(expected as int),
            )
        },
    }
}

/// The content of a stream, where there is exactly as much as was declared. No
/// content means that the sender lied about the size, or that the stream is
/// truncated.
pub fn exact_content(inflated: Option<Vec<u8>>, expected: usize) -> (content: Result<Vec<u8>>)
    ensures
        match content_fault(
            match inflated {
                Some(out) => Some(out@),
                None => None,
            },
            expected,
        ) {
            None => content is Ok && content->Ok_0@ == inflated->0@,
            Some(why) => content is Err && content->Err_0 is Compression
                && content->Err_0->Compression_0@ == why,
        },
{
    match inflated {
        None => Err(
            ProtocolError::Compression(
                "truncated zlib stream, or larger than its declared size".to_owned(),
            ),
        ),
        Some(out) => {
            if out.len() != expected {
                let mut text: String = "zlib stream produced ".to_owned();
                text.append(json::number(out.len() as i128).as_str());
                text.append(" bytes, declared ");
                text.append(json::number(expected as i128).as_str());
                return Err(ProtocolError::Compression(text));
            }
            Ok(out)
        },
    }
}

} // verus!
