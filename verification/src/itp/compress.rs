//! The bridge to the byte-stream compression that the format borrows.
//!
//! The compressed streams are opaque to this library: it hands bytes over and takes
//! bytes back. What comes back is a function of what was handed over, and the
//! contracts of the codec speak of it under the names declared here.

use vstd::prelude::*;

verus! {

/// The error type of the compression library.
#[verifier::external_type_specification]
#[verifier::external_body]
pub struct ExCompressError(falcompress::Error);

/// What expanding the compressed stream at the start of `data` gives: the expanded
/// bytes and the length of the stream, or `None` where `data` starts with no valid
/// stream.
pub uninterp spec fn expanded(data: Seq<u8>) -> Option<(Seq<u8>, int)>;

/// The compressed stream for `data`.
pub uninterp spec fn compressed(data: Seq<u8>) -> Seq<u8>;

/// Calls `falcompress::ed7::freadp` on `data` with an empty output buffer.
///
/// The contract claims that the outcome is a function of `data`; that a stream which
/// expands has a length above zero, since its framing starts with a length field
/// that must be read; and that the stream ends inside `data`, since its length is
/// the position of a reader over `data`.
#[verifier::external_body]
pub(crate) fn freadp(data: &[u8]) -> (r: Result<(Vec<u8>, usize), falcompress::Error>)
    ensures
        match r {
            Ok((out, used)) => expanded(data@) == Some((out@, used as int)) && 0 < used <= data@.len(),
            Err(_) => expanded(data@) is None,
        },
{
    let mut out = Vec::new();
    match falcompress::ed7::freadp(data, &mut out) {
        Ok(used) => Ok((out, used)),
        Err(e) => Err(e),
    }
}

/// The most bytes that are compressed at once.
///
/// A compressed stream holds its own length in 32 bits, and the compressor fails
/// where the length does not fit. It stores a byte in nine bits at most, and frames
/// every 32752 bytes with four more, so that the stream of a gibibyte of data still
/// fits by a wide margin.
pub const COMPRESS_LIMIT: usize = 0x4000_0000;

/// Calls `falcompress::ed7::compress` on `data`, in the library's default mode.
///
/// The contract claims that the outcome is a function of `data`. It asks for no
/// more than `COMPRESS_LIMIT` bytes, on which the call does not fail.
#[verifier::external_body]
pub(crate) fn compress(data: &[u8]) -> (out: Vec<u8>)
    requires
        data@.len() <= COMPRESS_LIMIT,
    ensures
        out@ == compressed(data@),
{
    falcompress::ed7::compress(data, falcompress::bzip::CompressMode::default())
}

} // verus!
