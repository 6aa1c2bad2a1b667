//! The zlib compressor and decompressor, which the `miniz_oxide` crate
//! provides. Nothing is proved of what they compute: their results carry
//! names here, and the rest of the crate is stated over those names.

use crate::error::Error;
use miniz_oxide::deflate::compress_to_vec_zlib;
use miniz_oxide::inflate;
use miniz_oxide::inflate::TINFLStatus;
use vstd::prelude::*;

verus! {

/// How a run of the decompressor ended.
#[derive(Debug, Clone, Copy, PartialEq, Eq, Hash, Structural)]
pub enum InflateStatus {
    /// The input ended before the compressed stream did.
    FailedCannotMakeProgress,
    /// The output position or the flags were not acceptable.
    BadParam,
    /// The data was decompressed, but its checksum is wrong.
    Adler32Mismatch,
    /// The input is not a valid compressed stream.
    Failed,
    /// The end of the compressed stream was reached without fault.
    Done,
    /// More input is needed (only when more was announced).
    NeedsMoreInput,
    /// The output buffer is full and the stream has not ended.
    HasMoreOutput,
}

/// Decompressor flag: the input starts with a zlib header. The value is that
/// of `miniz_oxide`'s `TINFL_FLAG_PARSE_ZLIB_HEADER`.
pub const PARSE_ZLIB_HEADER: u32 = 1;

/// Decompressor flag: the output buffer holds the whole output and is not
/// used as a ring. The value is that of `miniz_oxide`'s
/// `TINFL_FLAG_USING_NON_WRAPPING_OUTPUT_BUF`.
pub const NON_WRAPPING_OUTPUT_BUF: u32 = 4;

/// The zlib stream that the compressor makes of `data` at the given level.
pub uninterp spec fn zlib_deflated(data: Seq<u8>, level: u8) -> Seq<u8>;

/// What the decompressor does with `input` when it writes into the buffer
/// `out` from position `pos` on: how it ended, how many bytes it wrote, and
/// the buffer afterwards.
pub uninterp spec fn zlib_inflated(input: Seq<u8>, out: Seq<u8>, pos: nat, flags: u32) -> (
    InflateStatus,
    nat,
    Seq<u8>,
);

/// Calls `miniz_oxide::deflate::compress_to_vec_zlib`, which compresses
/// `data` into a new vector with a zlib wrapper, at a level from 0 to 10. The
/// result depends on the data and the level alone; it is only named here.
#[verifier::external_body]
pub(crate) fn deflate(data: &[u8], level: u8) -> (out: Vec<u8>)
    requires
        level <= 10,
    ensures
        out@ == zlib_deflated(data@, level),
{
    compress_to_vec_zlib(data, level)
}

/// Calls `miniz_oxide::inflate::core::decompress` with a fresh decompressor,
/// all of `input`, and `out` as the output buffer to be written from `pos`
/// on. Returns the status and the number of bytes written. The outcome
/// depends on the arguments alone and is only named here; beyond that the
/// contract says that the buffer keeps its length, as any slice does.
#[verifier::external_body]
pub(crate) fn inflate_into(input: &[u8], out: &mut Vec<u8>, pos: usize, flags: u32) -> (r: (
    InflateStatus,
    usize,
))
    ensures
        (r.0, r.1 as nat, final(out)@) == zlib_inflated(input@, old(out)@, pos as nat, flags),
        final(out)@.len() == old(out)@.len(),
{
    let mut state = inflate::core::DecompressorOxide::new();
    let (status, _, written) = inflate::core::decompress(&mut state, input, out, pos, flags);
    let status = match status {
        TINFLStatus::FailedCannotMakeProgress => InflateStatus::FailedCannotMakeProgress,
        TINFLStatus::BadParam => InflateStatus::BadParam,
        TINFLStatus::Adler32Mismatch => InflateStatus::Adler32Mismatch,
        TINFLStatus::Failed => InflateStatus::Failed,
        TINFLStatus::Done => InflateStatus::Done,
        TINFLStatus::NeedsMoreInput => InflateStatus::NeedsMoreInput,
        TINFLStatus::HasMoreOutput => InflateStatus::HasMoreOutput,
    };
    (status, written)
}

/// The verdict on a run of the decompressor that ended with `status` after
/// `written` bytes, on a chunk that should inflate to `expected` bytes.
pub open spec fn spec_check_inflated(status: InflateStatus, written: nat, expected: nat) -> Result<
    (),
    Error,
> {
    if status != InflateStatus::Done {
        Err(Error::Decompression)
    } else if written != expected {
        Err(Error::FormatCorruption)
    } else {
        Ok(())
    }
}

/// What a run of the decompressor means for a chunk that should inflate to
/// `expected` bytes: the buffer it left, or the reason to reject the chunk.
pub open spec fn inflate_outcome(r: (InflateStatus, nat, Seq<u8>), expected: nat) -> Result<
    Seq<u8>,
    Error,
> {
    match spec_check_inflated(r.0, r.1, expected) {
        Ok(_) => Ok(r.2),
        Err(e) => Err(e),
    }
}

/// Judges a run of the decompressor on a chunk that should inflate to
/// `expected` bytes. Anything but a clean end of the stream is
/// [`Error::Decompression`]; a clean end after another number of bytes is
/// [`Error::FormatCorruption`].
pub fn check_inflated(status: InflateStatus, written: usize, expected: usize) -> (r: Result<
    (),
    Error,
>)
    ensures
        r == spec_check_inflated(status, written as nat, expected as nat),
{
    match status {
        InflateStatus::Done => if written == expected {
            Ok(())
        } else {
            Err(Error::FormatCorruption)
        },
        _ => Err(Error::Decompression),
    }
}

} // verus!
