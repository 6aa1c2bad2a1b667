//! The ways in which a conversion can fail.

use vstd::prelude::*;

verus! {

/// Why a container or payload was rejected. Every failure is final: nothing is
/// retried, and no partial result is handed out.
#[derive(Debug, Clone, Copy, PartialEq, Eq, Hash, Structural)]
pub enum Error {
    /// The stream ended inside a field of fixed width (a tag, an integer, a
    /// flag byte, a chunk table entry, a varint or a frame).
    Io,
    /// A size that the stream declares disagrees with the bytes that are
    /// there, or a frame's length disagrees with the frame-size table.
    FormatCorruption,
    /// The data is well formed but is not something this crate converts: a
    /// resource of another type, a resource without payload, or a payload too
    /// large for the chunk table.
    UnsupportedInput,
    /// A compressed chunk is not a valid zlib stream.
    Decompression,
}

impl Error {
    /// A short description of the failure, for messages.
    pub fn message(&self) -> (text: &'static str)
        ensures
            text@ == self.spec_message()@,
    {
        match self {
            Error::Io => "stream ends before the data is complete",
            Error::FormatCorruption => "declared sizes do not match the data",
            Error::UnsupportedInput => "not a convertible VOP resource",
            Error::Decompression => "compressed chunk is not a valid zlib stream",
        }
    }

    /// The text that [`Error::message`] returns.
    pub open spec fn spec_message(&self) -> &'static str {
        match self {
            Error::Io => "stream ends before the data is complete",
            Error::FormatCorruption => "declared sizes do not match the data",
            Error::UnsupportedInput => "not a convertible VOP resource",
            Error::Decompression => "compressed chunk is not a valid zlib stream",
        }
    }
}

/// The model of a result that holds bytes.
pub open spec fn bytes_result(r: Result<Vec<u8>, Error>) -> Result<Seq<u8>, Error> {
    match r {
        Ok(bytes) => Ok(bytes@),
        Err(e) => Err(e),
    }
}

} // verus!
