//! Conversion between the versioned `Resrc` container of VOP voice recordings
//! and the sequence of speech-codec frames that it carries.
//!
//! The crate covers the container envelope, its chunked zlib payload codec and
//! the framing of codec frames inside the payload. The speech codec itself and
//! all file handling are left to the caller.
//!
//! Writing goes from codec frames to a payload ([`encoding::mux_frames`]) and
//! from a payload to the bytes of a container
//! ([`resource_write::write_resource`]); [`encoding::encode`] does both.
//! Reading goes from the bytes of a container to a resource
//! ([`resource_parse::Resrc::new`]) and from its payload to frames
//! ([`decoding::decode`]); [`decoding::decode_resource`] does both.
//!
//! Every function is verified against a contract that says exactly what it
//! returns. Two outside crates do work that is not verified: `byteorder`
//! converts big-endian integers ([`endian`]), and `miniz_oxide` compresses
//! and decompresses ([`zlib`]). [`round_trip`] holds what is proved of
//! reading what was written.

pub mod chunked;
pub mod decoding;
pub mod encoding;
pub mod endian;
pub mod error;
pub mod frame;
pub mod resource_parse;
pub mod resource_write;
pub mod round_trip;
pub mod submode;
pub mod varint;
pub mod zlib;
