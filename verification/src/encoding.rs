//! Writing codec frames into a payload, and the payload into a container.

use crate::error::{bytes_result, Error};
use crate::frame::{codec_frames_view, flags_of, make_flags, CodecFrame, CodecFrameView};
use crate::resource_parse::ResrcRevision;
use crate::resource_write::{spec_write_resource, write_resource};
use crate::varint::{encode_varint, varint_bytes};
use vstd::prelude::*;

verus! {

/// Whether a frame from the codec has the size that the frame-size table
/// gives for its submode: the bits it is said to have, rounded up to bytes,
/// and the bytes it holds.
pub open spec fn frame_fits(frame: CodecFrameView) -> bool {
    &&& (frame.bit_length + 7) / 8 == frame.submode.spec_bytes()
    &&& frame.packed_bits.len() == frame.submode.spec_bytes()
}

/// The bytes of one frame in a payload: the flags, then the packed bits.
pub open spec fn frame_bytes(frame: CodecFrameView, vad: bool) -> Seq<u8> {
    seq![flags_of(frame.submode, vad)] + frame.packed_bits
}

/// The bytes of the given frames, one after the other.
pub open spec fn frames_bytes(frames: Seq<CodecFrameView>, vad: bool) -> Seq<u8>
    decreases frames.len(),
{
    if frames.len() == 0 {
        Seq::empty()
    } else {
        frames_bytes(frames.drop_last(), vad) + frame_bytes(frames.last(), vad)
    }
}

/// The payload that holds the given frames: a varint with the number of
/// bytes that follow it, then the frames.
pub open spec fn payload_bytes(frames: Seq<CodecFrameView>, vad: bool) -> Seq<u8> {
    let body = frames_bytes(frames, vad);
    varint_bytes(body.len()) + body
}

/// What [`mux_frames`] returns.
pub open spec fn spec_mux_frames(frames: Seq<CodecFrameView>, vad: bool) -> Result<Seq<u8>, Error> {
    if forall|i: int| 0 <= i < frames.len() ==> frame_fits(#[trigger] frames[i]) {
        Ok(payload_bytes(frames, vad))
    } else {
        Err(Error::FormatCorruption)
    }
}

/// What [`encode`] returns.
pub open spec fn spec_encode(frames: Seq<CodecFrameView>, vad: bool, revision: ResrcRevision) -> Result<
    Seq<u8>,
    Error,
> {
    match spec_mux_frames(frames, vad) {
        Err(e) => Err(e),
        Ok(payload) => spec_write_resource(payload, revision),
    }
}

/// Appends the bytes of `src` to `out`.
pub(crate) fn push_bytes(out: &mut Vec<u8>, src: &[u8])
    ensures
        final(out)@ == old(out)@ + src@,
{
    let mut j: usize = 0;
    while j < src.len()
        invariant
            j <= src@.len(),
            out@ == old(out)@ + src@.take(j as int),
        decreases src@.len() - j,
    {
        out.push(src[j]);
        j = j + 1;
        assert(out@ =~= old(out)@ + src@.take(j as int));
    }
    assert(src@.take(src@.len() as int) =~= src@);
}

/// Writes codec frames into a payload.
///
/// Each frame is written as its flags byte and its packed bits; the whole is
/// headed by a varint that gives the number of bytes behind it. `vad` says
/// whether the codec ran with voice activity detection.
///
/// The frame-size table decides how long a frame is. Fails with
/// [`Error::FormatCorruption`] when a frame from the codec has another size,
/// in the bits it reports or in the bytes it holds.
pub fn mux_frames(frames: &Vec<CodecFrame>, vad: bool) -> (r: Result<Vec<u8>, Error>)
    ensures
        bytes_result(r) == spec_mux_frames(codec_frames_view(frames@), vad),
{
    let ghost views = codec_frames_view(frames@);
    let mut data: Vec<u8> = Vec::new();
    let mut i: usize = 0;
    proof {
        assert(views.take(0) =~= Seq::<CodecFrameView>::empty());
    }
    while i < frames.len()
        invariant
            i <= frames@.len(),
            views == codec_frames_view(frames@),
            forall|j: int| 0 <= j < i ==> frame_fits(#[trigger] views[j]),
            data@ == frames_bytes(views.take(i as int), vad),
        decreases frames@.len() - i,
    {
        let frame = &frames[i];
        assert(views[i as int] == frame@);
        let bytes: usize = frame.submode.bytes_per_frame();
        let byte_length: usize = if frame.bit_length % 8 != 0 {
            frame.bit_length / 8 + 1
        } else {
            frame.bit_length / 8
        };
        if byte_length != bytes || frame.packed_bits.len() != bytes {
            assert(!frame_fits(views[i as int]));
            return Err(Error::FormatCorruption);
        }
        data.push(make_flags(frame.submode, vad));
        push_bytes(&mut data, frame.packed_bits.as_slice());
        proof {
            assert(views.take(i + 1).drop_last() =~= views.take(i as int));
            assert(data@ =~= frames_bytes(views.take(i as int), vad) + frame_bytes(frame@, vad));
        }
        i = i + 1;
    }
    proof {
        assert(views.take(frames@.len() as int) =~= views);
    }
    let mut out: Vec<u8> = encode_varint(data.len() as u64);
    out.append(&mut data);
    Ok(out)
}

/// Writes codec frames into the bytes of a VOP container of the given
/// revision: the frames go into a payload as [`mux_frames`] says, and the
/// payload into a container as [`write_resource`] says.
pub fn encode(frames: &Vec<CodecFrame>, vad: bool, revision: ResrcRevision) -> (r: Result<
    Vec<u8>,
    Error,
>)
    ensures
        bytes_result(r) == spec_encode(codec_frames_view(frames@), vad, revision),
{
    match mux_frames(frames, vad) {
        Err(e) => Err(e),
        Ok(payload) => write_resource(payload, revision),
    }
}

} // verus!
