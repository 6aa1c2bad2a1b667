//! Reading the frames of a payload.

use crate::error::{bytes_result, Error};
use crate::frame::{frames_view, Frame, FrameView};
use crate::resource_parse::{parse_resource, Resrc, ResrcMethod, ResrcMethodView, ResrcView};
use crate::resource_write::vop_type;
use crate::submode::{bytes_of_code, Submode};
use crate::varint::{decode_varint, varint_parse};
use vstd::prelude::*;
use vstd::slice::{slice_subrange, slice_to_vec};

verus! {

/// The frame at the start of `bytes`, or `None` when the bytes end inside
/// it. The flags byte names the submode, and the submode the length.
pub open spec fn parse_frame(bytes: Seq<u8>) -> Option<FrameView> {
    if bytes.len() == 0 {
        None
    } else {
        let flags = bytes[0];
        let mode_code = Submode::spec_from_flags(flags).spec_code();
        let len = bytes_of_code(mode_code);
        if bytes.len() < 1 + len {
            None
        } else {
            Some(FrameView { mode_code: mode_code as u8, flags, packed_bits: bytes.subrange(1, 1 + len) })
        }
    }
}

/// The frames that fill `bytes` from the first byte to the last.
pub open spec fn parse_frames(bytes: Seq<u8>) -> Result<Seq<FrameView>, Error>
    decreases bytes.len(),
{
    if bytes.len() == 0 {
        Ok(Seq::empty())
    } else {
        match parse_frame(bytes) {
            None => Err(Error::Io),
            Some(frame) => match parse_frames(bytes.skip(1 + frame.packed_bits.len() as int)) {
                Err(e) => Err(e),
                Ok(rest) => Ok(seq![frame] + rest),
            },
        }
    }
}

/// The frames of a payload: the varint at its start must give the number of
/// bytes behind it, and those bytes are frames.
pub open spec fn parse_payload(data: Seq<u8>) -> Result<Seq<FrameView>, Error> {
    match varint_parse(data) {
        None => Err(Error::Io),
        Some((size, used)) => if used + size != data.len() {
            Err(Error::FormatCorruption)
        } else {
            parse_frames(data.skip(used as int))
        },
    }
}

/// The model of a result that holds frames.
pub open spec fn frames_result(r: Result<Vec<Frame>, Error>) -> Result<Seq<FrameView>, Error> {
    match r {
        Ok(frames) => Ok(frames_view(frames@)),
        Err(e) => Err(e),
    }
}

/// `rest` with `prefix` put before the frames it holds.
pub open spec fn prepend(prefix: Seq<FrameView>, rest: Result<Seq<FrameView>, Error>) -> Result<
    Seq<FrameView>,
    Error,
> {
    match rest {
        Ok(frames) => Ok(prefix + frames),
        Err(e) => Err(e),
    }
}

/// Reads the frames of a payload.
///
/// The varint at the start must give exactly the number of bytes that
/// follow it. Each frame's mode code is the low six bits of its flags byte,
/// clamped to 1..=8; the frame-size table gives the frame's length. The
/// other bits of the flags are kept as they are and change nothing.
///
/// Fails with [`Error::Io`] when the payload ends inside the varint or
/// inside a frame, and with [`Error::FormatCorruption`] when the varint does
/// not give the number of bytes behind it.
pub fn decode(data: Vec<u8>) -> (r: Result<Vec<Frame>, Error>)
    ensures
        frames_result(r) == parse_payload(data@),
        r matches Ok(frames) ==> forall|i: int| 0 <= i < frames@.len() ==> (#[trigger] frames@[i])@.wf(),
{
    let bytes = data.as_slice();
    let (size, used) = match decode_varint(bytes) {
        Ok(parsed) => parsed,
        Err(e) => {
            return Err(e);
        },
    };
    proof {
        lemma_varint_within(bytes@);
    }
    if size != (bytes.len() - used) as u64 {
        return Err(Error::FormatCorruption);
    }
    let mut frames: Vec<Frame> = Vec::new();
    let mut pos: usize = used;
    proof {
        assert(frames_view(frames@) =~= Seq::<FrameView>::empty());
        assert(Seq::<FrameView>::empty() + parse_frames(bytes@.skip(used as int))->Ok_0
            =~= parse_frames(bytes@.skip(used as int))->Ok_0);
    }
    while pos < bytes.len()
        invariant
            pos <= bytes@.len(),
            bytes@ == data@,
            prepend(frames_view(frames@), parse_frames(bytes@.skip(pos as int))) == parse_payload(
                data@,
            ),
            forall|i: int| 0 <= i < frames@.len() ==> (#[trigger] frames@[i])@.wf(),
        decreases bytes@.len() - pos,
    {
        let ghost tail = bytes@.skip(pos as int);
        let flags: u8 = bytes[pos];
        let submode = Submode::from_flags(flags);
        let len: usize = submode.bytes_per_frame();
        assert(tail[0] == flags);
        if bytes.len() - pos - 1 < len {
            return Err(Error::Io);
        }
        let packed_bits = slice_to_vec(slice_subrange(bytes, pos + 1, pos + 1 + len));
        let frame = Frame { mode_code: submode.code(), flags, packed_bits };
        proof {
            assert(tail.subrange(1, 1 + len) =~= frame.packed_bits@);
            assert(parse_frame(tail) == Some(frame@));
            assert(tail.skip(1 + len) =~= bytes@.skip(pos + 1 + len));
            let before = frames_view(frames@);
            assert(frames_view(frames@.push(frame)) =~= before.push(frame@));
            match parse_frames(bytes@.skip(pos + 1 + len)) {
                Err(_) => {},
                Ok(rest) => {
                    assert(before.push(frame@) + rest =~= before + (seq![frame@] + rest));
                },
            }
        }
        frames.push(frame);
        pos = pos + 1 + len;
    }
    proof {
        assert(frames_view(frames@) + Seq::<FrameView>::empty() =~= frames_view(frames@));
    }
    Ok(frames)
}

/// A varint takes at least one byte and no more bytes than there are.
pub proof fn lemma_varint_within(bytes: Seq<u8>)
    ensures
        varint_parse(bytes) matches Some((_, used)) ==> 1 <= used <= bytes.len(),
    decreases bytes.len(),
{
    if bytes.len() > 0 && bytes[0] >= 128 {
        lemma_varint_within(bytes.skip(1));
    }
}

/// The payload of a resource that can be converted: a binary resource
/// whose type is `VOP`.
pub open spec fn spec_vop_payload(resrc: ResrcView) -> Result<Seq<u8>, Error> {
    match resrc.method {
        ResrcMethodView::Binary { resrc_type, data, .. } => if resrc_type == vop_type() {
            Ok(data)
        } else {
            Err(Error::UnsupportedInput)
        },
        ResrcMethodView::Null => Err(Error::UnsupportedInput),
    }
}

/// The frames that a container file holds.
pub open spec fn spec_decode_resource(bytes: Seq<u8>) -> Result<Seq<FrameView>, Error> {
    match parse_resource(bytes) {
        Err(e) => Err(e),
        Ok(resrc) => match spec_vop_payload(resrc) {
            Err(e) => Err(e),
            Ok(payload) => parse_payload(payload),
        },
    }
}

/// Takes the payload out of a resource that is to be converted.
///
/// Fails with [`Error::UnsupportedInput`] when the resource has no payload
/// or is of another type than `VOP`.
pub fn vop_payload(resrc: Resrc) -> (r: Result<Vec<u8>, Error>)
    ensures
        bytes_result(r) == spec_vop_payload(resrc@),
{
    match resrc.method {
        ResrcMethod::Binary { resrc_type, revision: _, is_encrypted: _, data } => {
            if resrc_type[0] == 0x56 && resrc_type[1] == 0x4F && resrc_type[2] == 0x50 {
                assert(resrc_type@ =~= vop_type());
                Ok(data)
            } else {
                Err(Error::UnsupportedInput)
            }
        },
        ResrcMethod::Null => Err(Error::UnsupportedInput),
    }
}

/// Reads the frames out of the bytes of a container file: the container is
/// decoded, its payload taken if it is a VOP recording, and the payload
/// split into frames.
pub fn decode_resource(bytes: &[u8]) -> (r: Result<Vec<Frame>, Error>)
    ensures
        frames_result(r) == spec_decode_resource(bytes@),
{
    let resrc = match Resrc::new(bytes) {
        Ok(resrc) => resrc,
        Err(e) => {
            return Err(e);
        },
    };
    match vop_payload(resrc) {
        Err(e) => Err(e),
        Ok(payload) => decode(payload),
    }
}

} // verus!
