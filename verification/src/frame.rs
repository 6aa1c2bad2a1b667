//! The frames of a VOP payload.
//!
//! A frame is one flags byte and the packed bits of one codec time-slice.
//! The flags byte holds the mode code in its low six bits and the speech
//! marker in bit 7; bit 6 is reserved and written as zero. How many bytes of
//! packed bits follow is not stored: it is the frame size of the submode.

use crate::submode::{bytes_of_code, Submode, MODE_MASK, SPEECH_FLAG};
use vstd::prelude::*;

verus! {

/// A frame as the speech codec hands it over for writing.
#[derive(Debug, Clone, PartialEq, Eq, Hash)]
pub struct CodecFrame {
    /// The submode in which the codec encoded the frame.
    pub submode: Submode,
    /// The bytes that the codec wrote.
    pub packed_bits: Vec<u8>,
    /// The number of bits that the codec says it wrote.
    pub bit_length: usize,
}

/// A frame as it is read from a payload.
#[derive(Debug, Clone, PartialEq, Eq, Hash)]
pub struct Frame {
    /// The mode code that the flags name, 1 to 8.
    pub mode_code: u8,
    /// The flags byte as it stands in the payload.
    pub flags: u8,
    /// The packed bits, as many bytes as a frame of the mode code has.
    pub packed_bits: Vec<u8>,
}

/// The model of a [`CodecFrame`].
pub struct CodecFrameView {
    pub submode: Submode,
    pub packed_bits: Seq<u8>,
    pub bit_length: nat,
}

/// The model of a [`Frame`].
pub struct FrameView {
    pub mode_code: u8,
    pub flags: u8,
    pub packed_bits: Seq<u8>,
}

impl View for CodecFrame {
    type V = CodecFrameView;

    open spec fn view(&self) -> CodecFrameView {
        CodecFrameView {
            submode: self.submode,
            packed_bits: self.packed_bits@,
            bit_length: self.bit_length as nat,
        }
    }
}

impl View for Frame {
    type V = FrameView;

    open spec fn view(&self) -> FrameView {
        FrameView { mode_code: self.mode_code, flags: self.flags, packed_bits: self.packed_bits@ }
    }
}

impl FrameView {
    /// A frame as the reader makes it: the mode code is the one that the
    /// flags name, and the packed bits have the length that the mode code
    /// demands.
    pub open spec fn wf(self) -> bool {
        &&& self.mode_code == Submode::spec_from_flags(self.flags).spec_code()
        &&& self.packed_bits.len() == bytes_of_code(self.mode_code as int)
    }
}

impl Frame {
    /// The submode of the frame.
    pub fn submode(&self) -> (submode: Submode)
        ensures
            submode == Submode::spec_from_code(self.mode_code as int),
    {
        Submode::from_code(self.mode_code)
    }

    /// Whether the frame is marked as speech.
    pub fn is_speech(&self) -> (speech: bool)
        ensures
            speech == (self.flags & SPEECH_FLAG != 0),
    {
        self.flags & SPEECH_FLAG != 0
    }
}

/// The models of a sequence of codec frames.
pub open spec fn codec_frames_view(frames: Seq<CodecFrame>) -> Seq<CodecFrameView> {
    frames.map_values(|f: CodecFrame| f@)
}

/// The models of a sequence of frames.
pub open spec fn frames_view(frames: Seq<Frame>) -> Seq<FrameView> {
    frames.map_values(|f: Frame| f@)
}

/// Whether a frame of the given submode is marked as speech: every frame
/// when voice activity detection is off, and the frames of the
/// highest-quality submode alone when it is on.
pub open spec fn marked_as_speech(submode: Submode, vad: bool) -> bool {
    !vad || submode == Submode::ExtremeHigh
}

/// The flags byte written for a frame of the given submode: the mode code in
/// the low six bits, the speech marker in bit 7, and bit 6 left zero.
pub open spec fn flags_of(submode: Submode, vad: bool) -> u8 {
    if marked_as_speech(submode, vad) {
        (submode.spec_code() as u8) | SPEECH_FLAG
    } else {
        submode.spec_code() as u8
    }
}

/// Makes the flags byte of a frame.
pub fn make_flags(submode: Submode, vad: bool) -> (flags: u8)
    ensures
        flags == flags_of(submode, vad),
        flags & MODE_MASK == submode.spec_code(),
        flags & 0x40 == 0,
        (flags & SPEECH_FLAG != 0) == marked_as_speech(submode, vad),
        Submode::spec_from_flags(flags) == submode,
{
    let code: u8 = submode.code();
    let mut flags: u8 = code;
    if vad {
        if submode == Submode::ExtremeHigh {
            flags = flags | SPEECH_FLAG;
        }
    } else {
        flags = flags | SPEECH_FLAG;
    }
    proof {
        lemma_flags_bits(code);
    }
    flags
}

/// The bits of a flags byte made from a mode code, with and without the
/// speech marker.
pub proof fn lemma_flags_bits(code: u8)
    requires
        1 <= code <= 8,
    ensures
        (code | 0x80) & 0x3F == code,
        (code | 0x80) & 0x40 == 0,
        (code | 0x80) & 0x80 == 0x80,
        code & 0x3F == code,
        code & 0x40 == 0,
        code & 0x80 == 0,
{
    assert((code | 0x80) & 0x3F == code && (code | 0x80) & 0x40 == 0 && (code | 0x80) & 0x80 == 0x80
        && code & 0x3F == code && code & 0x40 == 0 && code & 0x80 == 0) by (bit_vector)
        requires
            1 <= code <= 8,
    ;
}

/// The flags written for a submode name that submode again, whether or not
/// the speech marker is set.
pub proof fn lemma_flags_name_submode(submode: Submode, vad: bool)
    ensures
        Submode::spec_from_flags(flags_of(submode, vad)) == submode,
        flags_of(submode, vad) & 0x40 == 0,
        (flags_of(submode, vad) & SPEECH_FLAG != 0) == marked_as_speech(submode, vad),
{
    lemma_flags_bits(submode.spec_code() as u8);
}

} // verus!
