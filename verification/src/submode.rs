//! The narrowband submodes of the speech codec and the size of their frames.
//!
//! A frame's length is never stored: it follows from the submode that the
//! frame's flags byte names. The table here must agree with the codec's own.

use vstd::prelude::*;

verus! {

/// A bit-rate point of the narrowband codec. Its code is the number stored in
/// the low six bits of a frame's flags byte.
#[derive(Debug, Clone, Copy, PartialEq, Eq, Hash, Structural)]
pub enum Submode {
    VocoderLike,
    ExtremeLow,
    VeryLow,
    Low,
    Medium,
    High,
    VeryHigh,
    ExtremeHigh,
}

/// The mask of the mode code inside a flags byte.
pub const MODE_MASK: u8 = 0x3F;

/// The bit of a flags byte that marks a frame as speech.
pub const SPEECH_FLAG: u8 = 0x80;

/// Bits per frame of the submode with the given mode code (1 to 8).
pub open spec fn bits_of_code(code: int) -> int {
    if code == 1 {
        43
    } else if code == 2 {
        79
    } else if code == 3 {
        119
    } else if code == 4 {
        160
    } else if code == 5 {
        220
    } else if code == 6 {
        300
    } else if code == 7 {
        364
    } else {
        492
    }
}

/// Bytes that one frame of the given mode code occupies: its bits, rounded up.
pub open spec fn bytes_of_code(code: int) -> int {
    (bits_of_code(code) + 7) / 8
}

/// The mode code that a raw six-bit value stands for: itself when it lies in
/// 1..=8, else the nearer end of that range.
pub open spec fn clamp_code(raw: int) -> int {
    if raw < 1 {
        1
    } else if raw > 8 {
        8
    } else {
        raw
    }
}

impl Submode {
    /// The submode's mode code, 1 to 8.
    pub open spec fn spec_code(self) -> int {
        match self {
            Submode::VocoderLike => 1,
            Submode::ExtremeLow => 2,
            Submode::VeryLow => 3,
            Submode::Low => 4,
            Submode::Medium => 5,
            Submode::High => 6,
            Submode::VeryHigh => 7,
            Submode::ExtremeHigh => 8,
        }
    }

    /// The submode with the given mode code; codes outside 1..=8 are clamped.
    pub open spec fn spec_from_code(code: int) -> Submode {
        if code <= 1 {
            Submode::VocoderLike
        } else if code == 2 {
            Submode::ExtremeLow
        } else if code == 3 {
            Submode::VeryLow
        } else if code == 4 {
            Submode::Low
        } else if code == 5 {
            Submode::Medium
        } else if code == 6 {
            Submode::High
        } else if code == 7 {
            Submode::VeryHigh
        } else {
            Submode::ExtremeHigh
        }
    }

    /// Bits per frame.
    pub open spec fn spec_bits(self) -> int {
        bits_of_code(self.spec_code())
    }

    /// Bytes per frame.
    pub open spec fn spec_bytes(self) -> int {
        bytes_of_code(self.spec_code())
    }

    /// The submode's mode code.
    pub fn code(&self) -> (code: u8)
        ensures
            code == self.spec_code(),
            1 <= code <= 8,
    {
        match self {
            Submode::VocoderLike => 1,
            Submode::ExtremeLow => 2,
            Submode::VeryLow => 3,
            Submode::Low => 4,
            Submode::Medium => 5,
            Submode::High => 6,
            Submode::VeryHigh => 7,
            Submode::ExtremeHigh => 8,
        }
    }

    /// The submode named by a mode code. A code below 1 counts as 1 and a code
    /// above 8 as 8, so that the frame-size table is never left.
    pub fn from_code(code: u8) -> (submode: Submode)
        ensures
            submode == Submode::spec_from_code(code as int),
            submode.spec_code() == clamp_code(code as int),
    {
        if code <= 1 {
            Submode::VocoderLike
        } else if code == 2 {
            Submode::ExtremeLow
        } else if code == 3 {
            Submode::VeryLow
        } else if code == 4 {
            Submode::Low
        } else if code == 5 {
            Submode::Medium
        } else if code == 6 {
            Submode::High
        } else if code == 7 {
            Submode::VeryHigh
        } else {
            Submode::ExtremeHigh
        }
    }

    /// The submode that a frame's flags byte names: the low six bits, clamped.
    pub fn from_flags(flags: u8) -> (submode: Submode)
        ensures
            submode == Submode::spec_from_flags(flags),
            submode.spec_code() == clamp_code((flags & MODE_MASK) as int),
    {
        Submode::from_code(flags & MODE_MASK)
    }

    /// The submode that [`Submode::from_flags`] returns.
    pub open spec fn spec_from_flags(flags: u8) -> Submode {
        Submode::spec_from_code((flags & MODE_MASK) as int)
    }

    /// Bytes that one frame of this submode occupies.
    pub fn bytes_per_frame(&self) -> (bytes: usize)
        ensures
            bytes == self.spec_bytes(),
            6 <= bytes <= 62,
    {
        let bits: u16 = submode_bits_per_frame(*self);
        ((bits + 7) / 8) as usize
    }
}

/// Bits per frame of a submode.
pub fn submode_bits_per_frame(submode: Submode) -> (bits: u16)
    ensures
        bits == submode.spec_bits(),
        43 <= bits <= 492,
{
    match submode {
        Submode::VocoderLike => 43,
        Submode::ExtremeLow => 79,
        Submode::VeryLow => 119,
        Submode::Low => 160,
        Submode::Medium => 220,
        Submode::High => 300,
        Submode::VeryHigh => 364,
        Submode::ExtremeHigh => 492,
    }
}

/// A submode and its mode code determine each other.
pub proof fn lemma_code_round_trip(submode: Submode)
    ensures
        Submode::spec_from_code(submode.spec_code()) == submode,
        1 <= submode.spec_code() <= 8,
{
}

/// Clamping: whatever six-bit value a flags byte holds, the submode it names
/// has a mode code in 1..=8; a raw value of 0 names code 1, a raw value of 9
/// or more names code 8, and a value in between names itself.
pub proof fn lemma_mode_code_clamped(flags: u8)
    ensures
        1 <= Submode::spec_from_flags(flags).spec_code() <= 8,
        (flags & MODE_MASK) == 0 ==> Submode::spec_from_flags(flags).spec_code() == 1,
        (flags & MODE_MASK) >= 9 ==> Submode::spec_from_flags(flags).spec_code() == 8,
        1 <= (flags & MODE_MASK) <= 8 ==> Submode::spec_from_flags(flags).spec_code() == (flags
            & MODE_MASK),
{
}

} // verus!
