//! The value types shared by every stage of the encoder.

use vstd::prelude::*;

verus! {

/// How the characters of a segment are packed into bits.
#[derive(Clone, Copy, Debug, PartialEq, Eq, Structural)]
pub enum Mode {
    Numeric,
    Alphanumeric,
    Byte,
    Kanji,
}

/// The redundancy tier of a symbol, from weakest (`L`) to strongest (`H`).
#[derive(Clone, Copy, Debug, PartialEq, Eq, Structural)]
pub enum ErrorCorrectionLevel {
    L,
    M,
    Q,
    H,
}

/// How the bytes of a Byte-mode input are read as characters.
#[derive(Clone, Copy, Debug, PartialEq, Eq, Structural)]
pub enum ByteEncoding {
    Utf8,
    Latin1,
}

/// Why an encoding was refused.
#[derive(Clone, Copy, Debug, PartialEq, Eq, Structural)]
pub enum EncodeError {
    /// No permitted mode can represent the input.
    UnsupportedCharacter,
    /// A version outside 1..=40 was requested.
    InvalidVersion,
    /// No permitted version has room for the input.
    DataTooLong,
    /// The padded bit stream does not fill the symbol's data capacity.
    EncoderInvariantViolation,
    /// The data codewords do not match the block structure of the symbol.
    InternalEncodingError,
}

/// The colour of one module of a finished symbol.
#[derive(Clone, Copy, Debug, PartialEq, Eq, Structural)]
pub enum Module {
    Dark,
    Light,
}

impl Mode {
    /// The four-bit mode indicator as a number.
    pub open spec fn spec_indicator(self) -> int {
        match self {
            Mode::Numeric => 1,
            Mode::Alphanumeric => 2,
            Mode::Byte => 4,
            Mode::Kanji => 8,
        }
    }

    /// The four-bit mode indicator that opens a segment of this mode.
    pub fn indicator(self) -> (r: u32)
        ensures
            r == self.spec_indicator(),
    {
        match self {
            Mode::Numeric => 1,
            Mode::Alphanumeric => 2,
            Mode::Byte => 4,
            Mode::Kanji => 8,
        }
    }
}

impl ErrorCorrectionLevel {
    /// The position of the level in the order of increasing redundancy.
    pub open spec fn spec_ordinal(self) -> int {
        match self {
            ErrorCorrectionLevel::L => 0,
            ErrorCorrectionLevel::M => 1,
            ErrorCorrectionLevel::Q => 2,
            ErrorCorrectionLevel::H => 3,
        }
    }

    /// The position of the level in the order of increasing redundancy.
    pub fn ordinal(self) -> (r: usize)
        ensures
            r == self.spec_ordinal(),
    {
        match self {
            ErrorCorrectionLevel::L => 0,
            ErrorCorrectionLevel::M => 1,
            ErrorCorrectionLevel::Q => 2,
            ErrorCorrectionLevel::H => 3,
        }
    }

    /// The two-bit number that stands for the level in the format information.
    pub open spec fn spec_format_bits(self) -> int {
        match self {
            ErrorCorrectionLevel::L => 1,
            ErrorCorrectionLevel::M => 0,
            ErrorCorrectionLevel::Q => 3,
            ErrorCorrectionLevel::H => 2,
        }
    }

    /// The two-bit number that stands for the level in the format information.
    pub fn format_bits(self) -> (r: u32)
        ensures
            r == self.spec_format_bits(),
    {
        match self {
            ErrorCorrectionLevel::L => 1,
            ErrorCorrectionLevel::M => 0,
            ErrorCorrectionLevel::Q => 3,
            ErrorCorrectionLevel::H => 2,
        }
    }
}

} // verus!
