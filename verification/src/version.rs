//! The version selector: the exact bit budget of a segment and the smallest
//! version that holds it.

use vstd::prelude::*;
use vstd::arithmetic::power2::pow2;
use vstd::arithmetic::power2::lemma2_to64;
use crate::types::Mode;
use crate::types::ErrorCorrectionLevel;
use crate::types::EncodeError;
use crate::tables::valid_version;
use crate::tables::spec_data_codewords;
use crate::tables::data_codewords;
use crate::tables::lemma_block_structure;
use crate::tables::spec_published_capacity;

verus! {

/// The width in bits of the character-count indicator, which grows with
/// the version tier (1 to 9, 10 to 26, 27 to 40).
pub open spec fn spec_count_bits(mode: Mode, v: int) -> int {
    match mode {
        Mode::Numeric => if v <= 9 {
            10
        } else if v <= 26 {
            12
        } else {
            14
        },
        Mode::Alphanumeric => if v <= 9 {
            9
        } else if v <= 26 {
            11
        } else {
            13
        },
        Mode::Byte => if v <= 9 {
            8
        } else {
            16
        },
        Mode::Kanji => if v <= 9 {
            8
        } else if v <= 26 {
            10
        } else {
            12
        },
    }
}

/// The number of payload bits that `len` characters take in `mode`.
pub open spec fn spec_payload_bits(mode: Mode, len: int) -> int {
    match mode {
        Mode::Numeric => 10 * (len / 3) + (if len % 3 == 1 {
            4
        } else if len % 3 == 2 {
            7
        } else {
            0int
        }),
        Mode::Alphanumeric => 11 * (len / 2) + 6 * (len % 2),
        Mode::Byte => 8 * len,
        Mode::Kanji => 13 * len,
    }
}

/// The bits of a whole segment: mode indicator, character count, payload.
pub open spec fn spec_segment_bits(mode: Mode, len: int, v: int) -> int {
    4 + spec_count_bits(mode, v) + spec_payload_bits(mode, len)
}

/// Whether a segment of `len` characters fits a symbol of version `v`: the
/// count fits its indicator and the segment's bits fit the data codewords.
pub open spec fn spec_fits(mode: Mode, len: int, ecl: ErrorCorrectionLevel, v: int) -> bool {
    len < pow2(spec_count_bits(mode, v) as nat) && spec_segment_bits(mode, len, v) <= 8
        * spec_data_codewords(ecl, v)
}

/// The first version from `v` up that the segment fits, if there is one.
pub open spec fn spec_version_from(mode: Mode, len: int, ecl: ErrorCorrectionLevel, v: int) -> Option<
    int,
>
    decreases 41 - v,
{
    if v > 40 {
        None
    } else if spec_fits(mode, len, ecl, v) {
        Some(v)
    } else {
        spec_version_from(mode, len, ecl, v + 1)
    }
}

/// The smallest version that the segment fits, if there is one.
pub open spec fn spec_select_version(mode: Mode, len: int, ecl: ErrorCorrectionLevel) -> Option<int> {
    spec_version_from(mode, len, ecl, 1)
}

/// The width in bits of the character-count indicator.
pub fn count_bits(mode: Mode, version: u32) -> (r: u32)
    ensures
        r == spec_count_bits(mode, version as int),
        8 <= r <= 16,
{
    match mode {
        Mode::Numeric => if version <= 9 {
            10
        } else if version <= 26 {
            12
        } else {
            14
        },
        Mode::Alphanumeric => if version <= 9 {
            9
        } else if version <= 26 {
            11
        } else {
            13
        },
        Mode::Byte => if version <= 9 {
            8
        } else {
            16
        },
        Mode::Kanji => if version <= 9 {
            8
        } else if version <= 26 {
            10
        } else {
            12
        },
    }
}

/// The first count that no longer fits the character-count indicator.
pub fn count_limit(mode: Mode, version: u32) -> (r: usize)
    ensures
        r == pow2(spec_count_bits(mode, version as int) as nat),
        256 <= r <= 65536,
{
    proof {
        lemma2_to64();
    }
    match count_bits(mode, version) {
        8 => 256,
        9 => 512,
        10 => 1024,
        11 => 2048,
        12 => 4096,
        13 => 8192,
        14 => 16384,
        _ => 65536,
    }
}

/// The number of payload bits that `len` characters take in `mode`.
pub fn payload_bits(mode: Mode, len: usize) -> (r: usize)
    requires
        13 * len <= usize::MAX,
    ensures
        r == spec_payload_bits(mode, len as int),
        r <= 13 * len,
{
    match mode {
        Mode::Numeric => {
            let rem = len % 3;
            10 * (len / 3) + (if rem == 1 {
                4
            } else if rem == 2 {
                7
            } else {
                0
            })
        },
        Mode::Alphanumeric => 11 * (len / 2) + 6 * (len % 2),
        Mode::Byte => 8 * len,
        Mode::Kanji => 13 * len,
    }
}

/// Whether a segment of `len` characters in `mode` fits version `version`
/// at level `ecl`.
pub fn fits_version(mode: Mode, len: usize, ecl: ErrorCorrectionLevel, version: u32) -> (r: bool)
    requires
        valid_version(version as int),
    ensures
        r == spec_fits(mode, len as int, ecl, version as int),
{
    if len >= count_limit(mode, version) {
        return false;
    }
    let need = 4 + count_bits(mode, version) as usize + payload_bits(mode, len);
    let have = 8 * data_codewords(ecl, version) as usize;
    need <= have
}

/// The smallest version in 1..=40 that holds `input_length` characters of
/// `mode` at level `ecl`, by exact bit accounting; `DataTooLong` exactly
/// when no version does.
pub fn get_qr_version(input_length: usize, mode: Mode, ecl: ErrorCorrectionLevel) -> (r: Result<
    u32,
    EncodeError,
>)
    ensures
        match r {
            Ok(v) => valid_version(v as int) && spec_fits(mode, input_length as int, ecl, v as int)
                && forall|w: int| 1 <= w < v ==> !spec_fits(mode, input_length as int, ecl, w),
            Err(e) => e == EncodeError::DataTooLong && forall|w: int|
                valid_version(w) ==> !spec_fits(mode, input_length as int, ecl, w),
        },
        match spec_select_version(mode, input_length as int, ecl) {
            Some(v) => r == Ok::<u32, EncodeError>(v as u32),
            None => r == Err::<u32, EncodeError>(EncodeError::DataTooLong),
        },
{
    let mut v: u32 = 1;
    while v <= 40
        invariant
            1 <= v <= 41,
            forall|w: int| 1 <= w < v ==> !spec_fits(mode, input_length as int, ecl, w),
            spec_select_version(mode, input_length as int, ecl) == spec_version_from(
                mode,
                input_length as int,
                ecl,
                v as int,
            ),
        decreases 41 - v,
    {
        if fits_version(mode, input_length, ecl, v) {
            return Ok(v);
        }
        v += 1;
    }
    Err(EncodeError::DataTooLong)
}

/// More characters never take fewer payload bits.
pub proof fn lemma_payload_monotonic(mode: Mode, a: int, b: int)
    requires
        0 <= a <= b,
    ensures
        spec_payload_bits(mode, a) <= spec_payload_bits(mode, b),
{
}

/// A version that holds a segment also holds every shorter one of the mode.
pub proof fn lemma_fits_shorter(mode: Mode, a: int, b: int, ecl: ErrorCorrectionLevel, v: int)
    requires
        0 <= a <= b,
        spec_fits(mode, b, ecl, v),
    ensures
        spec_fits(mode, a, ecl, v),
{
    lemma_payload_monotonic(mode, a, b);
}

/// The selected version is the smallest that fits: it fits, and no version
/// below it does; and none is selected only where none fits.
pub proof fn lemma_select_version_minimal(mode: Mode, len: int, ecl: ErrorCorrectionLevel, from: int)
    requires
        1 <= from <= 41,
    ensures
        match spec_version_from(mode, len, ecl, from) {
            Some(v) => from <= v <= 40 && spec_fits(mode, len, ecl, v) && forall|w: int|
                from <= w < v ==> !spec_fits(mode, len, ecl, w),
            None => forall|w: int| from <= w <= 40 ==> !spec_fits(mode, len, ecl, w),
        },
    decreases 41 - from,
{
    if from <= 40 && !spec_fits(mode, len, ecl, from) {
        lemma_select_version_minimal(mode, len, ecl, from + 1);
    }
}

/// Version selection is monotonic: a longer input of the same mode and
/// level never selects a smaller version, and where the longer input has
/// a version the shorter has one too.
pub proof fn lemma_version_monotonic(mode: Mode, a: int, b: int, ecl: ErrorCorrectionLevel)
    requires
        0 <= a <= b,
    ensures
        match spec_select_version(mode, b, ecl) {
            Some(vb) => match spec_select_version(mode, a, ecl) {
                Some(va) => va <= vb,
                None => false,
            },
            None => true,
        },
{
    lemma_select_version_minimal(mode, a, ecl, 1);
    lemma_select_version_minimal(mode, b, ecl, 1);
    match spec_select_version(mode, b, ecl) {
        Some(vb) => {
            lemma_fits_shorter(mode, a, b, ecl, vb);
        },
        None => {},
    }
}

/// The largest number of characters of `mode` that a symbol of version
/// `v` holds at level `ecl`: what the data bits left by the segment header
/// can carry, and no more than the count indicator can express.
pub open spec fn spec_mode_capacity(mode: Mode, ecl: ErrorCorrectionLevel, v: int) -> int {
    let bits = 8 * spec_data_codewords(ecl, v) - 4 - spec_count_bits(mode, v);
    let by_bits = match mode {
        Mode::Numeric => 3 * (bits / 10) + (if bits % 10 >= 7 {
            2
        } else if bits % 10 >= 4 {
            1
        } else {
            0int
        }),
        Mode::Alphanumeric => 2 * (bits / 11) + (if bits % 11 >= 6 {
            1
        } else {
            0int
        }),
        Mode::Byte => bits / 8,
        Mode::Kanji => bits / 13,
    };
    let by_count = pow2(spec_count_bits(mode, v) as nat) - 1;
    if by_bits <= by_count {
        by_bits
    } else {
        by_count
    }
}

/// A segment fits a version exactly when its character count is within
/// the capacity of the version for its mode.
pub proof fn lemma_mode_capacity(mode: Mode, len: int, ecl: ErrorCorrectionLevel, v: int)
    requires
        valid_version(v),
        0 <= len,
    ensures
        spec_fits(mode, len, ecl, v) <==> len <= spec_mode_capacity(mode, ecl, v),
        0 <= spec_mode_capacity(mode, ecl, v) < 65536,
{
    lemma_block_structure(ecl, v);
    lemma2_to64();
}

/// The largest number of characters of `mode` that a symbol of `version`
/// holds at level `ecl`; `InvalidVersion` exactly when `version` is
/// outside 1..=40.
pub fn mode_capacity(mode: Mode, version: u32, ecl: ErrorCorrectionLevel) -> (r: Result<
    u32,
    EncodeError,
>)
    ensures
        valid_version(version as int) ==> r == Ok::<u32, EncodeError>(
            spec_mode_capacity(mode, ecl, version as int) as u32,
        ),
        !valid_version(version as int) ==> r == Err::<u32, EncodeError>(EncodeError::InvalidVersion),
{
    if version < 1 || version > 40 {
        return Err(EncodeError::InvalidVersion);
    }
    proof {
        lemma_mode_capacity(mode, 0, ecl, version as int);
    }
    let bits: u32 = 8 * data_codewords(ecl, version) - 4 - count_bits(mode, version);
    let by_bits: u32 = match mode {
        Mode::Numeric => 3 * (bits / 10) + (if bits % 10 >= 7 {
            2
        } else if bits % 10 >= 4 {
            1
        } else {
            0
        }),
        Mode::Alphanumeric => 2 * (bits / 11) + (if bits % 11 >= 6 {
            1
        } else {
            0
        }),
        Mode::Byte => bits / 8,
        Mode::Kanji => bits / 13,
    };
    let by_count: u32 = (count_limit(mode, version) - 1) as u32;
    if by_bits <= by_count {
        Ok(by_bits)
    } else {
        Ok(by_count)
    }
}

/// A segment that fits some version fits version 40 as well.
pub proof fn lemma_fits_largest(mode: Mode, len: int, ecl: ErrorCorrectionLevel, v: int)
    requires
        valid_version(v),
        0 <= len,
        spec_fits(mode, len, ecl, v),
    ensures
        spec_fits(mode, len, ecl, 40),
{
    lemma_block_structure(ecl, v);
    lemma_block_structure(ecl, 40);
    lemma2_to64();
    if v < 40 {
        assert(spec_published_capacity(ecl, v) < spec_published_capacity(ecl, 40));
    }
}

/// A version is found exactly when the input is within the capacity of
/// version 40: one character more than that capacity is too long.
pub proof fn lemma_selection_succeeds(mode: Mode, len: int, ecl: ErrorCorrectionLevel)
    requires
        0 <= len,
    ensures
        spec_select_version(mode, len, ecl).is_some() <==> len <= spec_mode_capacity(mode, ecl, 40),
{
    lemma_select_version_minimal(mode, len, ecl, 1);
    lemma_mode_capacity(mode, len, ecl, 40);
    match spec_select_version(mode, len, ecl) {
        Some(v) => {
            lemma_fits_largest(mode, len, ecl, v);
        },
        None => {},
    }
}

} // verus!
