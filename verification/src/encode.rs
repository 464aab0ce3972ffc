//! The encoder from input bytes to a finished symbol: mode, version,
//! codewords, error correction, and the choice of the mask.

use vstd::prelude::*;
use crate::types::Mode;
use crate::types::ByteEncoding;
use crate::types::ErrorCorrectionLevel;
use crate::types::EncodeError;
use crate::tables::valid_version;
use crate::tables::spec_side_length;
use crate::layout::spec_step_count;
use crate::layout::spec_data_modules_before;
use crate::tables::spec_data_codewords;
use crate::tables::spec_total_codewords;
use crate::tables::total_codewords;
use crate::mode::mode_accepts;
use crate::mode::mode_accepts_data;
use crate::mode::spec_classify;
use crate::mode::get_qr_mode;
use crate::mode::spec_char_count;
use crate::mode::char_count;
use crate::version::spec_count_bits;
use crate::version::spec_fits;
use crate::version::spec_select_version;
use crate::version::fits_version;
use crate::version::get_qr_version;
use crate::version::lemma_select_version_minimal;
use crate::bits::bits_of;
use crate::bits::spec_padded_codewords;
use crate::segment::Segment;
use crate::segment::spec_payload;
use crate::segment::spec_segment_stream;
use crate::segment::spec_segments_stream;
use crate::segment::encode_segments;
use crate::segment::segments_fit;
use crate::ecc::spec_interleave;
use crate::ecc::add_error_correction;
use crate::matrix::Matrix;
use crate::matrix::spec_symbol_grid;
use crate::matrix::data_index_table;
use crate::matrix::build_matrix_from_table;
use crate::penalty::spec_penalty;
use crate::penalty::penalty_score;

verus! {

/// What a caller may fix in advance.
#[derive(Clone, Copy, Debug)]
pub struct EncodeConfig {
    /// The version to use in place of the smallest that fits.
    pub forced_version: Option<u32>,
    /// The mode to use in place of the narrowest that represents the input.
    pub forced_mode: Option<Mode>,
    /// How Byte mode reads the input.
    pub byte_encoding: ByteEncoding,
    /// Whether the classifier may choose Kanji mode.
    pub allow_kanji: bool,
}

impl EncodeConfig {
    /// Nothing forced, UTF-8 bytes, no Kanji.
    pub fn new() -> (c: EncodeConfig)
        ensures
            c.forced_version.is_none(),
            c.forced_mode.is_none(),
            c.byte_encoding == ByteEncoding::Utf8,
            !c.allow_kanji,
    {
        EncodeConfig {
            forced_version: None,
            forced_mode: None,
            byte_encoding: ByteEncoding::Utf8,
            allow_kanji: false,
        }
    }
}

/// The penalty score of the symbol of `codewords` under mask `mask`.
pub open spec fn spec_mask_penalty(
    codewords: Seq<u8>,
    v: int,
    ecl: ErrorCorrectionLevel,
    mask: u8,
) -> int {
    spec_penalty(spec_symbol_grid(codewords, v, ecl, mask))
}

/// The best of the first `n` masks: the lowest penalty, and among equal
/// penalties the lowest index.
pub open spec fn spec_best_mask_among(
    codewords: Seq<u8>,
    v: int,
    ecl: ErrorCorrectionLevel,
    n: int,
) -> u8
    decreases n,
{
    if n <= 1 {
        0
    } else {
        let best = spec_best_mask_among(codewords, v, ecl, n - 1);
        if spec_mask_penalty(codewords, v, ecl, (n - 1) as u8) < spec_mask_penalty(
            codewords,
            v,
            ecl,
            best,
        ) {
            (n - 1) as u8
        } else {
            best
        }
    }
}

/// The mask of a symbol: the best of the eight.
pub open spec fn spec_best_mask(codewords: Seq<u8>, v: int, ecl: ErrorCorrectionLevel) -> u8 {
    spec_best_mask_among(codewords, v, ecl, 8)
}

/// The best of the first `n` masks is one of them, no mask among them has
/// a lower penalty, and every mask before it has a higher one.
pub proof fn lemma_best_mask(codewords: Seq<u8>, v: int, ecl: ErrorCorrectionLevel, n: int)
    requires
        1 <= n <= 8,
    ensures
        spec_best_mask_among(codewords, v, ecl, n) < n,
        forall|k: u8|
            k < n ==> spec_mask_penalty(codewords, v, ecl, spec_best_mask_among(codewords, v, ecl, n))
                <= #[trigger] spec_mask_penalty(codewords, v, ecl, k),
        forall|k: u8|
            k < spec_best_mask_among(codewords, v, ecl, n) ==> spec_mask_penalty(
                codewords,
                v,
                ecl,
                spec_best_mask_among(codewords, v, ecl, n),
            ) < #[trigger] spec_mask_penalty(codewords, v, ecl, k),
    decreases n,
{
    if n > 1 {
        lemma_best_mask(codewords, v, ecl, n - 1);
    }
}

/// The symbol of `codewords` under the best of the eight masks, with the
/// mask: the one of lowest penalty, the lowest index among equals.
/// `InvalidVersion` exactly when `version` is outside 1..=40;
/// `InternalEncodingError` exactly when the version is valid and the
/// number of codewords is not that of the version.
pub fn build_symbol(codewords: &Vec<u8>, version: u32, ecl: ErrorCorrectionLevel) -> (r: Result<
    (Matrix, u8),
    EncodeError,
>)
    ensures
        match r {
            Ok((m, mask)) => valid_version(version as int) && codewords@.len()
                == spec_total_codewords(version as int) && mask == spec_best_mask(
                codewords@,
                version as int,
                ecl,
            ) && m.spec_version() == version && m.grid() == spec_symbol_grid(
                codewords@,
                version as int,
                ecl,
                mask,
            ),
            Err(e) => if !valid_version(version as int) {
                e == EncodeError::InvalidVersion
            } else {
                e == EncodeError::InternalEncodingError && codewords@.len() != spec_total_codewords(
                    version as int,
                )
            },
        },
{
    if version < 1 || version > 40 {
        return Err(EncodeError::InvalidVersion);
    }
    if codewords.len() != total_codewords(version) as usize {
        return Err(EncodeError::InternalEncodingError);
    }
    let table = data_index_table(version);
    let mut best = build_matrix_from_table(codewords, version, ecl, 0, &table);
    let mut best_mask: u8 = 0;
    let mut best_score: u32 = penalty_score(&best);
    let mut k: u8 = 1;
    while k < 8
        invariant
            1 <= k <= 8,
            valid_version(version as int),
            table@.len() == spec_step_count(spec_side_length(version as int)),
            forall|t: int|
                0 <= t < table@.len() ==> table@[t] == spec_data_modules_before(version as int, t),
            best_mask == spec_best_mask_among(codewords@, version as int, ecl, k as int),
            best_score == spec_mask_penalty(codewords@, version as int, ecl, best_mask),
            best.spec_version() == version,
            best.grid() == spec_symbol_grid(codewords@, version as int, ecl, best_mask),
        decreases 8 - k,
    {
        let m = build_matrix_from_table(codewords, version, ecl, k, &table);
        let score = penalty_score(&m);
        if score < best_score {
            best = m;
            best_mask = k;
            best_score = score;
        }
        k += 1;
    }
    Ok((best, best_mask))
}

/// The mode of an encoding: the forced one where it represents the input,
/// else the narrowest that does; `None` where the input is not
/// representable.
pub open spec fn spec_encode_mode(data: Seq<u8>, config: EncodeConfig) -> Option<Mode> {
    match config.forced_mode {
        Some(m) => if mode_accepts(m, data, config.byte_encoding) {
            Some(m)
        } else {
            None
        },
        None => spec_classify(data, config.byte_encoding, config.allow_kanji),
    }
}

/// The version of an encoding: the forced one where it is valid and has
/// room, else the smallest that has room.
pub open spec fn spec_encode_version(
    mode: Mode,
    count: int,
    ecl: ErrorCorrectionLevel,
    config: EncodeConfig,
) -> Result<int, EncodeError> {
    match config.forced_version {
        Some(fv) => if !valid_version(fv as int) {
            Err(EncodeError::InvalidVersion)
        } else if spec_fits(mode, count, ecl, fv as int) {
            Ok(fv as int)
        } else {
            Err(EncodeError::DataTooLong)
        },
        None => match spec_select_version(mode, count, ecl) {
            Some(v) => Ok(v),
            None => Err(EncodeError::DataTooLong),
        },
    }
}

/// The data codewords of `data` as one segment of `mode` in a symbol of
/// version `v`.
pub open spec fn spec_encode_data(data: Seq<u8>, mode: Mode, ecl: ErrorCorrectionLevel, v: int) -> Seq<
    u8,
> {
    spec_padded_codewords(
        bits_of(mode.spec_indicator() as u32, 4) + bits_of(
            spec_char_count(mode, data) as u32,
            spec_count_bits(mode, v),
        ) + spec_payload(mode, data),
        spec_data_codewords(ecl, v),
    )
}

/// All codewords of the symbol of `data`, in their final order.
pub open spec fn spec_encode_codewords(
    data: Seq<u8>,
    mode: Mode,
    ecl: ErrorCorrectionLevel,
    v: int,
) -> Seq<u8> {
    spec_interleave(spec_encode_data(data, mode, ecl, v), ecl, v)
}

/// The mode of an encoding: the forced one, or the narrowest that
/// represents `data`; `UnsupportedCharacter` exactly when that mode, or
/// every mode, cannot represent it.
pub fn choose_mode(data: &[u8], config: &EncodeConfig) -> (r: Result<Mode, EncodeError>)
    ensures
        match spec_encode_mode(data@, *config) {
            Some(m) => r == Ok::<Mode, EncodeError>(m),
            None => r == Err::<Mode, EncodeError>(EncodeError::UnsupportedCharacter),
        },
{
    match config.forced_mode {
        Some(m) => {
            if mode_accepts_data(m, data, config.byte_encoding) {
                Ok(m)
            } else {
                Err(EncodeError::UnsupportedCharacter)
            }
        },
        None => get_qr_mode(data, config.byte_encoding, config.allow_kanji),
    }
}

/// The version of an encoding: the forced one, or the smallest with room
/// for `count` characters of `mode`; `InvalidVersion` exactly when a
/// forced version is outside 1..=40, `DataTooLong` exactly when the forced
/// version, or every version, lacks room.
pub fn choose_version(mode: Mode, count: usize, ecl: ErrorCorrectionLevel, config: &EncodeConfig) -> (r:
    Result<u32, EncodeError>)
    ensures
        match spec_encode_version(mode, count as int, ecl, *config) {
            Ok(v) => r == Ok::<u32, EncodeError>(v as u32) && valid_version(v) && spec_fits(
                mode,
                count as int,
                ecl,
                v,
            ),
            Err(e) => r == Err::<u32, EncodeError>(e),
        },
{
    match config.forced_version {
        Some(fv) => {
            if fv < 1 || fv > 40 {
                Err(EncodeError::InvalidVersion)
            } else if fits_version(mode, count, ecl, fv) {
                Ok(fv)
            } else {
                Err(EncodeError::DataTooLong)
            }
        },
        None => {
            proof {
                lemma_select_version_minimal(mode, count as int, ecl, 1);
            }
            get_qr_version(count, mode, ecl)
        },
    }
}

/// A list of one segment fits a version exactly when its character count
/// and payload do, and its stream is the stream of the segment.
pub proof fn lemma_single_segment(seg: Segment, ecl: ErrorCorrectionLevel, v: int)
    requires
        seg.wf(),
    ensures
        spec_segments_stream(seq![seg], v) == spec_segment_stream(seg, v),
        segments_fit(seq![seg], ecl, v) == spec_fits(
            seg.mode,
            seg.char_count as int,
            ecl,
            v,
        ),
{
    let segs = seq![seg];
    assert(segs.drop_last() =~= Seq::<Segment>::empty());
    assert(spec_segments_stream(segs.drop_last(), v) =~= Seq::<bool>::empty());
    assert(segs.last() == seg);
    assert(spec_segments_stream(segs, v) =~= spec_segment_stream(seg, v));
    assert(spec_segment_stream(seg, v).len() == 4 + spec_count_bits(seg.mode, v) + seg.bits@.len());
    assert(segs[0] == seg);
}

/// The data codewords of `data` as one segment of `mode` in a symbol of
/// version `version`. `UnsupportedCharacter` exactly when the mode cannot
/// represent `data`; else `InvalidVersion` exactly when `version` is
/// outside 1..=40; else `DataTooLong` exactly when the segment does not
/// fit the version.
pub fn encode_data(
    data: &[u8],
    mode: Mode,
    encoding: ByteEncoding,
    version: u32,
    ecl: ErrorCorrectionLevel,
) -> (r: Result<Vec<u8>, EncodeError>)
    ensures
        match r {
            Ok(w) => mode_accepts(mode, data@, encoding) && valid_version(version as int)
                && spec_fits(mode, spec_char_count(mode, data@), ecl, version as int) && w@
                == spec_encode_data(data@, mode, ecl, version as int) && w@.len()
                == spec_data_codewords(ecl, version as int),
            Err(e) => if !mode_accepts(mode, data@, encoding) {
                e == EncodeError::UnsupportedCharacter
            } else if !valid_version(version as int) {
                e == EncodeError::InvalidVersion
            } else {
                e == EncodeError::DataTooLong && !spec_fits(
                    mode,
                    spec_char_count(mode, data@),
                    ecl,
                    version as int,
                )
            },
        },
{
    let seg = match Segment::make(data, mode, encoding) {
        Ok(s) => s,
        Err(e) => {
            return Err(e);
        },
    };
    let mut segs: Vec<Segment> = Vec::new();
    segs.push(seg);
    proof {
        assert(segs@ =~= seq![segs@[0]]);
        lemma_single_segment(segs@[0], ecl, version as int);
    }
    encode_segments(&segs, version, ecl)
}

/// The symbol of `data` at level `ecl`.
///
/// The mode is the forced one, or the narrowest that represents the
/// input; `UnsupportedCharacter` exactly when that mode, or every mode,
/// cannot represent it. The version is the forced one, or the smallest
/// with room; `InvalidVersion` exactly when a forced version is outside
/// 1..=40, `DataTooLong` exactly when the forced version, or every
/// version, lacks room. Otherwise the result is the symbol of the padded
/// and interleaved codewords under the mask of lowest penalty.
pub fn encode(data: &[u8], ecl: ErrorCorrectionLevel, config: &EncodeConfig) -> (r: Result<
    Matrix,
    EncodeError,
>)
    ensures
        match spec_encode_mode(data@, *config) {
            None => match r {
                Ok(_) => false,
                Err(e) => e == EncodeError::UnsupportedCharacter,
            },
            Some(mode) => match spec_encode_version(
                mode,
                spec_char_count(mode, data@),
                ecl,
                *config,
            ) {
                Err(e0) => match r {
                    Ok(_) => false,
                    Err(e) => e == e0,
                },
                Ok(v) => match r {
                    Ok(m) => m.spec_version() == v && m.grid() == spec_symbol_grid(
                        spec_encode_codewords(data@, mode, ecl, v),
                        v,
                        ecl,
                        spec_best_mask(spec_encode_codewords(data@, mode, ecl, v), v, ecl),
                    ),
                    Err(_) => false,
                },
            },
        },
{
    let mode = match choose_mode(data, config) {
        Ok(m) => m,
        Err(e) => {
            return Err(e);
        },
    };
    let version = match choose_version(mode, char_count(mode, data), ecl, config) {
        Ok(v) => v,
        Err(e) => {
            return Err(e);
        },
    };
    let data_words = match encode_data(data, mode, config.byte_encoding, version, ecl) {
        Ok(w) => w,
        Err(_) => {
            return Err(EncodeError::EncoderInvariantViolation);
        },
    };
    let all_words = match add_error_correction(&data_words, version, ecl) {
        Ok(w) => w,
        Err(_) => {
            return Err(EncodeError::InternalEncodingError);
        },
    };
    match build_symbol(&all_words, version, ecl) {
        Ok((m, _)) => Ok(m),
        Err(_) => Err(EncodeError::InternalEncodingError),
    }
}

} // verus!
