//! The segment encoder: the packing rules of the four modes and the bit
//! stream of a list of segments.

use vstd::prelude::*;
use vstd::arithmetic::power2::pow2;
use crate::types::Mode;
use crate::types::ByteEncoding;
use crate::types::ErrorCorrectionLevel;
use crate::types::EncodeError;
use crate::tables::valid_version;
use crate::tables::spec_data_codewords;
use crate::tables::data_codewords;
use crate::mode::is_digit;
use crate::mode::all_digits;
use crate::mode::all_alphanumeric;
use crate::mode::all_kanji;
use crate::mode::is_alphanumeric;
use crate::mode::is_kanji_pair;
use crate::mode::spec_alphanumeric_code;
use crate::mode::alphanumeric_code;
use crate::mode::mode_accepts;
use crate::mode::mode_accepts_data;
use crate::mode::spec_char_count;
use crate::mode::char_count;
use crate::version::spec_count_bits;
use crate::version::spec_payload_bits;
use crate::version::count_bits;
use crate::version::count_limit;
use crate::bits::bits_of;
use crate::bits::append_bits;
use crate::bits::append_stream;
use crate::bits::spec_padded_codewords;
use crate::bits::pad_codewords;

verus! {

/// Digits in groups of three as ten bits; a last group of two as seven
/// bits, of one as four.
pub open spec fn numeric_payload(data: Seq<u8>) -> Seq<bool>
    decreases data.len(),
{
    if data.len() == 0 {
        Seq::empty()
    } else if data.len() == 1 {
        bits_of((data[0] - 0x30) as u32, 4)
    } else if data.len() == 2 {
        bits_of((10 * (data[0] - 0x30) + (data[1] - 0x30)) as u32, 7)
    } else {
        bits_of((100 * (data[0] - 0x30) + 10 * (data[1] - 0x30) + (data[2] - 0x30)) as u32, 10)
            + numeric_payload(data.skip(3))
    }
}

/// Characters in pairs as eleven bits, the first weighted by 45; a last
/// single character as six bits.
pub open spec fn alphanumeric_payload(data: Seq<u8>) -> Seq<bool>
    decreases data.len(),
{
    if data.len() == 0 {
        Seq::empty()
    } else if data.len() == 1 {
        bits_of(spec_alphanumeric_code(data[0]) as u32, 6)
    } else {
        bits_of((45 * spec_alphanumeric_code(data[0]) + spec_alphanumeric_code(data[1])) as u32, 11)
            + alphanumeric_payload(data.skip(2))
    }
}

/// Each byte as eight bits.
pub open spec fn byte_payload(data: Seq<u8>) -> Seq<bool>
    decreases data.len(),
{
    if data.len() == 0 {
        Seq::empty()
    } else {
        bits_of(data[0] as u32, 8) + byte_payload(data.skip(1))
    }
}

/// The thirteen-bit value of a Shift-JIS double-byte character.
pub open spec fn spec_kanji_value(hi: u8, lo: u8) -> int {
    let w = hi * 256 + lo;
    let s = if w <= 0x9FFC {
        w - 0x8140
    } else {
        w - 0xC140
    };
    (s / 256) * 0xC0 + s % 256
}

/// Each double-byte character as thirteen bits.
pub open spec fn kanji_payload(data: Seq<u8>) -> Seq<bool>
    decreases data.len(),
{
    if data.len() < 2 {
        Seq::empty()
    } else {
        bits_of(spec_kanji_value(data[0], data[1]) as u32, 13) + kanji_payload(data.skip(2))
    }
}

/// The payload bits of `data` in `mode`.
pub open spec fn spec_payload(mode: Mode, data: Seq<u8>) -> Seq<bool> {
    match mode {
        Mode::Numeric => numeric_payload(data),
        Mode::Alphanumeric => alphanumeric_payload(data),
        Mode::Byte => byte_payload(data),
        Mode::Kanji => kanji_payload(data),
    }
}

/// One encoded run of a single mode: the mode, the number of characters
/// and the packed payload.
#[derive(Debug)]
pub struct Segment {
    pub mode: Mode,
    pub char_count: usize,
    pub bits: Vec<bool>,
}

impl Segment {
    /// The payload has the length that the mode's packing rule gives to
    /// the character count.
    pub open spec fn wf(&self) -> bool {
        self.bits@.len() == spec_payload_bits(self.mode, self.char_count as int)
    }

    /// Whether the segment is the encoding of `data` in `mode`.
    pub open spec fn encodes(&self, mode: Mode, data: Seq<u8>) -> bool {
        self.mode == mode && self.char_count == spec_char_count(mode, data) && self.bits@
            == spec_payload(mode, data)
    }

    /// The segment of `data` in `mode`; `UnsupportedCharacter` exactly when
    /// the mode cannot represent `data`.
    pub fn make(data: &[u8], mode: Mode, encoding: ByteEncoding) -> (r: Result<Segment, EncodeError>)
        ensures
            match r {
                Ok(seg) => mode_accepts(mode, data@, encoding) && seg.encodes(mode, data@)
                    && seg.wf(),
                Err(e) => !mode_accepts(mode, data@, encoding) && e
                    == EncodeError::UnsupportedCharacter,
            },
    {
        if !mode_accepts_data(mode, data, encoding) {
            return Err(EncodeError::UnsupportedCharacter);
        }
        let bits = match mode {
            Mode::Numeric => encode_numeric(data),
            Mode::Alphanumeric => encode_alphanumeric(data),
            Mode::Byte => encode_bytes(data),
            Mode::Kanji => encode_kanji(data),
        };
        proof {
            lemma_payload_len(mode, data@);
        }
        Ok(Segment { mode, char_count: char_count(mode, data), bits })
    }
}

/// The payload of a string that its mode accepts has the length that the
/// packing rule gives to its character count.
pub proof fn lemma_payload_len(mode: Mode, data: Seq<u8>)
    requires
        mode == Mode::Kanji ==> data.len() % 2 == 0,
    ensures
        spec_payload(mode, data).len() == spec_payload_bits(mode, spec_char_count(mode, data)),
    decreases data.len(),
{
    match mode {
        Mode::Numeric => {
            if data.len() >= 3 {
                lemma_payload_len(mode, data.skip(3));
            }
        },
        Mode::Alphanumeric => {
            if data.len() >= 2 {
                lemma_payload_len(mode, data.skip(2));
            }
        },
        Mode::Byte => {
            if data.len() >= 1 {
                lemma_payload_len(mode, data.skip(1));
            }
        },
        Mode::Kanji => {
            if data.len() >= 2 {
                lemma_payload_len(mode, data.skip(2));
            }
        },
    }
}

/// The payload of a string of digits.
pub fn encode_numeric(data: &[u8]) -> (bits: Vec<bool>)
    requires
        all_digits(data@),
    ensures
        bits@ == numeric_payload(data@),
{
    let n = data.len();
    let mut bits: Vec<bool> = Vec::new();
    assert(data@.skip(0) =~= data@);
    assert(Seq::<bool>::empty() + numeric_payload(data@) =~= numeric_payload(data@));
    let mut i: usize = 0;
    while n - i >= 3
        invariant
            i <= n == data.len(),
            all_digits(data@),
            numeric_payload(data@) == bits@ + numeric_payload(data@.skip(i as int)),
        decreases n - i,
    {
        let ghost rest = data@.skip(i as int);
        let ghost before = bits@;
        assert(is_digit(data@[i as int]) && is_digit(data@[i + 1]) && is_digit(data@[i + 2]));
        let v: u32 = 100 * (data[i] - 0x30) as u32 + 10 * (data[i + 1] - 0x30) as u32 + (data[i + 2]
            - 0x30) as u32;
        append_bits(&mut bits, v, 10);
        proof {
            assert(rest.skip(3) =~= data@.skip(i + 3));
            assert(before + (bits_of(v, 10) + numeric_payload(rest.skip(3))) =~= (before + bits_of(
                v,
                10,
            )) + numeric_payload(rest.skip(3)));
        }
        i += 3;
    }
    let ghost rest = data@.skip(i as int);
    let ghost before = bits@;
    if n - i == 2 {
        assert(is_digit(data@[i as int]) && is_digit(data@[i + 1]));
        let v: u32 = 10 * (data[i] - 0x30) as u32 + (data[i + 1] - 0x30) as u32;
        append_bits(&mut bits, v, 7);
    } else if n - i == 1 {
        assert(is_digit(data@[i as int]));
        let v: u32 = (data[i] - 0x30) as u32;
        append_bits(&mut bits, v, 4);
    } else {
        assert(before + Seq::<bool>::empty() =~= before);
    }
    bits
}

/// The payload of a string over the alphanumeric set.
pub fn encode_alphanumeric(data: &[u8]) -> (bits: Vec<bool>)
    requires
        all_alphanumeric(data@),
    ensures
        bits@ == alphanumeric_payload(data@),
{
    let n = data.len();
    let mut bits: Vec<bool> = Vec::new();
    assert(data@.skip(0) =~= data@);
    assert(Seq::<bool>::empty() + alphanumeric_payload(data@) =~= alphanumeric_payload(data@));
    let mut i: usize = 0;
    while n - i >= 2
        invariant
            i <= n == data.len(),
            all_alphanumeric(data@),
            alphanumeric_payload(data@) == bits@ + alphanumeric_payload(data@.skip(i as int)),
        decreases n - i,
    {
        let ghost rest = data@.skip(i as int);
        let ghost before = bits@;
        assert(is_alphanumeric(data@[i as int]) && is_alphanumeric(data@[i + 1]));
        let a = alphanumeric_code(data[i]).unwrap();
        let b = alphanumeric_code(data[i + 1]).unwrap();
        let v: u32 = 45 * a as u32 + b as u32;
        append_bits(&mut bits, v, 11);
        proof {
            assert(rest.skip(2) =~= data@.skip(i + 2));
            assert(before + (bits_of(v, 11) + alphanumeric_payload(rest.skip(2))) =~= (before
                + bits_of(v, 11)) + alphanumeric_payload(rest.skip(2)));
        }
        i += 2;
    }
    let ghost before = bits@;
    if n - i == 1 {
        assert(is_alphanumeric(data@[i as int]));
        let a = alphanumeric_code(data[i]).unwrap();
        append_bits(&mut bits, a as u32, 6);
    } else {
        assert(before + Seq::<bool>::empty() =~= before);
    }
    bits
}

/// The payload of a string of bytes.
pub fn encode_bytes(data: &[u8]) -> (bits: Vec<bool>)
    ensures
        bits@ == byte_payload(data@),
{
    let n = data.len();
    let mut bits: Vec<bool> = Vec::new();
    assert(data@.skip(0) =~= data@);
    assert(Seq::<bool>::empty() + byte_payload(data@) =~= byte_payload(data@));
    let mut i: usize = 0;
    while i < n
        invariant
            i <= n == data.len(),
            byte_payload(data@) == bits@ + byte_payload(data@.skip(i as int)),
        decreases n - i,
    {
        let ghost rest = data@.skip(i as int);
        let ghost before = bits@;
        let v: u32 = data[i] as u32;
        append_bits(&mut bits, v, 8);
        proof {
            assert(rest.skip(1) =~= data@.skip(i + 1));
            assert(before + (bits_of(v, 8) + byte_payload(rest.skip(1))) =~= (before + bits_of(v, 8))
                + byte_payload(rest.skip(1)));
        }
        i += 1;
    }
    assert(bits@ + Seq::<bool>::empty() =~= bits@);
    bits
}

/// The payload of a string of Shift-JIS double-byte characters.
pub fn encode_kanji(data: &[u8]) -> (bits: Vec<bool>)
    requires
        all_kanji(data@),
    ensures
        bits@ == kanji_payload(data@),
{
    let n = data.len();
    let mut bits: Vec<bool> = Vec::new();
    assert(data@.skip(0) =~= data@);
    assert(Seq::<bool>::empty() + kanji_payload(data@) =~= kanji_payload(data@));
    let mut i: usize = 0;
    while n - i >= 2
        invariant
            i <= n == data.len(),
            i % 2 == 0,
            all_kanji(data@),
            kanji_payload(data@) == bits@ + kanji_payload(data@.skip(i as int)),
        decreases n - i,
    {
        let ghost rest = data@.skip(i as int);
        let ghost before = bits@;
        assert(is_kanji_pair(data@[2 * (i as int / 2)], data@[2 * (i as int / 2) + 1]));
        let w: u32 = data[i] as u32 * 256 + data[i + 1] as u32;
        let s: u32 = if w <= 0x9FFC {
            w - 0x8140
        } else {
            w - 0xC140
        };
        let v: u32 = (s / 256) * 0xC0 + s % 256;
        append_bits(&mut bits, v, 13);
        proof {
            assert(rest.skip(2) =~= data@.skip(i + 2));
            assert(before + (bits_of(v, 13) + kanji_payload(rest.skip(2))) =~= (before + bits_of(
                v,
                13,
            )) + kanji_payload(rest.skip(2)));
        }
        i += 2;
    }
    assert(bits@ + Seq::<bool>::empty() =~= bits@);
    bits
}

/// The bits of one segment in a symbol of version `v`: the four-bit mode
/// indicator, the character count in the width of the version's tier, and
/// the payload.
pub open spec fn spec_segment_stream(seg: Segment, v: int) -> Seq<bool> {
    bits_of(seg.mode.spec_indicator() as u32, 4) + bits_of(
        seg.char_count as u32,
        spec_count_bits(seg.mode, v),
    ) + seg.bits@
}

/// The bits of a list of segments, one after the other.
pub open spec fn spec_segments_stream(segs: Seq<Segment>, v: int) -> Seq<bool>
    decreases segs.len(),
{
    if segs.len() == 0 {
        Seq::empty()
    } else {
        spec_segments_stream(segs.drop_last(), v) + spec_segment_stream(segs.last(), v)
    }
}

/// Every character count fits the count indicator of its mode.
pub open spec fn counts_fit(segs: Seq<Segment>, v: int) -> bool {
    forall|i: int|
        0 <= i < segs.len() ==> (#[trigger] segs[i]).char_count < pow2(
            spec_count_bits(segs[i].mode, v) as nat,
        )
}

/// Whether the segments fit a symbol of version `v` at level `ecl`.
pub open spec fn segments_fit(segs: Seq<Segment>, ecl: ErrorCorrectionLevel, v: int) -> bool {
    counts_fit(segs, v) && spec_segments_stream(segs, v).len() <= 8 * spec_data_codewords(ecl, v)
}

/// The stream of a list is at least as long as that of any of its prefixes.
pub proof fn lemma_stream_prefix_len(segs: Seq<Segment>, v: int, i: int)
    requires
        0 <= i <= segs.len(),
    ensures
        spec_segments_stream(segs.take(i), v).len() <= spec_segments_stream(segs, v).len(),
    decreases segs.len() - i,
{
    if i == segs.len() {
        assert(segs.take(i) =~= segs);
    } else {
        lemma_stream_prefix_len(segs, v, i + 1);
        assert(segs.take(i + 1).drop_last() =~= segs.take(i));
    }
}

/// The data codewords of a symbol: the stream of the segments, terminated
/// and padded to the data capacity of the version. `InvalidVersion` exactly
/// when `version` is outside 1..=40; `DataTooLong` exactly when the version
/// is valid and the segments do not fit it. The result always has as many
/// codewords as the version holds.
pub fn encode_segments(segs: &Vec<Segment>, version: u32, ecl: ErrorCorrectionLevel) -> (r: Result<
    Vec<u8>,
    EncodeError,
>)
    ensures
        match r {
            Ok(out) => valid_version(version as int) && segments_fit(segs@, ecl, version as int)
                && out@ == spec_padded_codewords(
                spec_segments_stream(segs@, version as int),
                spec_data_codewords(ecl, version as int),
            ) && out@.len() == spec_data_codewords(ecl, version as int),
            Err(e) => if !valid_version(version as int) {
                e == EncodeError::InvalidVersion
            } else {
                e == EncodeError::DataTooLong && !segments_fit(segs@, ecl, version as int)
            },
        },
{
    if version < 1 || version > 40 {
        return Err(EncodeError::InvalidVersion);
    }
    let capacity: usize = data_codewords(ecl, version) as usize;
    let mut bits: Vec<bool> = Vec::new();
    let mut i: usize = 0;
    while i < segs.len()
        invariant
            i <= segs.len(),
            valid_version(version as int),
            capacity == spec_data_codewords(ecl, version as int),
            capacity <= 2956,
            bits@ == spec_segments_stream(segs@.take(i as int), version as int),
            bits@.len() <= 8 * capacity,
            counts_fit(segs@.take(i as int), version as int),
        decreases segs.len() - i,
    {
        let seg = &segs[i];
        let ghost v = version as int;
        proof {
            assert(segs@.take(i + 1).drop_last() =~= segs@.take(i as int));
            assert(segs@.take(i + 1).last() == segs@[i as int]);
            lemma_stream_prefix_len(segs@, v, i + 1);
        }
        let width = count_bits(seg.mode, version);
        if seg.char_count >= count_limit(seg.mode, version) {
            return Err(EncodeError::DataTooLong);
        }
        if seg.bits.len() > 8 * capacity - bits.len() || 4 + width as usize > 8 * capacity
            - bits.len() - seg.bits.len() {
            return Err(EncodeError::DataTooLong);
        }
        let ghost before = bits@;
        append_bits(&mut bits, seg.mode.indicator(), 4);
        append_bits(&mut bits, seg.char_count as u32, width);
        append_stream(&mut bits, &seg.bits);
        proof {
            assert(bits@ =~= before + spec_segment_stream(*seg, v));
            assert forall|k: int| 0 <= k < i + 1 implies (#[trigger] segs@.take(i + 1)[k]).char_count
                < pow2(spec_count_bits(segs@.take(i + 1)[k].mode, v) as nat) by {
                if k < i {
                    assert(segs@.take(i as int)[k] == segs@.take(i + 1)[k]);
                }
            }
        }
        i += 1;
    }
    assert(segs@.take(i as int) =~= segs@);
    pad_codewords(&bits, capacity)
}

} // verus!
