//! The mode classifier: which of the four modes can carry an input, and
//! which of them is the narrowest.

use vstd::prelude::*;
use crate::types::Mode;
use crate::types::ByteEncoding;
use crate::types::EncodeError;

verus! {

/// An ASCII decimal digit.
pub open spec fn is_digit(b: u8) -> bool {
    0x30 <= b <= 0x39
}

/// The value of a character of the alphanumeric set (digits, upper-case
/// letters, space and `$%*+-./:`), or -1 for any other byte.
pub open spec fn spec_alphanumeric_code(b: u8) -> int {
    if 0x30 <= b <= 0x39 {
        b - 0x30
    } else if 0x41 <= b <= 0x5A {
        b - 0x41 + 10
    } else if b == 0x20 {
        36
    } else if b == 0x24 {
        37
    } else if b == 0x25 {
        38
    } else if b == 0x2A {
        39
    } else if b == 0x2B {
        40
    } else if b == 0x2D {
        41
    } else if b == 0x2E {
        42
    } else if b == 0x2F {
        43
    } else if b == 0x3A {
        44
    } else {
        -1
    }
}

/// A character of the alphanumeric set.
pub open spec fn is_alphanumeric(b: u8) -> bool {
    spec_alphanumeric_code(b) >= 0
}

/// Every byte is a decimal digit.
pub open spec fn all_digits(data: Seq<u8>) -> bool {
    forall|i: int| 0 <= i < data.len() ==> is_digit(#[trigger] data[i])
}

/// Every byte belongs to the alphanumeric set.
pub open spec fn all_alphanumeric(data: Seq<u8>) -> bool {
    forall|i: int| 0 <= i < data.len() ==> is_alphanumeric(#[trigger] data[i])
}

/// A UTF-8 continuation byte.
pub open spec fn is_continuation(b: u8) -> bool {
    0x80 <= b <= 0xBF
}

/// The length of the well-formed UTF-8 scalar that starts at `i`, or 0 when
/// none does. Over-long forms, surrogates and values above U+10FFFF are not
/// well formed.
pub open spec fn spec_scalar_len(data: Seq<u8>, i: int) -> int
    recommends
        0 <= i < data.len(),
{
    let b0 = data[i];
    if b0 <= 0x7F {
        1
    } else if 0xC2 <= b0 <= 0xDF {
        if i + 1 < data.len() && is_continuation(data[i + 1]) {
            2
        } else {
            0
        }
    } else if 0xE0 <= b0 <= 0xEF {
        if i + 2 < data.len() && is_continuation(data[i + 1]) && is_continuation(data[i + 2]) && (b0
            == 0xE0 ==> data[i + 1] >= 0xA0) && (b0 == 0xED ==> data[i + 1] <= 0x9F) {
            3
        } else {
            0
        }
    } else if 0xF0 <= b0 <= 0xF4 {
        if i + 3 < data.len() && is_continuation(data[i + 1]) && is_continuation(data[i + 2])
            && is_continuation(data[i + 3]) && (b0 == 0xF0 ==> data[i + 1] >= 0x90) && (b0 == 0xF4
            ==> data[i + 1] <= 0x8F) {
            4
        } else {
            0
        }
    } else {
        0
    }
}

/// The bytes from `i` on are a sequence of well-formed UTF-8 scalars.
pub open spec fn is_utf8_from(data: Seq<u8>, i: int) -> bool
    decreases data.len() - i,
{
    if i < 0 || i >= data.len() {
        i == data.len()
    } else {
        let n = spec_scalar_len(data, i);
        n > 0 && is_utf8_from(data, i + n)
    }
}

/// The bytes are well-formed UTF-8.
pub open spec fn is_utf8(data: Seq<u8>) -> bool {
    is_utf8_from(data, 0)
}

/// A Shift-JIS double-byte character that Kanji mode can pack.
pub open spec fn is_kanji_pair(hi: u8, lo: u8) -> bool {
    let w = hi * 256 + lo;
    (0x8140 <= w <= 0x9FFC || 0xE040 <= w <= 0xEBBF) && 0x40 <= lo <= 0xFC && lo != 0x7F
}

/// The bytes are a sequence of Shift-JIS double-byte characters.
pub open spec fn all_kanji(data: Seq<u8>) -> bool {
    data.len() % 2 == 0 && forall|k: int|
        0 <= k < data.len() / 2 ==> is_kanji_pair(#[trigger] data[2 * k], data[2 * k + 1])
}

/// Whether `mode` can represent `data` without loss.
pub open spec fn mode_accepts(mode: Mode, data: Seq<u8>, encoding: ByteEncoding) -> bool {
    match mode {
        Mode::Numeric => all_digits(data),
        Mode::Alphanumeric => all_alphanumeric(data),
        Mode::Byte => encoding == ByteEncoding::Latin1 || is_utf8(data),
        Mode::Kanji => all_kanji(data),
    }
}

/// The narrowest mode that represents `data`, tried in the order Numeric,
/// Alphanumeric, Byte, Kanji; Kanji only where `allow_kanji` is set.
pub open spec fn spec_classify(data: Seq<u8>, encoding: ByteEncoding, allow_kanji: bool) -> Option<
    Mode,
> {
    if mode_accepts(Mode::Numeric, data, encoding) {
        Some(Mode::Numeric)
    } else if mode_accepts(Mode::Alphanumeric, data, encoding) {
        Some(Mode::Alphanumeric)
    } else if mode_accepts(Mode::Byte, data, encoding) {
        Some(Mode::Byte)
    } else if allow_kanji && mode_accepts(Mode::Kanji, data, encoding) {
        Some(Mode::Kanji)
    } else {
        None
    }
}

/// The number of characters that `data` holds when read in `mode`.
pub open spec fn spec_char_count(mode: Mode, data: Seq<u8>) -> int {
    match mode {
        Mode::Kanji => (data.len() / 2) as int,
        _ => data.len() as int,
    }
}

/// The value of `b` in the alphanumeric set, or `None` outside it.
pub fn alphanumeric_code(b: u8) -> (r: Option<u8>)
    ensures
        match r {
            Some(c) => c == spec_alphanumeric_code(b) && c <= 44,
            None => !is_alphanumeric(b),
        },
{
    if 0x30 <= b && b <= 0x39 {
        Some(b - 0x30)
    } else if 0x41 <= b && b <= 0x5A {
        Some(b - 0x41 + 10)
    } else if b == 0x20 {
        Some(36)
    } else if b == 0x24 {
        Some(37)
    } else if b == 0x25 {
        Some(38)
    } else if b == 0x2A {
        Some(39)
    } else if b == 0x2B {
        Some(40)
    } else if b == 0x2D {
        Some(41)
    } else if b == 0x2E {
        Some(42)
    } else if b == 0x2F {
        Some(43)
    } else if b == 0x3A {
        Some(44)
    } else {
        None
    }
}

/// Whether every byte of `data` is a decimal digit.
pub fn is_numeric(data: &[u8]) -> (r: bool)
    ensures
        r == all_digits(data@),
{
    let mut i: usize = 0;
    while i < data.len()
        invariant
            i <= data.len(),
            forall|j: int| 0 <= j < i ==> is_digit(#[trigger] data@[j]),
        decreases data.len() - i,
    {
        let b = data[i];
        if b < 0x30 || b > 0x39 {
            return false;
        }
        i += 1;
    }
    true
}

/// Whether every byte of `data` belongs to the alphanumeric set.
pub fn is_alphanumeric_text(data: &[u8]) -> (r: bool)
    ensures
        r == all_alphanumeric(data@),
{
    let mut i: usize = 0;
    while i < data.len()
        invariant
            i <= data.len(),
            forall|j: int| 0 <= j < i ==> is_alphanumeric(#[trigger] data@[j]),
        decreases data.len() - i,
    {
        if alphanumeric_code(data[i]).is_none() {
            return false;
        }
        i += 1;
    }
    true
}

/// The length of the well-formed UTF-8 scalar at `i`, or 0.
fn scalar_len(data: &[u8], i: usize) -> (r: usize)
    requires
        i < data.len(),
    ensures
        r == spec_scalar_len(data@, i as int),
        r <= 4,
        i + r <= data.len(),
{
    let n = data.len();
    let b0 = data[i];
    if b0 <= 0x7F {
        1
    } else if 0xC2 <= b0 && b0 <= 0xDF {
        if n - i > 1 && continuation(data[i + 1]) {
            2
        } else {
            0
        }
    } else if 0xE0 <= b0 && b0 <= 0xEF {
        if n - i > 2 && continuation(data[i + 1]) && continuation(data[i + 2]) && (b0 != 0xE0
            || data[i + 1] >= 0xA0) && (b0 != 0xED || data[i + 1] <= 0x9F) {
            3
        } else {
            0
        }
    } else if 0xF0 <= b0 && b0 <= 0xF4 {
        if n - i > 3 && continuation(data[i + 1]) && continuation(data[i + 2]) && continuation(
            data[i + 3],
        ) && (b0 != 0xF0 || data[i + 1] >= 0x90) && (b0 != 0xF4 || data[i + 1] <= 0x8F) {
            4
        } else {
            0
        }
    } else {
        0
    }
}

fn continuation(b: u8) -> (r: bool)
    ensures
        r == is_continuation(b),
{
    0x80 <= b && b <= 0xBF
}

/// Whether `data` is well-formed UTF-8.
pub fn is_valid_utf8(data: &[u8]) -> (r: bool)
    ensures
        r == is_utf8(data@),
{
    let mut i: usize = 0;
    while i < data.len()
        invariant
            i <= data.len(),
            is_utf8(data@) == is_utf8_from(data@, i as int),
        decreases data.len() - i,
    {
        let n = scalar_len(data, i);
        if n == 0 {
            return false;
        }
        i += n;
    }
    true
}

/// Whether `data` is a sequence of Shift-JIS double-byte characters.
pub fn is_kanji_text(data: &[u8]) -> (r: bool)
    ensures
        r == all_kanji(data@),
{
    let n = data.len();
    if n % 2 != 0 {
        return false;
    }
    let mut k: usize = 0;
    while k < n / 2
        invariant
            n == data.len(),
            n % 2 == 0,
            k <= n / 2,
            forall|j: int| 0 <= j < k ==> is_kanji_pair(#[trigger] data@[2 * j], data@[2 * j + 1]),
        decreases n / 2 - k,
    {
        let hi = data[2 * k];
        let lo = data[2 * k + 1];
        let w: u32 = hi as u32 * 256 + lo as u32;
        let ok = ((0x8140 <= w && w <= 0x9FFC) || (0xE040 <= w && w <= 0xEBBF)) && 0x40 <= lo && lo
            <= 0xFC && lo != 0x7F;
        if !ok {
            assert(!is_kanji_pair(data@[2 * (k as int)], data@[2 * (k as int) + 1]));
            return false;
        }
        k += 1;
    }
    true
}

/// Whether `mode` can represent `data` without loss.
pub fn mode_accepts_data(mode: Mode, data: &[u8], encoding: ByteEncoding) -> (r: bool)
    ensures
        r == mode_accepts(mode, data@, encoding),
{
    match mode {
        Mode::Numeric => is_numeric(data),
        Mode::Alphanumeric => is_alphanumeric_text(data),
        Mode::Byte => match encoding {
            ByteEncoding::Latin1 => true,
            ByteEncoding::Utf8 => is_valid_utf8(data),
        },
        Mode::Kanji => is_kanji_text(data),
    }
}

/// The narrowest mode that represents `data`: the first of Numeric,
/// Alphanumeric, Byte and (where `allow_kanji` is set) Kanji that accepts
/// it, and `UnsupportedCharacter` exactly when none does. The empty input
/// is Numeric. The input is read once, front to back.
pub fn get_qr_mode(data: &[u8], encoding: ByteEncoding, allow_kanji: bool) -> (r: Result<
    Mode,
    EncodeError,
>)
    ensures
        match spec_classify(data@, encoding, allow_kanji) {
            Some(m) => r == Ok::<Mode, EncodeError>(m),
            None => r == Err::<Mode, EncodeError>(EncodeError::UnsupportedCharacter),
        },
{
    let n = data.len();
    let mut digits = true;
    let mut alnum = true;
    let mut utf8 = true;
    let mut next: usize = 0;
    let mut kanji = n % 2 == 0;
    let mut i: usize = 0;
    while i < n
        invariant
            i <= n == data.len(),
            digits == (forall|j: int| 0 <= j < i ==> is_digit(#[trigger] data@[j])),
            alnum == (forall|j: int| 0 <= j < i ==> is_alphanumeric(#[trigger] data@[j])),
            utf8 ==> i <= next <= n && is_utf8(data@) == is_utf8_from(data@, next as int),
            !utf8 ==> !is_utf8(data@),
            kanji == (n % 2 == 0 && forall|k: int|
                0 <= k && 2 * k < i ==> is_kanji_pair(#[trigger] data@[2 * k], data@[2 * k + 1])),
        decreases n - i,
    {
        let b = data[i];
        if b < 0x30 || b > 0x39 {
            digits = false;
        }
        if alphanumeric_code(b).is_none() {
            alnum = false;
        }
        if utf8 && i == next {
            let len = scalar_len(data, i);
            if len == 0 {
                utf8 = false;
            } else {
                next = i + len;
            }
        }
        if kanji && i % 2 == 0 {
            let lo = data[i + 1];
            let w: u32 = b as u32 * 256 + lo as u32;
            kanji = ((0x8140 <= w && w <= 0x9FFC) || (0xE040 <= w && w <= 0xEBBF)) && 0x40 <= lo
                && lo <= 0xFC && lo != 0x7F;
            proof {
                let k = i as int / 2;
                assert(kanji == is_kanji_pair(data@[2 * k], data@[2 * k + 1]));
            }
        }
        i += 1;
    }
    proof {
        if all_kanji(data@) {
            assert forall|k: int| 0 <= k && 2 * k < n implies is_kanji_pair(
                #[trigger] data@[2 * k],
                data@[2 * k + 1],
            ) by {
                assert(k < data@.len() / 2);
            }
        }
    }
    if digits {
        Ok(Mode::Numeric)
    } else if alnum {
        Ok(Mode::Alphanumeric)
    } else if utf8 || encoding == ByteEncoding::Latin1 {
        Ok(Mode::Byte)
    } else if allow_kanji && kanji {
        Ok(Mode::Kanji)
    } else {
        Err(EncodeError::UnsupportedCharacter)
    }
}

/// The number of characters that `data` holds when read in `mode`.
pub fn char_count(mode: Mode, data: &[u8]) -> (r: usize)
    ensures
        r == spec_char_count(mode, data@),
{
    match mode {
        Mode::Kanji => data.len() / 2,
        _ => data.len(),
    }
}

/// A string of digits, the empty one included, is classified as Numeric
/// whatever the configuration.
pub proof fn lemma_digits_are_numeric(data: Seq<u8>, encoding: ByteEncoding, allow_kanji: bool)
    requires
        all_digits(data),
    ensures
        spec_classify(data, encoding, allow_kanji) == Some(Mode::Numeric),
{
}

/// A string over the alphanumeric set that holds at least one character
/// other than a digit is classified as Alphanumeric, never as Numeric.
pub proof fn lemma_letters_are_alphanumeric(
    data: Seq<u8>,
    encoding: ByteEncoding,
    allow_kanji: bool,
    i: int,
)
    requires
        all_alphanumeric(data),
        0 <= i < data.len(),
        !is_digit(data[i]),
    ensures
        spec_classify(data, encoding, allow_kanji) == Some(Mode::Alphanumeric),
{
}

} // verus!
