use qr_encoder::mode::alphanumeric_code;
use qr_encoder::mode::char_count;
use qr_encoder::mode::get_qr_mode;
use qr_encoder::mode::is_alphanumeric_text;
use qr_encoder::mode::is_kanji_text;
use qr_encoder::mode::is_numeric;
use qr_encoder::mode::is_valid_utf8;
use qr_encoder::mode::mode_accepts_data;
use qr_encoder::types::ByteEncoding;
use qr_encoder::types::EncodeError;
use qr_encoder::types::Mode;

#[test]
fn digits_are_numeric() {
    assert_eq!(get_qr_mode(b"0123456789", ByteEncoding::Utf8, false), Ok(Mode::Numeric));
    assert_eq!(get_qr_mode(b"7", ByteEncoding::Latin1, true), Ok(Mode::Numeric));
}

#[test]
fn empty_input_is_numeric() {
    assert_eq!(get_qr_mode(b"", ByteEncoding::Utf8, false), Ok(Mode::Numeric));
    assert_eq!(get_qr_mode(b"", ByteEncoding::Latin1, true), Ok(Mode::Numeric));
}

#[test]
fn upper_case_text_is_alphanumeric() {
    assert_eq!(get_qr_mode(b"HELLO WORLD", ByteEncoding::Utf8, false), Ok(Mode::Alphanumeric));
    assert_eq!(get_qr_mode(b"A1", ByteEncoding::Utf8, false), Ok(Mode::Alphanumeric));
    assert_eq!(get_qr_mode(b"12:30", ByteEncoding::Utf8, false), Ok(Mode::Alphanumeric));
    assert_eq!(get_qr_mode(b"$%*+-./: ", ByteEncoding::Utf8, false), Ok(Mode::Alphanumeric));
}

#[test]
fn lower_case_text_is_byte() {
    assert_eq!(get_qr_mode(b"Hello, QR Code World!", ByteEncoding::Utf8, false), Ok(Mode::Byte));
    assert_eq!(get_qr_mode(b"hello", ByteEncoding::Latin1, false), Ok(Mode::Byte));
    assert_eq!(get_qr_mode(b"A,B", ByteEncoding::Utf8, false), Ok(Mode::Byte));
}

#[test]
fn utf8_text_is_byte() {
    assert_eq!(get_qr_mode("h\u{e9}llo \u{20ac} \u{1f600}".as_bytes(), ByteEncoding::Utf8, false), Ok(Mode::Byte));
}

#[test]
fn malformed_utf8_is_unsupported() {
    assert_eq!(
        get_qr_mode(&[0x68, 0xE9, 0x6C], ByteEncoding::Utf8, false),
        Err(EncodeError::UnsupportedCharacter)
    );
    assert_eq!(get_qr_mode(&[0x68, 0xE9, 0x6C], ByteEncoding::Latin1, false), Ok(Mode::Byte));
}

#[test]
fn kanji_is_chosen_only_when_allowed_and_byte_fails() {
    let text = [0x93u8, 0x5F, 0xE4, 0xAA];
    assert_eq!(get_qr_mode(&text, ByteEncoding::Utf8, true), Ok(Mode::Kanji));
    assert_eq!(get_qr_mode(&text, ByteEncoding::Utf8, false), Err(EncodeError::UnsupportedCharacter));
    assert_eq!(get_qr_mode(&text, ByteEncoding::Latin1, true), Ok(Mode::Byte));
}

#[test]
fn utf8_validation_follows_the_well_formed_table() {
    assert!(is_valid_utf8(b""));
    assert!(is_valid_utf8(b"plain"));
    assert!(is_valid_utf8(&[0xC2, 0x80]));
    assert!(is_valid_utf8(&[0xE0, 0xA0, 0x80]));
    assert!(is_valid_utf8(&[0xED, 0x9F, 0xBF]));
    assert!(is_valid_utf8(&[0xF0, 0x90, 0x80, 0x80]));
    assert!(is_valid_utf8(&[0xF4, 0x8F, 0xBF, 0xBF]));
    // over-long forms
    assert!(!is_valid_utf8(&[0xC0, 0x80]));
    assert!(!is_valid_utf8(&[0xC1, 0xBF]));
    assert!(!is_valid_utf8(&[0xE0, 0x9F, 0xBF]));
    assert!(!is_valid_utf8(&[0xF0, 0x8F, 0xBF, 0xBF]));
    // surrogates and values past U+10FFFF
    assert!(!is_valid_utf8(&[0xED, 0xA0, 0x80]));
    assert!(!is_valid_utf8(&[0xF4, 0x90, 0x80, 0x80]));
    assert!(!is_valid_utf8(&[0xF5, 0x80, 0x80, 0x80]));
    // truncated and stray bytes
    assert!(!is_valid_utf8(&[0xC2]));
    assert!(!is_valid_utf8(&[0xE2, 0x82]));
    assert!(!is_valid_utf8(&[0x80]));
    assert!(!is_valid_utf8(&[0x41, 0xFF]));
}

#[test]
fn utf8_validation_agrees_with_the_standard_library() {
    let samples: [&[u8]; 8] = [
        b"abc",
        &[0xCE, 0xBA, 0xE1, 0xBD, 0xB9],
        &[0xE2, 0x82, 0xAC, 0x20],
        &[0xF0, 0x9F, 0x98, 0x80],
        &[0xE2, 0x28, 0xA1],
        &[0xF0, 0x28, 0x8C, 0xBC],
        &[0xC3, 0x28],
        &[0xEF, 0xBF, 0xBD, 0xEF],
    ];
    for s in samples.iter() {
        assert_eq!(is_valid_utf8(s), std::str::from_utf8(s).is_ok());
    }
}

#[test]
fn character_set_predicates() {
    assert!(is_numeric(b"0099"));
    assert!(!is_numeric(b"00a9"));
    assert!(!is_numeric(b"0/"));
    assert!(!is_numeric(b":0"));
    assert!(is_alphanumeric_text(b"AZ09 $%*+-./:"));
    assert!(!is_alphanumeric_text(b"az"));
    assert!(!is_alphanumeric_text(b"A,"));
    assert!(!is_alphanumeric_text(b"#"));
    assert!(is_kanji_text(&[0x81, 0x40, 0x9F, 0xFC, 0xE0, 0x40, 0xEB, 0xBF]));
    assert!(!is_kanji_text(&[0x81, 0x3F]));
    assert!(!is_kanji_text(&[0x81, 0x7F]));
    assert!(!is_kanji_text(&[0xEB, 0xC0]));
    assert!(!is_kanji_text(&[0xA0, 0x40]));
    assert!(!is_kanji_text(&[0x93]));
    assert!(is_kanji_text(&[]));
}

#[test]
fn alphanumeric_values() {
    assert_eq!(alphanumeric_code(b'0'), Some(0));
    assert_eq!(alphanumeric_code(b'9'), Some(9));
    assert_eq!(alphanumeric_code(b'A'), Some(10));
    assert_eq!(alphanumeric_code(b'Z'), Some(35));
    assert_eq!(alphanumeric_code(b' '), Some(36));
    assert_eq!(alphanumeric_code(b'$'), Some(37));
    assert_eq!(alphanumeric_code(b'%'), Some(38));
    assert_eq!(alphanumeric_code(b'*'), Some(39));
    assert_eq!(alphanumeric_code(b'+'), Some(40));
    assert_eq!(alphanumeric_code(b'-'), Some(41));
    assert_eq!(alphanumeric_code(b'.'), Some(42));
    assert_eq!(alphanumeric_code(b'/'), Some(43));
    assert_eq!(alphanumeric_code(b':'), Some(44));
    assert_eq!(alphanumeric_code(b'a'), None);
    assert_eq!(alphanumeric_code(b','), None);
}

#[test]
fn mode_acceptance_and_character_counts() {
    assert!(mode_accepts_data(Mode::Byte, b"123", ByteEncoding::Utf8));
    assert!(mode_accepts_data(Mode::Alphanumeric, b"123", ByteEncoding::Utf8));
    assert!(!mode_accepts_data(Mode::Numeric, b"12A", ByteEncoding::Utf8));
    assert!(!mode_accepts_data(Mode::Kanji, b"123", ByteEncoding::Utf8));
    assert_eq!(char_count(Mode::Byte, b"12345"), 5);
    assert_eq!(char_count(Mode::Numeric, b"12345"), 5);
    assert_eq!(char_count(Mode::Kanji, &[0x93, 0x5F, 0xE4, 0xAA]), 2);
    assert_eq!(Mode::Numeric.indicator(), 1);
    assert_eq!(Mode::Alphanumeric.indicator(), 2);
    assert_eq!(Mode::Byte.indicator(), 4);
    assert_eq!(Mode::Kanji.indicator(), 8);
}
