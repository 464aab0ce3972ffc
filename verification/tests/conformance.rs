use qr_encoder::ecc::add_error_correction;
use qr_encoder::encode::encode;
use qr_encoder::encode::encode_data;
use qr_encoder::encode::EncodeConfig;
use qr_encoder::matrix::build_matrix;
use qr_encoder::matrix::Matrix;
use qr_encoder::mode::char_count;
use qr_encoder::mode::get_qr_mode;
use qr_encoder::tables::get_qr_data_capacity;
use qr_encoder::types::ByteEncoding;
use qr_encoder::types::ErrorCorrectionLevel;
use qr_encoder::types::Mode;
use qr_encoder::version::get_qr_version;
use qrcodegen::Mask;
use qrcodegen::QrCode;
use qrcodegen::QrCodeEcc;
use qrcodegen::QrSegment;
use qrcodegen::Version;

fn level_of(ecl: ErrorCorrectionLevel) -> QrCodeEcc {
    match ecl {
        ErrorCorrectionLevel::L => QrCodeEcc::Low,
        ErrorCorrectionLevel::M => QrCodeEcc::Medium,
        ErrorCorrectionLevel::Q => QrCodeEcc::Quartile,
        ErrorCorrectionLevel::H => QrCodeEcc::High,
    }
}

fn same_modules(ours: &Matrix, theirs: &QrCode) -> bool {
    if ours.side_length() as i32 != theirs.size() {
        return false;
    }
    let side = ours.side_length() as usize;
    for r in 0..side {
        for c in 0..side {
            if ours.is_dark(r, c) != theirs.get_module(c as i32, r as i32) {
                return false;
            }
        }
    }
    true
}

fn codewords_for(version: u32, ecl: ErrorCorrectionLevel) -> Vec<u8> {
    let n = get_qr_data_capacity(version, ecl).unwrap() as usize;
    let mut state: u32 = 0x2545_F491 ^ (version * 977) ^ (ecl.ordinal() as u32 * 7919);
    let mut out = Vec::with_capacity(n);
    for _ in 0..n {
        state = state.wrapping_mul(1_664_525).wrapping_add(1_013_904_223);
        out.push((state >> 24) as u8);
    }
    out
}

fn every_version_agrees(ecl: ErrorCorrectionLevel) {
    for version in 1..=40u32 {
        let data = codewords_for(version, ecl);
        let all = add_error_correction(&data, version, ecl).unwrap();
        let mask = ((version + ecl.ordinal() as u32) % 8) as u8;
        let ours = build_matrix(&all, version, ecl, mask).unwrap();
        let theirs = QrCode::encode_codewords(Version::new(version as u8), level_of(ecl), &data, Some(Mask::new(mask)));
        assert!(same_modules(&ours, &theirs), "version {} mask {}", version, mask);
    }
}

#[test]
fn symbols_of_every_version_agree_at_l() {
    every_version_agrees(ErrorCorrectionLevel::L);
}

#[test]
fn symbols_of_every_version_agree_at_m() {
    every_version_agrees(ErrorCorrectionLevel::M);
}

#[test]
fn symbols_of_every_version_agree_at_q() {
    every_version_agrees(ErrorCorrectionLevel::Q);
}

#[test]
fn symbols_of_every_version_agree_at_h() {
    every_version_agrees(ErrorCorrectionLevel::H);
}

#[test]
fn every_mask_agrees() {
    let ecl = ErrorCorrectionLevel::M;
    for version in [1u32, 7, 23].iter() {
        let data = codewords_for(*version, ecl);
        let all = add_error_correction(&data, *version, ecl).unwrap();
        for mask in 0..8u8 {
            let ours = build_matrix(&all, *version, ecl, mask).unwrap();
            let theirs = QrCode::encode_codewords(Version::new(*version as u8), level_of(ecl), &data, Some(Mask::new(mask)));
            assert!(same_modules(&ours, &theirs), "version {} mask {}", version, mask);
        }
    }
}

fn text_agrees(text: &str, ecl: ErrorCorrectionLevel) {
    let data = text.as_bytes();
    let mode = get_qr_mode(data, ByteEncoding::Utf8, false).unwrap();
    let segment = match mode {
        Mode::Numeric => QrSegment::make_numeric(text),
        Mode::Alphanumeric => QrSegment::make_alphanumeric(text),
        _ => QrSegment::make_bytes(data),
    };
    assert_eq!(segment.num_chars(), char_count(mode, data));
    let version = get_qr_version(char_count(mode, data), mode, ecl).unwrap();
    let words = encode_data(data, mode, ByteEncoding::Utf8, version, ecl).unwrap();
    let all = add_error_correction(&words, version, ecl).unwrap();
    let ours = build_matrix(&all, version, ecl, 2).unwrap();
    let theirs = QrCode::encode_segments_advanced(
        &[segment],
        level_of(ecl),
        Version::MIN,
        Version::MAX,
        Some(Mask::new(2)),
        false,
    )
    .unwrap();
    assert_eq!(theirs.version().value() as u32, version);
    assert!(same_modules(&ours, &theirs), "text {:?}", text);
}

#[test]
fn texts_of_every_mode_agree() {
    let levels = [
        ErrorCorrectionLevel::L,
        ErrorCorrectionLevel::M,
        ErrorCorrectionLevel::Q,
        ErrorCorrectionLevel::H,
    ];
    let digits: String = "3141592653589793238462643383279502884197169399375105820974944592".repeat(9);
    let upper: String = "THE QUICK BROWN FOX JUMPS OVER THE LAZY DOG $1.50 + 20% / 3:4 - *".repeat(6);
    let mixed: String = "Pack my box with five dozen liquor jugs; \u{e9}t\u{e9} \u{20ac}5 \u{1f600} ".repeat(5);
    for ecl in levels.iter() {
        for len in [0usize, 1, 2, 3, 16, 41, 42, 100, 255, 256, 500].iter() {
            text_agrees(&digits[..*len], *ecl);
        }
        for len in [1usize, 2, 11, 25, 26, 90, 300].iter() {
            text_agrees(&upper[..*len], *ecl);
        }
        text_agrees("Hello, QR Code World!", *ecl);
        text_agrees(&mixed, *ecl);
        text_agrees("a", *ecl);
    }
}

#[test]
fn hello_world_at_q_has_the_version_of_the_reference() {
    let theirs = QrCode::encode_segments_advanced(
        &[QrSegment::make_alphanumeric("HELLO WORLD")],
        QrCodeEcc::Quartile,
        Version::MIN,
        Version::MAX,
        None,
        false,
    )
    .unwrap();
    let ours = encode(b"HELLO WORLD", ErrorCorrectionLevel::Q, &EncodeConfig::new()).unwrap();
    assert_eq!(ours.version(), theirs.version().value() as u32);
    assert_eq!(ours.side_length() as i32, theirs.size());
    let words = encode_data(b"HELLO WORLD", Mode::Alphanumeric, ByteEncoding::Utf8, 1, ErrorCorrectionLevel::Q).unwrap();
    let all = add_error_correction(&words, 1, ErrorCorrectionLevel::Q).unwrap();
    let same_mask = build_matrix(&all, 1, ErrorCorrectionLevel::Q, theirs.mask().value()).unwrap();
    assert!(same_modules(&same_mask, &theirs));
}
