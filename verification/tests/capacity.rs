use qr_encoder::tables::ecc_codewords_per_block;
use qr_encoder::tables::get_qr_data_capacity;
use qr_encoder::tables::num_blocks;
use qr_encoder::tables::raw_data_modules;
use qr_encoder::tables::side_length;
use qr_encoder::tables::total_codewords;
use qr_encoder::types::EncodeError;
use qr_encoder::types::ErrorCorrectionLevel;
use qr_encoder::types::Mode;
use qr_encoder::version::count_bits;
use qr_encoder::version::count_limit;
use qr_encoder::version::fits_version;
use qr_encoder::version::get_qr_version;
use qr_encoder::version::mode_capacity;
use qr_encoder::version::payload_bits;

const LEVELS: [ErrorCorrectionLevel; 4] = [
    ErrorCorrectionLevel::L,
    ErrorCorrectionLevel::M,
    ErrorCorrectionLevel::Q,
    ErrorCorrectionLevel::H,
];

const PUBLISHED: [[u32; 4]; 40] = [
    [19, 16, 13, 9], [34, 28, 22, 16], [55, 44, 34, 26], [80, 64, 48, 36],
    [108, 86, 62, 46], [136, 108, 76, 60], [156, 124, 88, 66], [194, 154, 110, 86],
    [232, 182, 132, 100], [274, 216, 154, 122], [324, 254, 180, 140], [370, 290, 206, 158],
    [428, 334, 244, 180], [461, 365, 261, 197], [523, 415, 295, 223], [589, 453, 325, 253],
    [647, 507, 367, 283], [721, 563, 397, 313], [795, 627, 445, 341], [861, 669, 485, 385],
    [932, 714, 512, 406], [1006, 782, 568, 442], [1094, 860, 614, 464], [1174, 914, 664, 514],
    [1276, 1000, 718, 538], [1370, 1062, 754, 596], [1468, 1128, 808, 628], [1531, 1193, 871, 661],
    [1631, 1267, 911, 701], [1735, 1373, 985, 745], [1843, 1455, 1033, 793], [1955, 1541, 1115, 845],
    [2071, 1631, 1171, 901], [2191, 1725, 1231, 961], [2306, 1812, 1286, 986], [2434, 1914, 1354, 1054],
    [2566, 1992, 1426, 1096], [2702, 2102, 1502, 1142], [2812, 2216, 1582, 1222], [2956, 2334, 1666, 1276],
];

#[test]
fn capacity_reproduces_the_published_table() {
    for v in 1..=40u32 {
        for (k, ecl) in LEVELS.iter().enumerate() {
            assert_eq!(get_qr_data_capacity(v, *ecl), Ok(PUBLISHED[(v - 1) as usize][k]));
        }
    }
}

#[test]
fn capacity_rejects_versions_outside_the_range() {
    assert_eq!(get_qr_data_capacity(0, ErrorCorrectionLevel::L), Err(EncodeError::InvalidVersion));
    assert_eq!(get_qr_data_capacity(41, ErrorCorrectionLevel::H), Err(EncodeError::InvalidVersion));
    assert_eq!(get_qr_data_capacity(u32::MAX, ErrorCorrectionLevel::M), Err(EncodeError::InvalidVersion));
}

#[test]
fn capacity_falls_with_rising_redundancy() {
    for v in 1..=40u32 {
        let l = get_qr_data_capacity(v, ErrorCorrectionLevel::L).unwrap();
        let m = get_qr_data_capacity(v, ErrorCorrectionLevel::M).unwrap();
        let q = get_qr_data_capacity(v, ErrorCorrectionLevel::Q).unwrap();
        let h = get_qr_data_capacity(v, ErrorCorrectionLevel::H).unwrap();
        assert!(l > m && m > q && q > h);
    }
}

#[test]
fn structure_of_chosen_versions() {
    assert_eq!(side_length(1), 21);
    assert_eq!(side_length(40), 177);
    assert_eq!(raw_data_modules(1), 208);
    assert_eq!(raw_data_modules(2), 359);
    assert_eq!(raw_data_modules(7), 1568);
    assert_eq!(raw_data_modules(40), 29648);
    assert_eq!(total_codewords(1), 26);
    assert_eq!(total_codewords(5), 134);
    assert_eq!(total_codewords(40), 3706);
    assert_eq!(ecc_codewords_per_block(ErrorCorrectionLevel::Q, 5), 18);
    assert_eq!(num_blocks(ErrorCorrectionLevel::Q, 5), 4);
    assert_eq!(ecc_codewords_per_block(ErrorCorrectionLevel::H, 40), 30);
    assert_eq!(num_blocks(ErrorCorrectionLevel::H, 40), 81);
    assert_eq!(ErrorCorrectionLevel::L.ordinal(), 0);
    assert_eq!(ErrorCorrectionLevel::H.ordinal(), 3);
}

#[test]
fn count_indicator_width_changes_with_the_tier() {
    assert_eq!(count_bits(Mode::Numeric, 9), 10);
    assert_eq!(count_bits(Mode::Numeric, 10), 12);
    assert_eq!(count_bits(Mode::Numeric, 27), 14);
    assert_eq!(count_bits(Mode::Alphanumeric, 1), 9);
    assert_eq!(count_bits(Mode::Alphanumeric, 26), 11);
    assert_eq!(count_bits(Mode::Alphanumeric, 40), 13);
    assert_eq!(count_bits(Mode::Byte, 9), 8);
    assert_eq!(count_bits(Mode::Byte, 10), 16);
    assert_eq!(count_bits(Mode::Byte, 40), 16);
    assert_eq!(count_bits(Mode::Kanji, 9), 8);
    assert_eq!(count_bits(Mode::Kanji, 26), 10);
    assert_eq!(count_bits(Mode::Kanji, 27), 12);
    assert_eq!(count_limit(Mode::Byte, 1), 256);
    assert_eq!(count_limit(Mode::Byte, 10), 65536);
    assert_eq!(count_limit(Mode::Numeric, 40), 16384);
}

#[test]
fn payload_bit_counts() {
    assert_eq!(payload_bits(Mode::Numeric, 0), 0);
    assert_eq!(payload_bits(Mode::Numeric, 1), 4);
    assert_eq!(payload_bits(Mode::Numeric, 2), 7);
    assert_eq!(payload_bits(Mode::Numeric, 3), 10);
    assert_eq!(payload_bits(Mode::Numeric, 8), 27);
    assert_eq!(payload_bits(Mode::Alphanumeric, 11), 61);
    assert_eq!(payload_bits(Mode::Alphanumeric, 2), 11);
    assert_eq!(payload_bits(Mode::Byte, 21), 168);
    assert_eq!(payload_bits(Mode::Kanji, 2), 26);
}

#[test]
fn version_selection_meets_the_published_character_capacities() {
    let l = ErrorCorrectionLevel::L;
    assert_eq!(get_qr_version(41, Mode::Numeric, l), Ok(1));
    assert_eq!(get_qr_version(42, Mode::Numeric, l), Ok(2));
    assert_eq!(get_qr_version(25, Mode::Alphanumeric, l), Ok(1));
    assert_eq!(get_qr_version(26, Mode::Alphanumeric, l), Ok(2));
    assert_eq!(get_qr_version(17, Mode::Byte, l), Ok(1));
    assert_eq!(get_qr_version(18, Mode::Byte, l), Ok(2));
    assert_eq!(get_qr_version(10, Mode::Kanji, l), Ok(1));
    assert_eq!(get_qr_version(11, Mode::Kanji, l), Ok(2));
    assert_eq!(get_qr_version(7089, Mode::Numeric, l), Ok(40));
    assert_eq!(get_qr_version(4296, Mode::Alphanumeric, l), Ok(40));
    assert_eq!(get_qr_version(2953, Mode::Byte, l), Ok(40));
    assert_eq!(get_qr_version(1817, Mode::Kanji, l), Ok(40));
    assert_eq!(get_qr_version(3057, Mode::Numeric, ErrorCorrectionLevel::H), Ok(40));
    assert_eq!(get_qr_version(0, Mode::Numeric, ErrorCorrectionLevel::H), Ok(1));
}

#[test]
fn version_selection_fails_past_the_largest_symbol() {
    let l = ErrorCorrectionLevel::L;
    assert_eq!(get_qr_version(7090, Mode::Numeric, l), Err(EncodeError::DataTooLong));
    assert_eq!(get_qr_version(4297, Mode::Alphanumeric, l), Err(EncodeError::DataTooLong));
    assert_eq!(get_qr_version(2954, Mode::Byte, l), Err(EncodeError::DataTooLong));
    assert_eq!(get_qr_version(1818, Mode::Kanji, l), Err(EncodeError::DataTooLong));
    assert_eq!(get_qr_version(3058, Mode::Numeric, ErrorCorrectionLevel::H), Err(EncodeError::DataTooLong));
    assert_eq!(get_qr_version(usize::MAX, Mode::Kanji, l), Err(EncodeError::DataTooLong));
}

#[test]
fn version_selection_accounts_for_the_wider_count_at_version_ten() {
    // Version 9 has 1856 data bits and an 8-bit count: 230 bytes fit.
    // Version 10 has 2192 data bits and a 16-bit count: 271 bytes fit.
    assert_eq!(get_qr_version(230, Mode::Byte, ErrorCorrectionLevel::L), Ok(9));
    assert_eq!(get_qr_version(231, Mode::Byte, ErrorCorrectionLevel::L), Ok(10));
    assert_eq!(get_qr_version(271, Mode::Byte, ErrorCorrectionLevel::L), Ok(10));
    assert_eq!(get_qr_version(272, Mode::Byte, ErrorCorrectionLevel::L), Ok(11));
}

#[test]
fn version_selection_is_monotonic_in_the_length() {
    for ecl in LEVELS.iter() {
        for mode in [Mode::Numeric, Mode::Alphanumeric, Mode::Byte, Mode::Kanji].iter() {
            let mut last = 1u32;
            let mut failed = false;
            let mut len = 0usize;
            while len < 7200 {
                match get_qr_version(len, *mode, *ecl) {
                    Ok(v) => {
                        assert!(!failed);
                        assert!(v >= last);
                        assert!(fits_version(*mode, len, *ecl, v));
                        assert!(v == 1 || !fits_version(*mode, len, *ecl, v - 1));
                        last = v;
                    }
                    Err(e) => {
                        assert_eq!(e, EncodeError::DataTooLong);
                        failed = true;
                    }
                }
                len += 7;
            }
            assert!(failed);
        }
    }
}

#[test]
fn character_capacities_are_the_published_ones() {
    let l = ErrorCorrectionLevel::L;
    let m = ErrorCorrectionLevel::M;
    let h = ErrorCorrectionLevel::H;
    assert_eq!(mode_capacity(Mode::Numeric, 1, l), Ok(41));
    assert_eq!(mode_capacity(Mode::Alphanumeric, 1, l), Ok(25));
    assert_eq!(mode_capacity(Mode::Byte, 1, l), Ok(17));
    assert_eq!(mode_capacity(Mode::Kanji, 1, l), Ok(10));
    assert_eq!(mode_capacity(Mode::Numeric, 1, h), Ok(17));
    assert_eq!(mode_capacity(Mode::Alphanumeric, 1, h), Ok(10));
    assert_eq!(mode_capacity(Mode::Byte, 1, h), Ok(7));
    assert_eq!(mode_capacity(Mode::Kanji, 1, h), Ok(4));
    assert_eq!(mode_capacity(Mode::Numeric, 10, m), Ok(513));
    assert_eq!(mode_capacity(Mode::Alphanumeric, 10, m), Ok(311));
    assert_eq!(mode_capacity(Mode::Byte, 10, m), Ok(213));
    assert_eq!(mode_capacity(Mode::Kanji, 10, m), Ok(131));
    assert_eq!(mode_capacity(Mode::Numeric, 40, l), Ok(7089));
    assert_eq!(mode_capacity(Mode::Alphanumeric, 40, l), Ok(4296));
    assert_eq!(mode_capacity(Mode::Byte, 40, l), Ok(2953));
    assert_eq!(mode_capacity(Mode::Kanji, 40, l), Ok(1817));
    assert_eq!(mode_capacity(Mode::Numeric, 40, h), Ok(3057));
    assert_eq!(mode_capacity(Mode::Alphanumeric, 40, h), Ok(1852));
    assert_eq!(mode_capacity(Mode::Byte, 40, h), Ok(1273));
    assert_eq!(mode_capacity(Mode::Kanji, 40, h), Ok(784));
    assert_eq!(mode_capacity(Mode::Byte, 0, l), Err(EncodeError::InvalidVersion));
    assert_eq!(mode_capacity(Mode::Byte, 41, l), Err(EncodeError::InvalidVersion));
}

#[test]
fn a_segment_fits_exactly_up_to_the_capacity() {
    for ecl in LEVELS.iter() {
        for mode in [Mode::Numeric, Mode::Alphanumeric, Mode::Byte, Mode::Kanji].iter() {
            for v in 1..=40u32 {
                let cap = mode_capacity(*mode, v, *ecl).unwrap() as usize;
                assert!(fits_version(*mode, cap, *ecl, v));
                assert!(!fits_version(*mode, cap + 1, *ecl, v));
                assert!(fits_version(*mode, 0, *ecl, v));
            }
        }
    }
}
