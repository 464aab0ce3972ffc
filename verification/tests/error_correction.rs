use qr_encoder::ecc::add_error_correction;
use qr_encoder::ecc::gf_mul;
use qr_encoder::ecc::interleave_blocks;
use qr_encoder::ecc::split_blocks;
use qr_encoder::ecc::CodewordBlock;
use qr_encoder::ecc::rs_divisor;
use qr_encoder::ecc::rs_remainder;
use qr_encoder::types::EncodeError;
use qr_encoder::types::ErrorCorrectionLevel;

#[test]
fn field_multiplication() {
    assert_eq!(gf_mul(0, 0), 0);
    assert_eq!(gf_mul(1, 1), 1);
    assert_eq!(gf_mul(2, 0x80), 0x1D);
    assert_eq!(gf_mul(3, 7), 9);
    assert_eq!(gf_mul(0x53, 0xCA), 143);
    assert_eq!(gf_mul(255, 255), 226);
    for x in 0..=255u8 {
        assert_eq!(gf_mul(x, 0), 0);
        assert_eq!(gf_mul(0, x), 0);
        assert_eq!(gf_mul(x, 1), x);
        assert_eq!(gf_mul(1, x), x);
    }
}

#[test]
fn field_multiplication_is_commutative_and_distributive() {
    let mut x = 0u32;
    while x < 256 {
        let mut y = 0u32;
        while y < 256 {
            let (a, b) = (x as u8, y as u8);
            assert_eq!(gf_mul(a, b), gf_mul(b, a));
            assert_eq!(gf_mul(a, b ^ 0x35), gf_mul(a, b) ^ gf_mul(a, 0x35));
            y += 3;
        }
        x += 5;
    }
}

#[test]
fn powers_of_two_run_through_the_whole_field() {
    let mut seen = [false; 256];
    let mut p = 1u8;
    for _ in 0..255 {
        assert!(!seen[p as usize]);
        seen[p as usize] = true;
        p = gf_mul(p, 2);
    }
    assert_eq!(p, 1);
    assert!(!seen[0]);
}

#[test]
fn generator_polynomials() {
    assert_eq!(rs_divisor(1), vec![1]);
    assert_eq!(rs_divisor(2), vec![3, 2]);
    assert_eq!(rs_divisor(7), vec![127, 122, 154, 164, 11, 68, 117]);
    assert_eq!(rs_divisor(10), vec![216, 194, 159, 111, 199, 94, 95, 113, 157, 193]);
    assert_eq!(rs_divisor(30).len(), 30);
}

#[test]
fn error_correction_of_hello_world_at_m() {
    let data = [32u8, 91, 11, 120, 209, 114, 220, 77, 67, 64, 236, 17, 236, 17, 236, 17];
    let ecc = rs_remainder(&data, &rs_divisor(10));
    assert_eq!(ecc, vec![196, 35, 39, 119, 235, 215, 231, 226, 93, 23]);
}

#[test]
fn error_correction_of_hello_world_at_q() {
    let data = [32u8, 91, 11, 120, 209, 114, 220, 77, 67, 64, 236, 17, 236];
    let ecc = rs_remainder(&data, &rs_divisor(13));
    assert_eq!(ecc, vec![168, 72, 22, 82, 217, 54, 156, 0, 46, 15, 180, 122, 16]);
}

#[test]
fn error_correction_of_the_standard_numeric_example() {
    let data = vec![0x10u8, 0x20, 0x0C, 0x56, 0x61, 0x80, 0xEC, 0x11, 0xEC, 0x11, 0xEC, 0x11, 0xEC, 0x11, 0xEC, 0x11];
    let all = add_error_correction(&data, 1, ErrorCorrectionLevel::M).unwrap();
    assert_eq!(&all[..16], &data[..]);
    assert_eq!(&all[16..], &[0xA5, 0x24, 0xD4, 0xC1, 0xED, 0x36, 0xC7, 0x87, 0x2C, 0x55]);
}

#[test]
fn remainder_of_nothing_is_zero() {
    assert_eq!(rs_remainder(&[], &rs_divisor(7)), vec![0; 7]);
    assert_eq!(rs_remainder(&[0, 0, 0], &rs_divisor(7)), vec![0; 7]);
}

#[test]
fn data_followed_by_its_remainder_divides_evenly() {
    let data = [1u8, 2, 3, 250, 100, 7, 7, 0, 19];
    let divisor = rs_divisor(17);
    let ecc = rs_remainder(&data, &divisor);
    let mut whole = data.to_vec();
    whole.extend_from_slice(&ecc);
    assert_eq!(rs_remainder(&whole, &divisor), vec![0; 17]);
}

#[test]
fn blocks_are_interleaved() {
    let data: Vec<u8> = vec![
        67, 4, 150, 231, 70, 87, 38, 198, 86, 23, 102, 150, 230, 114, 7, 55, 7, 38, 86, 22, 71, 50, 6, 86,
        22, 54, 130, 6, 38, 198, 246, 54, 178, 6, 247, 102, 87, 34, 7, 70, 134, 82, 7, 55, 150, 214, 38,
        246, 194, 224, 236, 17, 236, 17, 236, 17, 236, 17, 236, 17, 236, 17,
    ];
    let want: Vec<u8> = vec![
        67, 55, 246, 38, 4, 7, 54, 246, 150, 38, 178, 194, 231, 86, 6, 224, 70, 22, 247, 236, 87, 71, 102,
        17, 38, 50, 87, 236, 198, 6, 34, 17, 86, 86, 7, 236, 23, 22, 70, 17, 102, 54, 134, 236, 150, 130,
        82, 17, 230, 6, 7, 236, 114, 38, 55, 17, 7, 198, 150, 236, 214, 17, 109, 105, 178, 93, 3, 56, 76,
        238, 84, 216, 211, 255, 62, 158, 50, 188, 105, 126, 230, 89, 238, 40, 44, 181, 181, 75, 99, 42,
        39, 95, 191, 44, 159, 105, 246, 186, 105, 189, 100, 105, 50, 163, 251, 106, 119, 234, 155, 196,
        116, 207, 156, 236, 126, 173, 54, 24, 79, 184, 253, 158, 215, 43, 97, 188, 133, 190, 3, 118, 80,
        176, 187, 53,
    ];
    assert_eq!(add_error_correction(&data, 5, ErrorCorrectionLevel::Q), Ok(want));
}

#[test]
fn interleaving_keeps_every_data_codeword() {
    // version 5, level Q: blocks of 15, 15, 16 and 16 data codewords
    let data: Vec<u8> = (0..62u8).collect();
    let all = add_error_correction(&data, 5, ErrorCorrectionLevel::Q).unwrap();
    assert_eq!(all.len(), 134);
    assert_eq!(&all[..8], &[0, 15, 30, 46, 1, 16, 31, 47]);
    assert_eq!(&all[56..62], &[14, 29, 44, 60, 45, 61]);
    let mut seen: Vec<u8> = all[..62].to_vec();
    seen.sort();
    assert_eq!(seen, data);
}

#[test]
fn error_correction_rejects_wrong_sizes() {
    let data = vec![0u8; 15];
    assert_eq!(add_error_correction(&data, 1, ErrorCorrectionLevel::M), Err(EncodeError::InternalEncodingError));
    assert_eq!(add_error_correction(&vec![0u8; 17], 1, ErrorCorrectionLevel::M), Err(EncodeError::InternalEncodingError));
    assert_eq!(add_error_correction(&data, 0, ErrorCorrectionLevel::M), Err(EncodeError::InvalidVersion));
    assert_eq!(add_error_correction(&data, 41, ErrorCorrectionLevel::M), Err(EncodeError::InvalidVersion));
    assert!(add_error_correction(&vec![0u8; 16], 1, ErrorCorrectionLevel::M).is_ok());
}

#[test]
fn blocks_have_the_sizes_of_the_table() {
    let data: Vec<u8> = (0..62u8).collect();
    let blocks = split_blocks(&data, 5, ErrorCorrectionLevel::Q).unwrap();
    assert_eq!(blocks.len(), 4);
    let sizes: Vec<usize> = blocks.iter().map(|b| b.data.len()).collect();
    assert_eq!(sizes, vec![15, 15, 16, 16]);
    assert!(blocks.iter().all(|b| b.ecc.len() == 18));
    assert_eq!(blocks[0].data, (0..15u8).collect::<Vec<u8>>());
    assert_eq!(blocks[3].data, (46..62u8).collect::<Vec<u8>>());
    assert_eq!(blocks[2].ecc, rs_remainder(&data[30..46], &rs_divisor(18)));
    let woven = interleave_blocks(&blocks, 5, ErrorCorrectionLevel::Q).unwrap();
    assert_eq!(Ok(woven), add_error_correction(&data, 5, ErrorCorrectionLevel::Q));
}

#[test]
fn splitting_rejects_wrong_sizes() {
    assert_eq!(split_blocks(&vec![0u8; 61], 5, ErrorCorrectionLevel::Q).err(), Some(EncodeError::InternalEncodingError));
    assert_eq!(split_blocks(&vec![0u8; 62], 0, ErrorCorrectionLevel::Q).err(), Some(EncodeError::InvalidVersion));
    assert_eq!(split_blocks(&vec![0u8; 62], 41, ErrorCorrectionLevel::Q).err(), Some(EncodeError::InvalidVersion));
}

#[test]
fn interleaving_rejects_blocks_that_do_not_match_the_table() {
    let q = ErrorCorrectionLevel::Q;
    let block = |d: usize, e: usize| CodewordBlock { data: vec![1u8; d], ecc: vec![2u8; e] };
    let good = vec![block(15, 18), block(15, 18), block(16, 18), block(16, 18)];
    assert!(interleave_blocks(&good, 5, q).is_ok());
    assert_eq!(interleave_blocks(&good, 0, q), Err(EncodeError::InvalidVersion));
    assert_eq!(interleave_blocks(&good, 5, ErrorCorrectionLevel::H), Err(EncodeError::InternalEncodingError));
    let swapped = vec![block(16, 18), block(15, 18), block(15, 18), block(16, 18)];
    assert_eq!(interleave_blocks(&swapped, 5, q), Err(EncodeError::InternalEncodingError));
    let short_ecc = vec![block(15, 18), block(15, 17), block(16, 18), block(16, 18)];
    assert_eq!(interleave_blocks(&short_ecc, 5, q), Err(EncodeError::InternalEncodingError));
    let missing = vec![block(15, 18), block(15, 18), block(16, 18)];
    assert_eq!(interleave_blocks(&missing, 5, q), Err(EncodeError::InternalEncodingError));
    assert_eq!(interleave_blocks(&Vec::new(), 5, q), Err(EncodeError::InternalEncodingError));
}
