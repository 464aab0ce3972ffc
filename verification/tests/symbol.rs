use qr_encoder::encode::build_symbol;
use qr_encoder::encode::choose_mode;
use qr_encoder::encode::choose_version;
use qr_encoder::encode::encode;
use qr_encoder::encode::EncodeConfig;
use qr_encoder::layout::alignment_count;
use qr_encoder::layout::alignment_position;
use qr_encoder::layout::format_bits;
use qr_encoder::layout::function_module;
use qr_encoder::layout::mask_bit;
use qr_encoder::layout::step_cell;
use qr_encoder::layout::step_of;
use qr_encoder::layout::version_bits;
use qr_encoder::matrix::build_matrix;
use qr_encoder::matrix::data_index_table;
use qr_encoder::matrix::Matrix;
use qr_encoder::penalty::penalty_score;
use qr_encoder::tables::raw_data_modules;
use qr_encoder::types::ByteEncoding;
use qr_encoder::types::EncodeError;
use qr_encoder::types::ErrorCorrectionLevel;
use qr_encoder::types::Mode;
use qr_encoder::types::Module;

fn rows_of(m: &Matrix) -> Vec<String> {
    let side = m.side_length();
    (0..side)
        .map(|r| (0..side).map(|c| if m.module_at(r, c) == Module::Dark { '#' } else { '.' }).collect())
        .collect()
}

fn fingerprint(m: &Matrix) -> u64 {
    let side = m.side_length() as usize;
    let mut h: u64 = 0xcbf29ce484222325;
    for r in 0..side {
        for c in 0..side {
            h ^= if m.is_dark(r, c) { 1 } else { 0 };
            h = h.wrapping_mul(0x100000001b3);
        }
    }
    h
}

fn finder_is_at(m: &Matrix, top: u32, left: u32) -> bool {
    let rows = ["#######", "#.....#", "#.###.#", "#.###.#", "#.###.#", "#.....#", "#######"];
    for (r, row) in rows.iter().enumerate() {
        for (c, ch) in row.chars().enumerate() {
            let dark = m.module_at(top + r as u32, left + c as u32) == Module::Dark;
            if dark != (ch == '#') {
                return false;
            }
        }
    }
    true
}

fn config() -> EncodeConfig {
    EncodeConfig::new()
}

const HELLO_WORLD_Q: [&str; 21] = [
    "#######....#..#######",
    "#.....#.##..#.#.....#",
    "#.###.#..#.##.#.###.#",
    "#.###.#.#####.#.###.#",
    "#.###.#.##.#..#.###.#",
    "#.....#..#..#.#.....#",
    "#######.#.#.#.#######",
    "........##.##........",
    ".#.####.##..###.##.#.",
    "#.####.#....####.###.",
    "..#.#.##...#..##.....",
    "#.##.#...#.##...##...",
    "##.########.###.#####",
    "........#...#..#.#...",
    "#######..##..##..####",
    "#.....#.#.#..#..#.###",
    "#.###.#.##.#..#...###",
    "#.###.#.#.###...#.#..",
    "#.###.#..#....#....##",
    "#.....#.###..###..##.",
    "#######..#.#.......#.",
];

#[test]
fn hello_world_at_q() {
    let data = b"HELLO WORLD";
    let cfg = config();
    assert_eq!(choose_mode(data, &cfg), Ok(Mode::Alphanumeric));
    assert_eq!(choose_version(Mode::Alphanumeric, 11, ErrorCorrectionLevel::Q, &cfg), Ok(1));
    let m = encode(data, ErrorCorrectionLevel::Q, &cfg).unwrap();
    assert_eq!(m.version(), 1);
    assert_eq!(m.side_length(), 21);
    assert!(finder_is_at(&m, 0, 0));
    assert!(finder_is_at(&m, 0, 14));
    assert!(finder_is_at(&m, 14, 0));
    assert!(!finder_is_at(&m, 14, 14));
    let rows = rows_of(&m);
    for r in 0..21 {
        assert_eq!(rows[r], HELLO_WORLD_Q[r]);
    }
}

#[test]
fn hello_world_mask_scores() {
    let words: Vec<u8> = vec![
        32, 91, 11, 120, 209, 114, 220, 77, 67, 64, 236, 17, 236, 168, 72, 22, 82, 217, 54, 156, 0, 46,
        15, 180, 122, 16,
    ];
    let want = [347u32, 470, 506, 441, 539, 516, 314, 558];
    for mask in 0..8u8 {
        let m = build_matrix(&words, 1, ErrorCorrectionLevel::Q, mask).unwrap();
        assert_eq!(penalty_score(&m), want[mask as usize]);
    }
    let (m, mask) = build_symbol(&words, 1, ErrorCorrectionLevel::Q).unwrap();
    assert_eq!(mask, 6);
    assert_eq!(penalty_score(&m), 314);
    let (again, mask_again) = build_symbol(&words, 1, ErrorCorrectionLevel::Q).unwrap();
    assert_eq!(mask_again, 6);
    assert_eq!(rows_of(&again), rows_of(&m));
}

#[test]
fn mask_index_wraps_at_eight() {
    let words: Vec<u8> = (0..26u8).collect();
    let a = build_matrix(&words, 1, ErrorCorrectionLevel::L, 3).unwrap();
    let b = build_matrix(&words, 1, ErrorCorrectionLevel::L, 11).unwrap();
    assert_eq!(rows_of(&a), rows_of(&b));
    let c = build_matrix(&words, 1, ErrorCorrectionLevel::L, 4).unwrap();
    assert_ne!(rows_of(&a), rows_of(&c));
}

#[test]
fn the_greeting_of_the_command_line() {
    let m = encode(b"Hello, QR Code World!", ErrorCorrectionLevel::L, &config()).unwrap();
    assert_eq!(m.version(), 2);
    assert_eq!(m.side_length(), 25);
    assert_eq!(fingerprint(&m), 0x1cb046a95f08b2eb);
}

#[test]
fn a_symbol_with_version_information() {
    let text = b"The quick brown fox jumps over the lazy dog. 0123456789 ABCDEFGHIJ";
    let m = encode(text, ErrorCorrectionLevel::H, &config()).unwrap();
    assert_eq!(m.version(), 8);
    assert_eq!(m.side_length(), 49);
    assert_eq!(fingerprint(&m), 0xb6eef55bc9a11e7b);
    assert!(finder_is_at(&m, 0, 0));
    assert!(finder_is_at(&m, 0, 42));
    assert!(finder_is_at(&m, 42, 0));
    // alignment pattern centred at (24, 24)
    assert_eq!(m.module_at(24, 24), Module::Dark);
    assert_eq!(m.module_at(23, 24), Module::Light);
    assert_eq!(m.module_at(22, 22), Module::Dark);
    // timing pattern
    assert_eq!(m.module_at(6, 8), Module::Dark);
    assert_eq!(m.module_at(6, 9), Module::Light);
    assert_eq!(m.module_at(10, 6), Module::Dark);
    // the module that is always dark
    assert_eq!(m.module_at(41, 8), Module::Dark);
}

#[test]
fn boundary_of_the_largest_symbol() {
    let text = vec![b'a'; 2954];
    let cfg = config();
    let m = encode(&text[..2953], ErrorCorrectionLevel::L, &cfg).unwrap();
    assert_eq!(m.version(), 40);
    assert_eq!(m.side_length(), 177);
    assert_eq!(fingerprint(&m), 0x78e712a7310d342e);
    assert_eq!(encode(&text, ErrorCorrectionLevel::L, &cfg).err(), Some(EncodeError::DataTooLong));
}

#[test]
fn forced_version() {
    let mut cfg = config();
    cfg.forced_version = Some(10);
    let text = b"01234567890123456789012345678901234567890123456789";
    let m = encode(text, ErrorCorrectionLevel::M, &cfg).unwrap();
    assert_eq!(m.version(), 10);
    assert_eq!(fingerprint(&m), 0x34552df61eef8c93);
    cfg.forced_version = Some(1);
    assert_eq!(encode(text, ErrorCorrectionLevel::M, &cfg).err(), Some(EncodeError::DataTooLong));
    cfg.forced_version = Some(0);
    assert_eq!(encode(text, ErrorCorrectionLevel::M, &cfg).err(), Some(EncodeError::InvalidVersion));
    cfg.forced_version = Some(41);
    assert_eq!(encode(text, ErrorCorrectionLevel::M, &cfg).err(), Some(EncodeError::InvalidVersion));
    assert_eq!(choose_version(Mode::Numeric, 50, ErrorCorrectionLevel::M, &cfg), Err(EncodeError::InvalidVersion));
}

#[test]
fn forced_mode() {
    let mut cfg = config();
    cfg.forced_mode = Some(Mode::Kanji);
    let m = encode(&[0x93, 0x5F, 0xE4, 0xAA], ErrorCorrectionLevel::M, &cfg).unwrap();
    assert_eq!(m.version(), 1);
    assert_eq!(fingerprint(&m), 0x7372496ccf4627d5);
    cfg.forced_mode = Some(Mode::Numeric);
    assert_eq!(encode(b"12A", ErrorCorrectionLevel::M, &cfg).err(), Some(EncodeError::UnsupportedCharacter));
    assert_eq!(choose_mode(b"12A", &cfg), Err(EncodeError::UnsupportedCharacter));
    cfg.forced_mode = Some(Mode::Byte);
    assert_eq!(choose_mode(b"123", &cfg), Ok(Mode::Byte));
    // an unsupported input is reported before an invalid version
    cfg.forced_mode = Some(Mode::Alphanumeric);
    cfg.forced_version = Some(99);
    assert_eq!(encode(b"abc", ErrorCorrectionLevel::M, &cfg).err(), Some(EncodeError::UnsupportedCharacter));
}

#[test]
fn byte_encoding_decides_what_byte_mode_accepts() {
    let mut cfg = config();
    let latin = [0x63u8, 0x61, 0x66, 0xE9];
    assert_eq!(encode(&latin, ErrorCorrectionLevel::M, &cfg).err(), Some(EncodeError::UnsupportedCharacter));
    cfg.byte_encoding = ByteEncoding::Latin1;
    let m = encode(&latin, ErrorCorrectionLevel::M, &cfg).unwrap();
    assert_eq!(m.version(), 1);
}

#[test]
fn empty_input_gives_the_smallest_symbol() {
    let m = encode(b"", ErrorCorrectionLevel::H, &config()).unwrap();
    assert_eq!(m.version(), 1);
    assert!(finder_is_at(&m, 0, 0));
}

#[test]
fn modules_outside_the_symbol_are_light() {
    let m = encode(b"1", ErrorCorrectionLevel::L, &config()).unwrap();
    assert_eq!(m.module_at(0, 0), Module::Dark);
    assert_eq!(m.module_at(21, 0), Module::Light);
    assert_eq!(m.module_at(0, 21), Module::Light);
    assert_eq!(m.module_at(u32::MAX, u32::MAX), Module::Light);
    assert!(!m.is_dark(21, 21));
}

#[test]
fn format_and_version_information() {
    assert_eq!(format_bits(ErrorCorrectionLevel::M, 0), 0x5412);
    assert_eq!(format_bits(ErrorCorrectionLevel::L, 0), 0x77C4);
    assert_eq!(format_bits(ErrorCorrectionLevel::Q, 5), 0x2183);
    assert_eq!(format_bits(ErrorCorrectionLevel::H, 7), 0x083B);
    assert_eq!(format_bits(ErrorCorrectionLevel::H, 15), 0x083B);
    assert_eq!(version_bits(7), 0x07C94);
    assert_eq!(version_bits(40), 0x28C69);
    assert_eq!(ErrorCorrectionLevel::L.format_bits(), 1);
    assert_eq!(ErrorCorrectionLevel::M.format_bits(), 0);
    assert_eq!(ErrorCorrectionLevel::Q.format_bits(), 3);
    assert_eq!(ErrorCorrectionLevel::H.format_bits(), 2);
}

#[test]
fn alignment_coordinates() {
    assert_eq!(alignment_count(1), 0);
    assert_eq!(alignment_count(2), 2);
    assert_eq!(alignment_position(2, 0), 6);
    assert_eq!(alignment_position(2, 1), 18);
    let v32: Vec<usize> = (0..alignment_count(32)).map(|i| alignment_position(32, i)).collect();
    assert_eq!(v32, vec![6, 34, 60, 86, 112, 138]);
    let v36: Vec<usize> = (0..alignment_count(36)).map(|i| alignment_position(36, i)).collect();
    assert_eq!(v36, vec![6, 24, 50, 76, 102, 128, 154]);
    let v40: Vec<usize> = (0..alignment_count(40)).map(|i| alignment_position(40, i)).collect();
    assert_eq!(v40, vec![6, 30, 58, 86, 114, 142, 170]);
}

#[test]
fn mask_patterns() {
    let want: [[&str; 6]; 8] = [
        ["#.#.#.", ".#.#.#", "#.#.#.", ".#.#.#", "#.#.#.", ".#.#.#"],
        ["######", "......", "######", "......", "######", "......"],
        ["#..#..", "#..#..", "#..#..", "#..#..", "#..#..", "#..#.."],
        ["#..#..", "..#..#", ".#..#.", "#..#..", "..#..#", ".#..#."],
        ["###...", "###...", "...###", "...###", "###...", "###..."],
        ["######", "#.....", "#..#..", "#.#.#.", "#..#..", "#....."],
        ["######", "###...", "##.##.", "#.#.#.", "#.##.#", "#...##"],
        ["#.#.#.", "...###", "#...##", ".#.#.#", "###...", ".###.."],
    ];
    for mask in 0..8u8 {
        for r in 0..6usize {
            let row: String = (0..6usize).map(|c| if mask_bit(mask, r, c) { '#' } else { '.' }).collect();
            assert_eq!(row, want[mask as usize][r]);
        }
    }
}

#[test]
fn fill_order_visits_every_module_off_column_six_once() {
    for side in [21usize, 25, 45, 177].iter() {
        let steps = side * (side - 1);
        let mut seen = vec![false; side * side];
        for t in 0..steps {
            let (r, c) = step_cell(*side, t);
            assert!(c != 6);
            assert!(!seen[r * side + c]);
            seen[r * side + c] = true;
            assert_eq!(step_of(*side, r, c), t);
        }
    }
    assert_eq!(step_cell(21, 0), (20, 20));
    assert_eq!(step_cell(21, 1), (20, 19));
    assert_eq!(step_cell(21, 2), (19, 20));
    assert_eq!(step_cell(21, 42), (0, 18));
    assert_eq!(step_cell(21, 21 * 20 - 1), (20, 0));
}

#[test]
fn data_modules_match_the_codeword_count() {
    for v in 1..=40u32 {
        let v = &v;
        let side = (17 + 4 * v) as usize;
        let table = data_index_table(*v);
        assert_eq!(table.len(), side * (side - 1));
        let (r, c) = step_cell(side, table.len() - 1);
        let last = if function_module(*v, 0, 0, r, c).is_none() { 1 } else { 0 };
        assert_eq!(table[table.len() - 1] + last, raw_data_modules(*v));
        assert_eq!(table[0], 0);
    }
}

#[test]
fn function_modules_of_version_one() {
    assert_eq!(function_module(1, 0, 0, 0, 0), Some(true));
    assert_eq!(function_module(1, 0, 0, 1, 1), Some(false));
    assert_eq!(function_module(1, 0, 0, 3, 3), Some(true));
    assert_eq!(function_module(1, 0, 0, 7, 7), Some(false));
    assert_eq!(function_module(1, 0, 0, 6, 10), Some(true));
    assert_eq!(function_module(1, 0, 0, 6, 11), Some(false));
    assert_eq!(function_module(1, 0, 0, 13, 8), Some(true));
    assert_eq!(function_module(1, 0, 0, 8, 0), Some(false));
    assert_eq!(function_module(1, 1 << 14, 0, 8, 0), Some(true));
    assert_eq!(function_module(1, 1, 0, 0, 8), Some(true));
    assert_eq!(function_module(1, 1, 0, 8, 20), Some(true));
    assert_eq!(function_module(1, 0, 0, 9, 9), None);
    assert_eq!(function_module(1, 0, 0, 20, 20), None);
    assert_eq!(function_module(7, 0, 1, 0, 34), Some(true));
    assert_eq!(function_module(7, 0, 1, 34, 0), Some(true));
    assert_eq!(function_module(7, 0, 1 << 17, 5, 36), Some(true));
    assert_eq!(function_module(6, 0, 1, 0, 30), None);
}

#[test]
fn matrix_construction_rejects_wrong_sizes() {
    let words = vec![0u8; 26];
    assert_eq!(build_matrix(&words, 0, ErrorCorrectionLevel::L, 0).err(), Some(EncodeError::InvalidVersion));
    assert_eq!(build_matrix(&words, 41, ErrorCorrectionLevel::L, 0).err(), Some(EncodeError::InvalidVersion));
    assert_eq!(build_matrix(&words, 2, ErrorCorrectionLevel::L, 0).err(), Some(EncodeError::InternalEncodingError));
    assert_eq!(build_symbol(&words, 2, ErrorCorrectionLevel::L).err(), Some(EncodeError::InternalEncodingError));
    assert_eq!(build_symbol(&words, 0, ErrorCorrectionLevel::L).err(), Some(EncodeError::InvalidVersion));
    assert!(build_matrix(&words, 1, ErrorCorrectionLevel::L, 0).is_ok());
}

#[test]
fn penalty_of_hand_made_grids() {
    let light = Matrix::from_rows(vec![vec![false; 21]; 21]).unwrap();
    // 42 lines with one run of 21 (3 + 16 each), 400 blocks, no dark module
    assert_eq!(penalty_score(&light), 42 * 19 + 400 * 3 + 90);
    let dark = Matrix::from_rows(vec![vec![true; 21]; 21]).unwrap();
    assert_eq!(penalty_score(&dark), 42 * 19 + 400 * 3 + 90);
    let rows: Vec<Vec<bool>> = (0..21usize)
        .map(|r| (0..21usize).map(|c| (r * c + r / 3) % 2 == 0).collect())
        .collect();
    let m = Matrix::from_rows(rows).unwrap();
    assert_eq!(penalty_score(&m), 229);
}

#[test]
fn penalty_counts_finder_like_patterns() {
    // a chessboard has no run, no block and no finder-like pattern
    let board: Vec<Vec<bool>> = (0..21usize).map(|r| (0..21usize).map(|c| (r + c) % 2 == 0).collect()).collect();
    let base = penalty_score(&Matrix::from_rows(board.clone()).unwrap());
    assert_eq!(base, 0);
    let mut rows = board;
    let pattern = [true, false, true, true, true, false, true, false, false, false, false];
    for (c, d) in pattern.iter().enumerate() {
        rows[0][c] = *d;
    }
    let m = Matrix::from_rows(rows).unwrap();
    assert!(penalty_score(&m) >= 40);
}

#[test]
fn from_rows_accepts_only_squares_of_a_version() {
    assert!(Matrix::from_rows(vec![vec![false; 21]; 21]).is_some());
    assert!(Matrix::from_rows(vec![vec![false; 177]; 177]).is_some());
    assert!(Matrix::from_rows(vec![vec![false; 22]; 22]).is_none());
    assert!(Matrix::from_rows(vec![vec![false; 17]; 17]).is_none());
    assert!(Matrix::from_rows(vec![vec![false; 181]; 181]).is_none());
    assert!(Matrix::from_rows(vec![vec![false; 20]; 21]).is_none());
    assert!(Matrix::from_rows(Vec::new()).is_none());
    let m = Matrix::from_rows(vec![vec![true; 25]; 25]).unwrap();
    assert_eq!(m.version(), 2);
    assert_eq!(m.side_length(), 25);
    assert_eq!(m.module_at(24, 24), Module::Dark);
}
