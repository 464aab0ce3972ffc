//! The block-structure tables of the forty symbol versions and the
//! capacities that follow from them.

use vstd::prelude::*;
use crate::types::ErrorCorrectionLevel;
use crate::types::EncodeError;

verus! {

/// The versions a symbol can have.
pub open spec fn valid_version(v: int) -> bool {
    1 <= v <= 40
}

/// The number of modules along one side of a symbol.
pub open spec fn spec_side_length(v: int) -> int {
    17 + 4 * v
}

/// The number of alignment-pattern coordinates along one axis.
pub open spec fn spec_alignment_count(v: int) -> int {
    if v == 1 {
        0
    } else {
        v / 7 + 2
    }
}

/// The number of modules that carry data or error-correction bits: the
/// whole grid less the finder, separator, timing, format, alignment and
/// version-information modules.
pub open spec fn spec_raw_data_modules(v: int) -> int {
    let grid = (16 * v + 128) * v + 64;
    let n = v / 7 + 2;
    let alignment = if v >= 2 {
        (25 * n - 10) * n - 55
    } else {
        0
    };
    let version_info: int = if v >= 7 {
        36
    } else {
        0
    };
    grid - alignment - version_info
}

/// The number of codewords, data and error correction together, of a version.
pub open spec fn spec_total_codewords(v: int) -> int {
    spec_raw_data_modules(v) / 8
}

/// Error-correction codewords per block at level L, by version.
pub open spec fn ecc_table_l() -> Seq<int> {
    seq![
        7, 10, 15, 20, 26, 18, 20, 24, 30, 18, 20, 24, 26, 30, 22, 24, 28, 30, 28, 28,
        28, 28, 30, 30, 26, 28, 30, 30, 30, 30, 30, 30, 30, 30, 30, 30, 30, 30, 30, 30,
    ]
}

/// Error-correction codewords per block at level M, by version.
pub open spec fn ecc_table_m() -> Seq<int> {
    seq![
        10, 16, 26, 18, 24, 16, 18, 22, 22, 26, 30, 22, 22, 24, 24, 28, 28, 26, 26, 26,
        26, 28, 28, 28, 28, 28, 28, 28, 28, 28, 28, 28, 28, 28, 28, 28, 28, 28, 28, 28,
    ]
}

/// Error-correction codewords per block at level Q, by version.
pub open spec fn ecc_table_q() -> Seq<int> {
    seq![
        13, 22, 18, 26, 18, 24, 18, 22, 20, 24, 28, 26, 24, 20, 30, 24, 28, 28, 26, 30,
        28, 30, 30, 30, 30, 28, 30, 30, 30, 30, 30, 30, 30, 30, 30, 30, 30, 30, 30, 30,
    ]
}

/// Error-correction codewords per block at level H, by version.
pub open spec fn ecc_table_h() -> Seq<int> {
    seq![
        17, 28, 22, 16, 22, 28, 26, 26, 24, 28, 24, 28, 22, 24, 24, 30, 28, 28, 26, 28,
        30, 24, 30, 30, 30, 30, 30, 30, 30, 30, 30, 30, 30, 30, 30, 30, 30, 30, 30, 30,
    ]
}

/// Number of error-correction blocks at level L, by version.
pub open spec fn blocks_table_l() -> Seq<int> {
    seq![
        1, 1, 1, 1, 1, 2, 2, 2, 2, 4, 4, 4, 4, 4, 6, 6, 6, 6, 7, 8,
        8, 9, 9, 10, 12, 12, 12, 13, 14, 15, 16, 17, 18, 19, 19, 20, 21, 22, 24, 25,
    ]
}

/// Number of error-correction blocks at level M, by version.
pub open spec fn blocks_table_m() -> Seq<int> {
    seq![
        1, 1, 1, 2, 2, 4, 4, 4, 5, 5, 5, 8, 9, 9, 10, 10, 11, 13, 14, 16,
        17, 17, 18, 20, 21, 23, 25, 26, 28, 29, 31, 33, 35, 37, 38, 40, 43, 45, 47, 49,
    ]
}

/// Number of error-correction blocks at level Q, by version.
pub open spec fn blocks_table_q() -> Seq<int> {
    seq![
        1, 1, 2, 2, 4, 4, 6, 6, 8, 8, 8, 10, 12, 16, 12, 17, 16, 18, 21, 20,
        23, 23, 25, 27, 29, 34, 34, 35, 38, 40, 43, 45, 48, 51, 53, 56, 59, 62, 65, 68,
    ]
}

/// Number of error-correction blocks at level H, by version.
pub open spec fn blocks_table_h() -> Seq<int> {
    seq![
        1, 1, 2, 4, 4, 4, 5, 6, 8, 8, 11, 11, 16, 16, 18, 16, 19, 21, 25, 25,
        25, 34, 30, 32, 35, 37, 40, 42, 45, 48, 51, 54, 57, 60, 63, 66, 70, 74, 77, 81,
    ]
}

/// The number of error-correction codewords in each block.
#[verifier::opaque]
pub open spec fn spec_ecc_per_block(ecl: ErrorCorrectionLevel, v: int) -> int
    recommends
        valid_version(v),
{
    match ecl {
        ErrorCorrectionLevel::L => ecc_table_l()[v - 1],
        ErrorCorrectionLevel::M => ecc_table_m()[v - 1],
        ErrorCorrectionLevel::Q => ecc_table_q()[v - 1],
        ErrorCorrectionLevel::H => ecc_table_h()[v - 1],
    }
}

/// The number of blocks the codewords are split into.
#[verifier::opaque]
pub open spec fn spec_num_blocks(ecl: ErrorCorrectionLevel, v: int) -> int
    recommends
        valid_version(v),
{
    match ecl {
        ErrorCorrectionLevel::L => blocks_table_l()[v - 1],
        ErrorCorrectionLevel::M => blocks_table_m()[v - 1],
        ErrorCorrectionLevel::Q => blocks_table_q()[v - 1],
        ErrorCorrectionLevel::H => blocks_table_h()[v - 1],
    }
}

/// The number of data codewords: all codewords less those of the
/// error-correction blocks.
pub open spec fn spec_data_codewords(ecl: ErrorCorrectionLevel, v: int) -> int
    recommends
        valid_version(v),
{
    spec_total_codewords(v) - spec_ecc_per_block(ecl, v) * spec_num_blocks(ecl, v)
}

/// The number of modules along one side of a symbol of version `version`.
pub fn side_length(version: u32) -> (r: u32)
    requires
        valid_version(version as int),
    ensures
        r == spec_side_length(version as int),
        21 <= r <= 177,
{
    17 + 4 * version
}

/// The number of modules of version `version` that carry codeword bits.
pub fn raw_data_modules(version: u32) -> (r: u32)
    requires
        valid_version(version as int),
    ensures
        r == spec_raw_data_modules(version as int),
        208 <= r <= 29648,
{
    let v: u32 = version;
    proof {
        lemma_total_codewords_values(v as int);
    }
    assert((16 * v + 128) * v <= 768 * 40 && (16 * v + 128) * v >= 144 * v) by (nonlinear_arith)
        requires
            1 <= v <= 40,
    ;
    let mut r: u32 = (16 * v + 128) * v + 64;
    if v >= 2 {
        let n: u32 = v / 7 + 2;
        assert(2 <= n <= 7);
        assert((25 * n - 10) * n <= 165 * 7 && (25 * n - 10) * n >= 40 * n) by (nonlinear_arith)
            requires
                2 <= n <= 7,
        ;
        r = r - ((25 * n - 10) * n - 55);
        if v >= 7 {
            r = r - 36;
        }
    }
    r
}

/// The number of codewords of version `version`.
pub fn total_codewords(version: u32) -> (r: u32)
    requires
        valid_version(version as int),
    ensures
        r == spec_total_codewords(version as int),
        26 <= r <= 3706,
{
    raw_data_modules(version) / 8
}

/// The number of error-correction codewords in each block of a symbol.
pub fn ecc_codewords_per_block(ecl: ErrorCorrectionLevel, version: u32) -> (r: u32)
    requires
        valid_version(version as int),
    ensures
        r == spec_ecc_per_block(ecl, version as int),
        7 <= r <= 30,
{
    reveal(spec_ecc_per_block);
    let i: usize = (version - 1) as usize;
    let l: [u8; 40] = [
        7, 10, 15, 20, 26, 18, 20, 24, 30, 18, 20, 24, 26, 30, 22, 24, 28, 30, 28, 28,
        28, 28, 30, 30, 26, 28, 30, 30, 30, 30, 30, 30, 30, 30, 30, 30, 30, 30, 30, 30,
    ];
    let m: [u8; 40] = [
        10, 16, 26, 18, 24, 16, 18, 22, 22, 26, 30, 22, 22, 24, 24, 28, 28, 26, 26, 26,
        26, 28, 28, 28, 28, 28, 28, 28, 28, 28, 28, 28, 28, 28, 28, 28, 28, 28, 28, 28,
    ];
    let q: [u8; 40] = [
        13, 22, 18, 26, 18, 24, 18, 22, 20, 24, 28, 26, 24, 20, 30, 24, 28, 28, 26, 30,
        28, 30, 30, 30, 30, 28, 30, 30, 30, 30, 30, 30, 30, 30, 30, 30, 30, 30, 30, 30,
    ];
    let h: [u8; 40] = [
        17, 28, 22, 16, 22, 28, 26, 26, 24, 28, 24, 28, 22, 24, 24, 30, 28, 28, 26, 28,
        30, 24, 30, 30, 30, 30, 30, 30, 30, 30, 30, 30, 30, 30, 30, 30, 30, 30, 30, 30,
    ];
    let r: u8 = match ecl {
        ErrorCorrectionLevel::L => l[i],
        ErrorCorrectionLevel::M => m[i],
        ErrorCorrectionLevel::Q => q[i],
        ErrorCorrectionLevel::H => h[i],
    };
    r as u32
}

/// The number of blocks the codewords of a symbol are split into.
pub fn num_blocks(ecl: ErrorCorrectionLevel, version: u32) -> (r: u32)
    requires
        valid_version(version as int),
    ensures
        r == spec_num_blocks(ecl, version as int),
        1 <= r <= 81,
{
    reveal(spec_num_blocks);
    let i: usize = (version - 1) as usize;
    let l: [u8; 40] = [
        1, 1, 1, 1, 1, 2, 2, 2, 2, 4, 4, 4, 4, 4, 6, 6, 6, 6, 7, 8,
        8, 9, 9, 10, 12, 12, 12, 13, 14, 15, 16, 17, 18, 19, 19, 20, 21, 22, 24, 25,
    ];
    let m: [u8; 40] = [
        1, 1, 1, 2, 2, 4, 4, 4, 5, 5, 5, 8, 9, 9, 10, 10, 11, 13, 14, 16,
        17, 17, 18, 20, 21, 23, 25, 26, 28, 29, 31, 33, 35, 37, 38, 40, 43, 45, 47, 49,
    ];
    let q: [u8; 40] = [
        1, 1, 2, 2, 4, 4, 6, 6, 8, 8, 8, 10, 12, 16, 12, 17, 16, 18, 21, 20,
        23, 23, 25, 27, 29, 34, 34, 35, 38, 40, 43, 45, 48, 51, 53, 56, 59, 62, 65, 68,
    ];
    let h: [u8; 40] = [
        1, 1, 2, 4, 4, 4, 5, 6, 8, 8, 11, 11, 16, 16, 18, 16, 19, 21, 25, 25,
        25, 34, 30, 32, 35, 37, 40, 42, 45, 48, 51, 54, 57, 60, 63, 66, 70, 74, 77, 81,
    ];
    let r: u8 = match ecl {
        ErrorCorrectionLevel::L => l[i],
        ErrorCorrectionLevel::M => m[i],
        ErrorCorrectionLevel::Q => q[i],
        ErrorCorrectionLevel::H => h[i],
    };
    r as u32
}

/// The number of data codewords a symbol of `version` holds at level `ecl`:
/// `InvalidVersion` exactly when `version` is outside 1..=40.
pub fn get_qr_data_capacity(version: u32, ecl: ErrorCorrectionLevel) -> (r: Result<u32, EncodeError>)
    ensures
        valid_version(version as int) ==> r == Ok::<u32, EncodeError>(
            spec_data_codewords(ecl, version as int) as u32,
        ),
        valid_version(version as int) ==> 9 <= spec_data_codewords(ecl, version as int) <= 2956,
        !valid_version(version as int) ==> r == Err::<u32, EncodeError>(EncodeError::InvalidVersion),
{
    if version < 1 || version > 40 {
        return Err(EncodeError::InvalidVersion);
    }
    Ok(data_codewords(ecl, version))
}

/// The number of data codewords of a valid version.
pub fn data_codewords(ecl: ErrorCorrectionLevel, version: u32) -> (r: u32)
    requires
        valid_version(version as int),
    ensures
        r == spec_data_codewords(ecl, version as int),
        9 <= r <= 2956,
{
    let total = total_codewords(version);
    let e = ecc_codewords_per_block(ecl, version);
    let n = num_blocks(ecl, version);
    proof {
        lemma_block_structure(ecl, version as int);
    }
    assert(e * n <= 30 * 81) by (nonlinear_arith)
        requires
            e <= 30,
            n <= 81,
    ;
    total - e * n
}

/// The published data capacity in codewords at level L, by version.
pub open spec fn published_capacity_l() -> Seq<int> {
    seq![
        19, 34, 55, 80, 108, 136, 156, 194, 232, 274, 324, 370, 428, 461, 523, 589, 647, 721,
        795, 861, 932, 1006, 1094, 1174, 1276, 1370, 1468, 1531, 1631, 1735, 1843, 1955, 2071,
        2191, 2306, 2434, 2566, 2702, 2812, 2956,
    ]
}

/// The published data capacity in codewords at level M, by version.
pub open spec fn published_capacity_m() -> Seq<int> {
    seq![
        16, 28, 44, 64, 86, 108, 124, 154, 182, 216, 254, 290, 334, 365, 415, 453, 507, 563,
        627, 669, 714, 782, 860, 914, 1000, 1062, 1128, 1193, 1267, 1373, 1455, 1541, 1631,
        1725, 1812, 1914, 1992, 2102, 2216, 2334,
    ]
}

/// The published data capacity in codewords at level Q, by version.
pub open spec fn published_capacity_q() -> Seq<int> {
    seq![
        13, 22, 34, 48, 62, 76, 88, 110, 132, 154, 180, 206, 244, 261, 295, 325, 367, 397, 445,
        485, 512, 568, 614, 664, 718, 754, 808, 871, 911, 985, 1033, 1115, 1171, 1231, 1286,
        1354, 1426, 1502, 1582, 1666,
    ]
}

/// The published data capacity in codewords at level H, by version.
pub open spec fn published_capacity_h() -> Seq<int> {
    seq![
        9, 16, 26, 36, 46, 60, 66, 86, 100, 122, 140, 158, 180, 197, 223, 253, 283, 313, 341,
        385, 406, 442, 464, 514, 538, 596, 628, 661, 701, 745, 793, 845, 901, 961, 986, 1054,
        1096, 1142, 1222, 1276,
    ]
}

/// The published data capacity in codewords of a version at a level.
pub open spec fn spec_published_capacity(ecl: ErrorCorrectionLevel, v: int) -> int
    recommends
        valid_version(v),
{
    match ecl {
        ErrorCorrectionLevel::L => published_capacity_l()[v - 1],
        ErrorCorrectionLevel::M => published_capacity_m()[v - 1],
        ErrorCorrectionLevel::Q => published_capacity_q()[v - 1],
        ErrorCorrectionLevel::H => published_capacity_h()[v - 1],
    }
}

/// What the tables give for every version and level: the data capacity
/// derived from codeword total and block structure is the published one,
/// between 9 and 2956 codewords, and each block holds at least one data
/// codeword beside its error-correction codewords.
pub proof fn lemma_block_structure(ecl: ErrorCorrectionLevel, v: int)
    requires
        valid_version(v),
    ensures
        7 <= spec_ecc_per_block(ecl, v) <= 30,
        1 <= spec_num_blocks(ecl, v) <= 81,
        26 <= spec_total_codewords(v) <= 3706,
        spec_data_codewords(ecl, v) == spec_published_capacity(ecl, v),
        9 <= spec_data_codewords(ecl, v) <= 2956,
        spec_total_codewords(v) / spec_num_blocks(ecl, v) > spec_ecc_per_block(ecl, v),
        spec_total_codewords(v) / spec_num_blocks(ecl, v) - spec_ecc_per_block(ecl, v) <= 123,
{
    reveal(spec_ecc_per_block);
    reveal(spec_num_blocks);
    lemma_total_codewords_values(v);
    if v == 1 {
        assert(spec_total_codewords(v) == 26);
        match ecl {
            ErrorCorrectionLevel::L => assert(7int * 1 == 7 && 26int / 1 == 26),
            ErrorCorrectionLevel::M => assert(10int * 1 == 10 && 26int / 1 == 26),
            ErrorCorrectionLevel::Q => assert(13int * 1 == 13 && 26int / 1 == 26),
            ErrorCorrectionLevel::H => assert(17int * 1 == 17 && 26int / 1 == 26),
        }
    } else if v == 2 {
        assert(spec_total_codewords(v) == 44);
        match ecl {
            ErrorCorrectionLevel::L => assert(10int * 1 == 10 && 44int / 1 == 44),
            ErrorCorrectionLevel::M => assert(16int * 1 == 16 && 44int / 1 == 44),
            ErrorCorrectionLevel::Q => assert(22int * 1 == 22 && 44int / 1 == 44),
            ErrorCorrectionLevel::H => assert(28int * 1 == 28 && 44int / 1 == 44),
        }
    } else if v == 3 {
        assert(spec_total_codewords(v) == 70);
        match ecl {
            ErrorCorrectionLevel::L => assert(15int * 1 == 15 && 70int / 1 == 70),
            ErrorCorrectionLevel::M => assert(26int * 1 == 26 && 70int / 1 == 70),
            ErrorCorrectionLevel::Q => assert(18int * 2 == 36 && 70int / 2 == 35),
            ErrorCorrectionLevel::H => assert(22int * 2 == 44 && 70int / 2 == 35),
        }
    } else if v == 4 {
        assert(spec_total_codewords(v) == 100);
        match ecl {
            ErrorCorrectionLevel::L => assert(20int * 1 == 20 && 100int / 1 == 100),
            ErrorCorrectionLevel::M => assert(18int * 2 == 36 && 100int / 2 == 50),
            ErrorCorrectionLevel::Q => assert(26int * 2 == 52 && 100int / 2 == 50),
            ErrorCorrectionLevel::H => assert(16int * 4 == 64 && 100int / 4 == 25),
        }
    } else if v == 5 {
        assert(spec_total_codewords(v) == 134);
        match ecl {
            ErrorCorrectionLevel::L => assert(26int * 1 == 26 && 134int / 1 == 134),
            ErrorCorrectionLevel::M => assert(24int * 2 == 48 && 134int / 2 == 67),
            ErrorCorrectionLevel::Q => assert(18int * 4 == 72 && 134int / 4 == 33),
            ErrorCorrectionLevel::H => assert(22int * 4 == 88 && 134int / 4 == 33),
        }
    } else if v == 6 {
        assert(spec_total_codewords(v) == 172);
        match ecl {
            ErrorCorrectionLevel::L => assert(18int * 2 == 36 && 172int / 2 == 86),
            ErrorCorrectionLevel::M => assert(16int * 4 == 64 && 172int / 4 == 43),
            ErrorCorrectionLevel::Q => assert(24int * 4 == 96 && 172int / 4 == 43),
            ErrorCorrectionLevel::H => assert(28int * 4 == 112 && 172int / 4 == 43),
        }
    } else if v == 7 {
        assert(spec_total_codewords(v) == 196);
        match ecl {
            ErrorCorrectionLevel::L => assert(20int * 2 == 40 && 196int / 2 == 98),
            ErrorCorrectionLevel::M => assert(18int * 4 == 72 && 196int / 4 == 49),
            ErrorCorrectionLevel::Q => assert(18int * 6 == 108 && 196int / 6 == 32),
            ErrorCorrectionLevel::H => assert(26int * 5 == 130 && 196int / 5 == 39),
        }
    } else if v == 8 {
        assert(spec_total_codewords(v) == 242);
        match ecl {
            ErrorCorrectionLevel::L => assert(24int * 2 == 48 && 242int / 2 == 121),
            ErrorCorrectionLevel::M => assert(22int * 4 == 88 && 242int / 4 == 60),
            ErrorCorrectionLevel::Q => assert(22int * 6 == 132 && 242int / 6 == 40),
            ErrorCorrectionLevel::H => assert(26int * 6 == 156 && 242int / 6 == 40),
        }
    } else if v == 9 {
        assert(spec_total_codewords(v) == 292);
        match ecl {
            ErrorCorrectionLevel::L => assert(30int * 2 == 60 && 292int / 2 == 146),
            ErrorCorrectionLevel::M => assert(22int * 5 == 110 && 292int / 5 == 58),
            ErrorCorrectionLevel::Q => assert(20int * 8 == 160 && 292int / 8 == 36),
            ErrorCorrectionLevel::H => assert(24int * 8 == 192 && 292int / 8 == 36),
        }
    } else if v == 10 {
        assert(spec_total_codewords(v) == 346);
        match ecl {
            ErrorCorrectionLevel::L => assert(18int * 4 == 72 && 346int / 4 == 86),
            ErrorCorrectionLevel::M => assert(26int * 5 == 130 && 346int / 5 == 69),
            ErrorCorrectionLevel::Q => assert(24int * 8 == 192 && 346int / 8 == 43),
            ErrorCorrectionLevel::H => assert(28int * 8 == 224 && 346int / 8 == 43),
        }
    } else if v == 11 {
        assert(spec_total_codewords(v) == 404);
        match ecl {
            ErrorCorrectionLevel::L => assert(20int * 4 == 80 && 404int / 4 == 101),
            ErrorCorrectionLevel::M => assert(30int * 5 == 150 && 404int / 5 == 80),
            ErrorCorrectionLevel::Q => assert(28int * 8 == 224 && 404int / 8 == 50),
            ErrorCorrectionLevel::H => assert(24int * 11 == 264 && 404int / 11 == 36),
        }
    } else if v == 12 {
        assert(spec_total_codewords(v) == 466);
        match ecl {
            ErrorCorrectionLevel::L => assert(24int * 4 == 96 && 466int / 4 == 116),
            ErrorCorrectionLevel::M => assert(22int * 8 == 176 && 466int / 8 == 58),
            ErrorCorrectionLevel::Q => assert(26int * 10 == 260 && 466int / 10 == 46),
            ErrorCorrectionLevel::H => assert(28int * 11 == 308 && 466int / 11 == 42),
        }
    } else if v == 13 {
        assert(spec_total_codewords(v) == 532);
        match ecl {
            ErrorCorrectionLevel::L => assert(26int * 4 == 104 && 532int / 4 == 133),
            ErrorCorrectionLevel::M => assert(22int * 9 == 198 && 532int / 9 == 59),
            ErrorCorrectionLevel::Q => assert(24int * 12 == 288 && 532int / 12 == 44),
            ErrorCorrectionLevel::H => assert(22int * 16 == 352 && 532int / 16 == 33),
        }
    } else if v == 14 {
        assert(spec_total_codewords(v) == 581);
        match ecl {
            ErrorCorrectionLevel::L => assert(30int * 4 == 120 && 581int / 4 == 145),
            ErrorCorrectionLevel::M => assert(24int * 9 == 216 && 581int / 9 == 64),
            ErrorCorrectionLevel::Q => assert(20int * 16 == 320 && 581int / 16 == 36),
            ErrorCorrectionLevel::H => assert(24int * 16 == 384 && 581int / 16 == 36),
        }
    } else if v == 15 {
        assert(spec_total_codewords(v) == 655);
        match ecl {
            ErrorCorrectionLevel::L => assert(22int * 6 == 132 && 655int / 6 == 109),
            ErrorCorrectionLevel::M => assert(24int * 10 == 240 && 655int / 10 == 65),
            ErrorCorrectionLevel::Q => assert(30int * 12 == 360 && 655int / 12 == 54),
            ErrorCorrectionLevel::H => assert(24int * 18 == 432 && 655int / 18 == 36),
        }
    } else if v == 16 {
        assert(spec_total_codewords(v) == 733);
        match ecl {
            ErrorCorrectionLevel::L => assert(24int * 6 == 144 && 733int / 6 == 122),
            ErrorCorrectionLevel::M => assert(28int * 10 == 280 && 733int / 10 == 73),
            ErrorCorrectionLevel::Q => assert(24int * 17 == 408 && 733int / 17 == 43),
            ErrorCorrectionLevel::H => assert(30int * 16 == 480 && 733int / 16 == 45),
        }
    } else if v == 17 {
        assert(spec_total_codewords(v) == 815);
        match ecl {
            ErrorCorrectionLevel::L => assert(28int * 6 == 168 && 815int / 6 == 135),
            ErrorCorrectionLevel::M => assert(28int * 11 == 308 && 815int / 11 == 74),
            ErrorCorrectionLevel::Q => assert(28int * 16 == 448 && 815int / 16 == 50),
            ErrorCorrectionLevel::H => assert(28int * 19 == 532 && 815int / 19 == 42),
        }
    } else if v == 18 {
        assert(spec_total_codewords(v) == 901);
        match ecl {
            ErrorCorrectionLevel::L => assert(30int * 6 == 180 && 901int / 6 == 150),
            ErrorCorrectionLevel::M => assert(26int * 13 == 338 && 901int / 13 == 69),
            ErrorCorrectionLevel::Q => assert(28int * 18 == 504 && 901int / 18 == 50),
            ErrorCorrectionLevel::H => assert(28int * 21 == 588 && 901int / 21 == 42),
        }
    } else if v == 19 {
        assert(spec_total_codewords(v) == 991);
        match ecl {
            ErrorCorrectionLevel::L => assert(28int * 7 == 196 && 991int / 7 == 141),
            ErrorCorrectionLevel::M => assert(26int * 14 == 364 && 991int / 14 == 70),
            ErrorCorrectionLevel::Q => assert(26int * 21 == 546 && 991int / 21 == 47),
            ErrorCorrectionLevel::H => assert(26int * 25 == 650 && 991int / 25 == 39),
        }
    } else if v == 20 {
        assert(spec_total_codewords(v) == 1085);
        match ecl {
            ErrorCorrectionLevel::L => assert(28int * 8 == 224 && 1085int / 8 == 135),
            ErrorCorrectionLevel::M => assert(26int * 16 == 416 && 1085int / 16 == 67),
            ErrorCorrectionLevel::Q => assert(30int * 20 == 600 && 1085int / 20 == 54),
            ErrorCorrectionLevel::H => assert(28int * 25 == 700 && 1085int / 25 == 43),
        }
    } else if v == 21 {
        assert(spec_total_codewords(v) == 1156);
        match ecl {
            ErrorCorrectionLevel::L => assert(28int * 8 == 224 && 1156int / 8 == 144),
            ErrorCorrectionLevel::M => assert(26int * 17 == 442 && 1156int / 17 == 68),
            ErrorCorrectionLevel::Q => assert(28int * 23 == 644 && 1156int / 23 == 50),
            ErrorCorrectionLevel::H => assert(30int * 25 == 750 && 1156int / 25 == 46),
        }
    } else if v == 22 {
        assert(spec_total_codewords(v) == 1258);
        match ecl {
            ErrorCorrectionLevel::L => assert(28int * 9 == 252 && 1258int / 9 == 139),
            ErrorCorrectionLevel::M => assert(28int * 17 == 476 && 1258int / 17 == 74),
            ErrorCorrectionLevel::Q => assert(30int * 23 == 690 && 1258int / 23 == 54),
            ErrorCorrectionLevel::H => assert(24int * 34 == 816 && 1258int / 34 == 37),
        }
    } else if v == 23 {
        assert(spec_total_codewords(v) == 1364);
        match ecl {
            ErrorCorrectionLevel::L => assert(30int * 9 == 270 && 1364int / 9 == 151),
            ErrorCorrectionLevel::M => assert(28int * 18 == 504 && 1364int / 18 == 75),
            ErrorCorrectionLevel::Q => assert(30int * 25 == 750 && 1364int / 25 == 54),
            ErrorCorrectionLevel::H => assert(30int * 30 == 900 && 1364int / 30 == 45),
        }
    } else if v == 24 {
        assert(spec_total_codewords(v) == 1474);
        match ecl {
            ErrorCorrectionLevel::L => assert(30int * 10 == 300 && 1474int / 10 == 147),
            ErrorCorrectionLevel::M => assert(28int * 20 == 560 && 1474int / 20 == 73),
            ErrorCorrectionLevel::Q => assert(30int * 27 == 810 && 1474int / 27 == 54),
            ErrorCorrectionLevel::H => assert(30int * 32 == 960 && 1474int / 32 == 46),
        }
    } else if v == 25 {
        assert(spec_total_codewords(v) == 1588);
        match ecl {
            ErrorCorrectionLevel::L => assert(26int * 12 == 312 && 1588int / 12 == 132),
            ErrorCorrectionLevel::M => assert(28int * 21 == 588 && 1588int / 21 == 75),
            ErrorCorrectionLevel::Q => assert(30int * 29 == 870 && 1588int / 29 == 54),
            ErrorCorrectionLevel::H => assert(30int * 35 == 1050 && 1588int / 35 == 45),
        }
    } else if v == 26 {
        assert(spec_total_codewords(v) == 1706);
        match ecl {
            ErrorCorrectionLevel::L => assert(28int * 12 == 336 && 1706int / 12 == 142),
            ErrorCorrectionLevel::M => assert(28int * 23 == 644 && 1706int / 23 == 74),
            ErrorCorrectionLevel::Q => assert(28int * 34 == 952 && 1706int / 34 == 50),
            ErrorCorrectionLevel::H => assert(30int * 37 == 1110 && 1706int / 37 == 46),
        }
    } else if v == 27 {
        assert(spec_total_codewords(v) == 1828);
        match ecl {
            ErrorCorrectionLevel::L => assert(30int * 12 == 360 && 1828int / 12 == 152),
            ErrorCorrectionLevel::M => assert(28int * 25 == 700 && 1828int / 25 == 73),
            ErrorCorrectionLevel::Q => assert(30int * 34 == 1020 && 1828int / 34 == 53),
            ErrorCorrectionLevel::H => assert(30int * 40 == 1200 && 1828int / 40 == 45),
        }
    } else if v == 28 {
        assert(spec_total_codewords(v) == 1921);
        match ecl {
            ErrorCorrectionLevel::L => assert(30int * 13 == 390 && 1921int / 13 == 147),
            ErrorCorrectionLevel::M => assert(28int * 26 == 728 && 1921int / 26 == 73),
            ErrorCorrectionLevel::Q => assert(30int * 35 == 1050 && 1921int / 35 == 54),
            ErrorCorrectionLevel::H => assert(30int * 42 == 1260 && 1921int / 42 == 45),
        }
    } else if v == 29 {
        assert(spec_total_codewords(v) == 2051);
        match ecl {
            ErrorCorrectionLevel::L => assert(30int * 14 == 420 && 2051int / 14 == 146),
            ErrorCorrectionLevel::M => assert(28int * 28 == 784 && 2051int / 28 == 73),
            ErrorCorrectionLevel::Q => assert(30int * 38 == 1140 && 2051int / 38 == 53),
            ErrorCorrectionLevel::H => assert(30int * 45 == 1350 && 2051int / 45 == 45),
        }
    } else if v == 30 {
        assert(spec_total_codewords(v) == 2185);
        match ecl {
            ErrorCorrectionLevel::L => assert(30int * 15 == 450 && 2185int / 15 == 145),
            ErrorCorrectionLevel::M => assert(28int * 29 == 812 && 2185int / 29 == 75),
            ErrorCorrectionLevel::Q => assert(30int * 40 == 1200 && 2185int / 40 == 54),
            ErrorCorrectionLevel::H => assert(30int * 48 == 1440 && 2185int / 48 == 45),
        }
    } else if v == 31 {
        assert(spec_total_codewords(v) == 2323);
        match ecl {
            ErrorCorrectionLevel::L => assert(30int * 16 == 480 && 2323int / 16 == 145),
            ErrorCorrectionLevel::M => assert(28int * 31 == 868 && 2323int / 31 == 74),
            ErrorCorrectionLevel::Q => assert(30int * 43 == 1290 && 2323int / 43 == 54),
            ErrorCorrectionLevel::H => assert(30int * 51 == 1530 && 2323int / 51 == 45),
        }
    } else if v == 32 {
        assert(spec_total_codewords(v) == 2465);
        match ecl {
            ErrorCorrectionLevel::L => assert(30int * 17 == 510 && 2465int / 17 == 145),
            ErrorCorrectionLevel::M => assert(28int * 33 == 924 && 2465int / 33 == 74),
            ErrorCorrectionLevel::Q => assert(30int * 45 == 1350 && 2465int / 45 == 54),
            ErrorCorrectionLevel::H => assert(30int * 54 == 1620 && 2465int / 54 == 45),
        }
    } else if v == 33 {
        assert(spec_total_codewords(v) == 2611);
        match ecl {
            ErrorCorrectionLevel::L => assert(30int * 18 == 540 && 2611int / 18 == 145),
            ErrorCorrectionLevel::M => assert(28int * 35 == 980 && 2611int / 35 == 74),
            ErrorCorrectionLevel::Q => assert(30int * 48 == 1440 && 2611int / 48 == 54),
            ErrorCorrectionLevel::H => assert(30int * 57 == 1710 && 2611int / 57 == 45),
        }
    } else if v == 34 {
        assert(spec_total_codewords(v) == 2761);
        match ecl {
            ErrorCorrectionLevel::L => assert(30int * 19 == 570 && 2761int / 19 == 145),
            ErrorCorrectionLevel::M => assert(28int * 37 == 1036 && 2761int / 37 == 74),
            ErrorCorrectionLevel::Q => assert(30int * 51 == 1530 && 2761int / 51 == 54),
            ErrorCorrectionLevel::H => assert(30int * 60 == 1800 && 2761int / 60 == 46),
        }
    } else if v == 35 {
        assert(spec_total_codewords(v) == 2876);
        match ecl {
            ErrorCorrectionLevel::L => assert(30int * 19 == 570 && 2876int / 19 == 151),
            ErrorCorrectionLevel::M => assert(28int * 38 == 1064 && 2876int / 38 == 75),
            ErrorCorrectionLevel::Q => assert(30int * 53 == 1590 && 2876int / 53 == 54),
            ErrorCorrectionLevel::H => assert(30int * 63 == 1890 && 2876int / 63 == 45),
        }
    } else if v == 36 {
        assert(spec_total_codewords(v) == 3034);
        match ecl {
            ErrorCorrectionLevel::L => assert(30int * 20 == 600 && 3034int / 20 == 151),
            ErrorCorrectionLevel::M => assert(28int * 40 == 1120 && 3034int / 40 == 75),
            ErrorCorrectionLevel::Q => assert(30int * 56 == 1680 && 3034int / 56 == 54),
            ErrorCorrectionLevel::H => assert(30int * 66 == 1980 && 3034int / 66 == 45),
        }
    } else if v == 37 {
        assert(spec_total_codewords(v) == 3196);
        match ecl {
            ErrorCorrectionLevel::L => assert(30int * 21 == 630 && 3196int / 21 == 152),
            ErrorCorrectionLevel::M => assert(28int * 43 == 1204 && 3196int / 43 == 74),
            ErrorCorrectionLevel::Q => assert(30int * 59 == 1770 && 3196int / 59 == 54),
            ErrorCorrectionLevel::H => assert(30int * 70 == 2100 && 3196int / 70 == 45),
        }
    } else if v == 38 {
        assert(spec_total_codewords(v) == 3362);
        match ecl {
            ErrorCorrectionLevel::L => assert(30int * 22 == 660 && 3362int / 22 == 152),
            ErrorCorrectionLevel::M => assert(28int * 45 == 1260 && 3362int / 45 == 74),
            ErrorCorrectionLevel::Q => assert(30int * 62 == 1860 && 3362int / 62 == 54),
            ErrorCorrectionLevel::H => assert(30int * 74 == 2220 && 3362int / 74 == 45),
        }
    } else if v == 39 {
        assert(spec_total_codewords(v) == 3532);
        match ecl {
            ErrorCorrectionLevel::L => assert(30int * 24 == 720 && 3532int / 24 == 147),
            ErrorCorrectionLevel::M => assert(28int * 47 == 1316 && 3532int / 47 == 75),
            ErrorCorrectionLevel::Q => assert(30int * 65 == 1950 && 3532int / 65 == 54),
            ErrorCorrectionLevel::H => assert(30int * 77 == 2310 && 3532int / 77 == 45),
        }
    } else if v == 40 {
        assert(spec_total_codewords(v) == 3706);
        match ecl {
            ErrorCorrectionLevel::L => assert(30int * 25 == 750 && 3706int / 25 == 148),
            ErrorCorrectionLevel::M => assert(28int * 49 == 1372 && 3706int / 49 == 75),
            ErrorCorrectionLevel::Q => assert(30int * 68 == 2040 && 3706int / 68 == 54),
            ErrorCorrectionLevel::H => assert(30int * 81 == 2430 && 3706int / 81 == 45),
        }
    }
}

/// The codeword totals of the forty versions, written out.
pub open spec fn total_codewords_table() -> Seq<int> {
    seq![
        26, 44, 70, 100, 134, 172, 196, 242, 292, 346, 404, 466, 532, 581, 655, 733, 815, 901,
        991, 1085, 1156, 1258, 1364, 1474, 1588, 1706, 1828, 1921, 2051, 2185, 2323, 2465, 2611,
        2761, 2876, 3034, 3196, 3362, 3532, 3706,
    ]
}

/// The module-count formula yields the published codeword total of
/// every version, and its terms stay within the grid.
pub proof fn lemma_total_codewords_values(v: int)
    requires
        valid_version(v),
    ensures
        spec_total_codewords(v) == total_codewords_table()[v - 1],
        208 <= spec_raw_data_modules(v) <= 29648,
        v >= 2 ==> (16 * v + 128) * v + 64 - ((25 * (v / 7 + 2) - 10) * (v / 7 + 2) - 55) >= 36,
{
    if v == 1 {
        assert((16 * 1 + 128) * 1 == 144int && 208int / 8 == 26);
    } else if v == 2 {
        assert((16 * 2 + 128) * 2 == 320int && (25 * 2 - 10) * 2 == 80int && 359int / 8 == 44);
    } else if v == 3 {
        assert((16 * 3 + 128) * 3 == 528int && (25 * 2 - 10) * 2 == 80int && 567int / 8 == 70);
    } else if v == 4 {
        assert((16 * 4 + 128) * 4 == 768int && (25 * 2 - 10) * 2 == 80int && 807int / 8 == 100);
    } else if v == 5 {
        assert((16 * 5 + 128) * 5 == 1040int && (25 * 2 - 10) * 2 == 80int && 1079int / 8 == 134);
    } else if v == 6 {
        assert((16 * 6 + 128) * 6 == 1344int && (25 * 2 - 10) * 2 == 80int && 1383int / 8 == 172);
    } else if v == 7 {
        assert((16 * 7 + 128) * 7 == 1680int && (25 * 3 - 10) * 3 == 195int && 1568int / 8 == 196);
    } else if v == 8 {
        assert((16 * 8 + 128) * 8 == 2048int && (25 * 3 - 10) * 3 == 195int && 1936int / 8 == 242);
    } else if v == 9 {
        assert((16 * 9 + 128) * 9 == 2448int && (25 * 3 - 10) * 3 == 195int && 2336int / 8 == 292);
    } else if v == 10 {
        assert((16 * 10 + 128) * 10 == 2880int && (25 * 3 - 10) * 3 == 195int && 2768int / 8 == 346);
    } else if v == 11 {
        assert((16 * 11 + 128) * 11 == 3344int && (25 * 3 - 10) * 3 == 195int && 3232int / 8 == 404);
    } else if v == 12 {
        assert((16 * 12 + 128) * 12 == 3840int && (25 * 3 - 10) * 3 == 195int && 3728int / 8 == 466);
    } else if v == 13 {
        assert((16 * 13 + 128) * 13 == 4368int && (25 * 3 - 10) * 3 == 195int && 4256int / 8 == 532);
    } else if v == 14 {
        assert((16 * 14 + 128) * 14 == 4928int && (25 * 4 - 10) * 4 == 360int && 4651int / 8 == 581);
    } else if v == 15 {
        assert((16 * 15 + 128) * 15 == 5520int && (25 * 4 - 10) * 4 == 360int && 5243int / 8 == 655);
    } else if v == 16 {
        assert((16 * 16 + 128) * 16 == 6144int && (25 * 4 - 10) * 4 == 360int && 5867int / 8 == 733);
    } else if v == 17 {
        assert((16 * 17 + 128) * 17 == 6800int && (25 * 4 - 10) * 4 == 360int && 6523int / 8 == 815);
    } else if v == 18 {
        assert((16 * 18 + 128) * 18 == 7488int && (25 * 4 - 10) * 4 == 360int && 7211int / 8 == 901);
    } else if v == 19 {
        assert((16 * 19 + 128) * 19 == 8208int && (25 * 4 - 10) * 4 == 360int && 7931int / 8 == 991);
    } else if v == 20 {
        assert((16 * 20 + 128) * 20 == 8960int && (25 * 4 - 10) * 4 == 360int && 8683int / 8 == 1085);
    } else if v == 21 {
        assert((16 * 21 + 128) * 21 == 9744int && (25 * 5 - 10) * 5 == 575int && 9252int / 8 == 1156);
    } else if v == 22 {
        assert((16 * 22 + 128) * 22 == 10560int && (25 * 5 - 10) * 5 == 575int && 10068int / 8 == 1258);
    } else if v == 23 {
        assert((16 * 23 + 128) * 23 == 11408int && (25 * 5 - 10) * 5 == 575int && 10916int / 8 == 1364);
    } else if v == 24 {
        assert((16 * 24 + 128) * 24 == 12288int && (25 * 5 - 10) * 5 == 575int && 11796int / 8 == 1474);
    } else if v == 25 {
        assert((16 * 25 + 128) * 25 == 13200int && (25 * 5 - 10) * 5 == 575int && 12708int / 8 == 1588);
    } else if v == 26 {
        assert((16 * 26 + 128) * 26 == 14144int && (25 * 5 - 10) * 5 == 575int && 13652int / 8 == 1706);
    } else if v == 27 {
        assert((16 * 27 + 128) * 27 == 15120int && (25 * 5 - 10) * 5 == 575int && 14628int / 8 == 1828);
    } else if v == 28 {
        assert((16 * 28 + 128) * 28 == 16128int && (25 * 6 - 10) * 6 == 840int && 15371int / 8 == 1921);
    } else if v == 29 {
        assert((16 * 29 + 128) * 29 == 17168int && (25 * 6 - 10) * 6 == 840int && 16411int / 8 == 2051);
    } else if v == 30 {
        assert((16 * 30 + 128) * 30 == 18240int && (25 * 6 - 10) * 6 == 840int && 17483int / 8 == 2185);
    } else if v == 31 {
        assert((16 * 31 + 128) * 31 == 19344int && (25 * 6 - 10) * 6 == 840int && 18587int / 8 == 2323);
    } else if v == 32 {
        assert((16 * 32 + 128) * 32 == 20480int && (25 * 6 - 10) * 6 == 840int && 19723int / 8 == 2465);
    } else if v == 33 {
        assert((16 * 33 + 128) * 33 == 21648int && (25 * 6 - 10) * 6 == 840int && 20891int / 8 == 2611);
    } else if v == 34 {
        assert((16 * 34 + 128) * 34 == 22848int && (25 * 6 - 10) * 6 == 840int && 22091int / 8 == 2761);
    } else if v == 35 {
        assert((16 * 35 + 128) * 35 == 24080int && (25 * 7 - 10) * 7 == 1155int && 23008int / 8 == 2876);
    } else if v == 36 {
        assert((16 * 36 + 128) * 36 == 25344int && (25 * 7 - 10) * 7 == 1155int && 24272int / 8 == 3034);
    } else if v == 37 {
        assert((16 * 37 + 128) * 37 == 26640int && (25 * 7 - 10) * 7 == 1155int && 25568int / 8 == 3196);
    } else if v == 38 {
        assert((16 * 38 + 128) * 38 == 27968int && (25 * 7 - 10) * 7 == 1155int && 26896int / 8 == 3362);
    } else if v == 39 {
        assert((16 * 39 + 128) * 39 == 29328int && (25 * 7 - 10) * 7 == 1155int && 28256int / 8 == 3532);
    } else if v == 40 {
        assert((16 * 40 + 128) * 40 == 30720int && (25 * 7 - 10) * 7 == 1155int && 29648int / 8 == 3706);
    }
}

} // verus!
