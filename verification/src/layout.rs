//! The geometry of a symbol: where the function patterns lie and what
//! they show, the order in which data modules are filled, the mask
//! patterns, and the format and version information.

use vstd::prelude::*;
use crate::types::ErrorCorrectionLevel;
use crate::tables::valid_version;
use crate::tables::spec_side_length;
use crate::tables::spec_alignment_count;
use crate::bits::bit_at;
use vstd::arithmetic::div_mod::lemma_fundamental_div_mod_converse;
use vstd::arithmetic::div_mod::lemma_fundamental_div_mod;

verus! {

/// The distance between neighbouring alignment coordinates.
pub open spec fn spec_alignment_step(v: int) -> int {
    let n = v / 7 + 2;
    if v == 32 {
        26
    } else {
        (v * 4 + n * 2 + 1) / (n * 2 - 2) * 2
    }
}

/// The `i`-th alignment coordinate: 6 first, the others spaced evenly
/// down from seven modules before the far edge.
pub open spec fn spec_alignment_position(v: int, i: int) -> int {
    if i == 0 {
        6
    } else {
        spec_side_length(v) - 7 - (spec_alignment_count(v) - 1 - i) * spec_alignment_step(v)
    }
}

/// The first alignment coordinate from index `i` on that lies within two
/// modules of `x`, or -1.
pub open spec fn spec_axis_hit_from(v: int, x: int, i: int) -> int
    decreases spec_alignment_count(v) - i,
{
    if i >= spec_alignment_count(v) {
        -1
    } else if spec_alignment_position(v, i) - 2 <= x <= spec_alignment_position(v, i) + 2 {
        i
    } else {
        spec_axis_hit_from(v, x, i + 1)
    }
}

/// The index of the alignment coordinate within two modules of `x`, or -1.
pub open spec fn spec_axis_hit(v: int, x: int) -> int {
    spec_axis_hit_from(v, x, 0)
}

/// Whether alignment coordinates `i` and `j` would fall on a finder pattern.
pub open spec fn is_finder_corner(v: int, i: int, j: int) -> bool {
    let last = spec_alignment_count(v) - 1;
    (i == 0 && j == 0) || (i == 0 && j == last) || (i == last && j == 0)
}

/// The module belongs to an alignment pattern.
pub open spec fn is_alignment(v: int, r: int, c: int) -> bool {
    let i = spec_axis_hit(v, r);
    let j = spec_axis_hit(v, c);
    i >= 0 && j >= 0 && !is_finder_corner(v, i, j)
}

/// The distance between two coordinates.
pub open spec fn spec_dist(a: int, b: int) -> int {
    if a >= b {
        a - b
    } else {
        b - a
    }
}

/// The colour of a module of an alignment pattern: dark but for the ring
/// at distance one from the centre.
pub open spec fn alignment_dark(v: int, r: int, c: int) -> bool {
    let pr = spec_alignment_position(v, spec_axis_hit(v, r));
    let pc = spec_alignment_position(v, spec_axis_hit(v, c));
    !(spec_dist(r, pr) <= 1 && spec_dist(c, pc) <= 1 && (spec_dist(r, pr) == 1 || spec_dist(c, pc)
        == 1))
}

/// The module belongs to one of the three finder patterns or to the
/// separator around it.
pub open spec fn is_finder_zone(side: int, r: int, c: int) -> bool {
    (r <= 7 && c <= 7) || (r <= 7 && c >= side - 8) || (r >= side - 8 && c <= 7)
}

/// The colour of a module of a finder zone: a dark 3x3 core, a light
/// ring, a dark ring, and the light separator.
pub open spec fn finder_dark(side: int, r: int, c: int) -> bool {
    let cr = if r <= 7 {
        3
    } else {
        side - 4
    };
    let cc = if c <= 7 {
        3
    } else {
        side - 4
    };
    let dr = spec_dist(r, cr);
    let dc = spec_dist(c, cc);
    let d = if dr >= dc {
        dr
    } else {
        dc
    };
    d <= 1 || d == 3
}

/// The module belongs to a timing pattern.
pub open spec fn is_timing(r: int, c: int) -> bool {
    r == 6 || c == 6
}

/// The colour of a timing module: dark on even coordinates.
pub open spec fn timing_dark(r: int, c: int) -> bool {
    if r == 6 {
        c % 2 == 0
    } else {
        r % 2 == 0
    }
}

/// The module is reserved for format information (the always-dark module
/// included).
pub open spec fn is_format_zone(side: int, r: int, c: int) -> bool {
    (r == 8 && (c <= 8 || c >= side - 8)) || (c == 8 && (r <= 8 || r >= side - 8))
}

/// Which of the fifteen format bits a format module shows, or -1 for the
/// always-dark module.
pub open spec fn spec_format_bit_index(side: int, r: int, c: int) -> int {
    if c == 8 {
        if r <= 5 {
            r
        } else if r == 7 {
            6
        } else if r == 8 {
            7
        } else if r == side - 8 {
            -1
        } else {
            r - side + 15
        }
    } else {
        if c == 7 {
            8
        } else if c <= 5 {
            14 - c
        } else {
            side - 1 - c
        }
    }
}

/// The module is reserved for version information.
pub open spec fn is_version_zone(v: int, r: int, c: int) -> bool {
    let side = spec_side_length(v);
    v >= 7 && ((r <= 5 && side - 11 <= c <= side - 9) || (c <= 5 && side - 11 <= r <= side - 9))
}

/// Which of the eighteen version bits a version module shows.
pub open spec fn spec_version_bit_index(side: int, r: int, c: int) -> int {
    if r <= 5 {
        3 * r + (c - (side - 11))
    } else {
        3 * c + (r - (side - 11))
    }
}

/// The module belongs to a function pattern and carries no data.
pub open spec fn is_function(v: int, r: int, c: int) -> bool {
    let side = spec_side_length(v);
    is_finder_zone(side, r, c) || is_alignment(v, r, c) || is_timing(r, c) || is_format_zone(
        side,
        r,
        c,
    ) || is_version_zone(v, r, c)
}

/// The colour of a function module, given the format and version bits.
pub open spec fn function_dark(v: int, format: u32, version_bits: u32, r: int, c: int) -> bool {
    let side = spec_side_length(v);
    if is_finder_zone(side, r, c) {
        finder_dark(side, r, c)
    } else if is_alignment(v, r, c) {
        alignment_dark(v, r, c)
    } else if is_timing(r, c) {
        timing_dark(r, c)
    } else if is_format_zone(side, r, c) {
        let i = spec_format_bit_index(side, r, c);
        i < 0 || bit_at(format, i as u32)
    } else {
        bit_at(version_bits, spec_version_bit_index(side, r, c) as u32)
    }
}

/// One step of the division of a BCH code: shift, and subtract the
/// generator where bit `top` was set.
pub open spec fn spec_bch_step(rem: u32, generator: u32, top: u32) -> u32 {
    if bit_at(rem, top) {
        (rem << 1) ^ generator
    } else {
        rem << 1
    }
}

/// The remainder after `n` steps of the division.
pub open spec fn spec_bch_remainder(data: u32, generator: u32, top: u32, n: int) -> u32
    decreases n,
{
    if n <= 0 {
        data
    } else {
        spec_bch_step(spec_bch_remainder(data, generator, top, n - 1), generator, top)
    }
}

/// The fifteen format bits: level and mask, their ten BCH check bits for
/// the generator 0x537, the whole masked with 0x5412.
pub open spec fn spec_format_bits(ecl: ErrorCorrectionLevel, mask: u8) -> u32 {
    let data: u32 = ((ecl.spec_format_bits() as u32) << 3) | ((mask % 8) as u32);
    ((data << 10) | (spec_bch_remainder(data, 0x537, 9, 10) & 0x3FF)) ^ 0x5412
}

/// The eighteen version bits: the version and its twelve BCH check bits
/// for the generator 0x1F25.
pub open spec fn spec_version_bits(v: u32) -> u32 {
    (v << 12) | (spec_bch_remainder(v, 0x1F25, 11, 12) & 0xFFF)
}

/// Whether mask pattern `mask % 8` inverts the module at row `r`, column `c`.
pub open spec fn spec_mask_bit(mask: int, r: int, c: int) -> bool {
    let m = mask % 8;
    if m == 0 {
        (r + c) % 2 == 0
    } else if m == 1 {
        r % 2 == 0
    } else if m == 2 {
        c % 3 == 0
    } else if m == 3 {
        (r + c) % 3 == 0
    } else if m == 4 {
        (c / 3 + r / 2) % 2 == 0
    } else if m == 5 {
        (r * c) % 2 + (r * c) % 3 == 0
    } else if m == 6 {
        ((r * c) % 2 + (r * c) % 3) % 2 == 0
    } else {
        ((r + c) % 2 + (r * c) % 3) % 2 == 0
    }
}

/// The number of steps of the fill order: every module outside column 6.
pub open spec fn spec_step_count(side: int) -> int {
    side * (side - 1)
}

/// The column visited at step `t`: pairs of columns from the right edge
/// leftwards, the right column of a pair first, column 6 passed over.
pub open spec fn spec_step_col(side: int, t: int) -> int {
    let col = side - 1 - 2 * (t / (2 * side)) - t % 2;
    if col <= 6 {
        col - 1
    } else {
        col
    }
}

/// The row visited at step `t`: upwards in the first pair of columns,
/// downwards in the next, and so on in turn.
pub open spec fn spec_step_row(side: int, t: int) -> int {
    let vert = (t % (2 * side)) / 2;
    if (t / (2 * side)) % 2 == 0 {
        side - 1 - vert
    } else {
        vert
    }
}

/// The step at which the fill order visits the module at row `r`,
/// column `c` (for `c` other than 6).
pub open spec fn spec_step_of(side: int, r: int, c: int) -> int {
    let col = if c < 6 {
        c + 1
    } else {
        c
    };
    let right = col + col % 2;
    let pair = (side - 1 - right) / 2;
    let vert = if pair % 2 == 0 {
        side - 1 - r
    } else {
        r
    };
    pair * (2 * side) + 2 * vert + (right - col)
}

/// The number of data modules that the fill order visits before step `t`.
pub open spec fn spec_data_modules_before(v: int, t: int) -> int
    decreases t,
{
    if t <= 0 {
        0
    } else {
        spec_data_modules_before(v, t - 1) + if is_function(
            v,
            spec_step_row(spec_side_length(v), t - 1),
            spec_step_col(spec_side_length(v), t - 1),
        ) {
            0int
        } else {
            1int
        }
    }
}

/// Bit `n` of a sequence of codewords, the most significant bit of each
/// codeword first; the bits past the end are zero.
pub open spec fn spec_codeword_bit(codewords: Seq<u8>, n: int) -> bool {
    0 <= n && n / 8 < codewords.len() && bit_at(codewords[n / 8] as u32, (7 - n % 8) as u32)
}

/// The colour of the module at row `r`, column `c` of the symbol that
/// carries `codewords` under mask `mask`: a function module shows its
/// pattern; a data module shows the codeword bit that the fill order
/// brings to it, inverted where the mask says so.
pub open spec fn spec_module(
    codewords: Seq<u8>,
    v: int,
    ecl: ErrorCorrectionLevel,
    mask: u8,
    r: int,
    c: int,
) -> bool {
    if is_function(v, r, c) {
        function_dark(v, spec_format_bits(ecl, mask), spec_version_bits(v as u32), r, c)
    } else {
        spec_codeword_bit(
            codewords,
            spec_data_modules_before(v, spec_step_of(spec_side_length(v), r, c)),
        ) != spec_mask_bit(mask as int, r, c)
    }
}

/// The number of alignment coordinates along one axis.
pub fn alignment_count(version: u32) -> (r: usize)
    requires
        valid_version(version as int),
    ensures
        r == spec_alignment_count(version as int),
        r <= 7,
{
    if version == 1 {
        0
    } else {
        (version / 7 + 2) as usize
    }
}

/// What the alignment coordinates of every version above 1 satisfy: the
/// step is between 12 and 28 modules and the second coordinate lies at
/// least 12 modules after the first.
pub proof fn lemma_alignment_geometry(v: int)
    requires
        valid_version(v),
        v >= 2,
    ensures
        12 <= spec_alignment_step(v) <= 28,
        2 <= spec_alignment_count(v) <= 7,
        spec_side_length(v) - 7 - (spec_alignment_count(v) - 2) * spec_alignment_step(v) >= 18,
{
    if v == 2 {
        assert(2int / 7 + 2 == 2);
        assert(13int / 2 == 6);
        assert(spec_alignment_step(v) == 12);
        assert((2int - 2) * 12 == 0);
    } else if v == 3 {
        assert(3int / 7 + 2 == 2);
        assert(17int / 2 == 8);
        assert(spec_alignment_step(v) == 16);
        assert((2int - 2) * 16 == 0);
    } else if v == 4 {
        assert(4int / 7 + 2 == 2);
        assert(21int / 2 == 10);
        assert(spec_alignment_step(v) == 20);
        assert((2int - 2) * 20 == 0);
    } else if v == 5 {
        assert(5int / 7 + 2 == 2);
        assert(25int / 2 == 12);
        assert(spec_alignment_step(v) == 24);
        assert((2int - 2) * 24 == 0);
    } else if v == 6 {
        assert(6int / 7 + 2 == 2);
        assert(29int / 2 == 14);
        assert(spec_alignment_step(v) == 28);
        assert((2int - 2) * 28 == 0);
    } else if v == 7 {
        assert(7int / 7 + 2 == 3);
        assert(35int / 4 == 8);
        assert(spec_alignment_step(v) == 16);
        assert((3int - 2) * 16 == 16);
    } else if v == 8 {
        assert(8int / 7 + 2 == 3);
        assert(39int / 4 == 9);
        assert(spec_alignment_step(v) == 18);
        assert((3int - 2) * 18 == 18);
    } else if v == 9 {
        assert(9int / 7 + 2 == 3);
        assert(43int / 4 == 10);
        assert(spec_alignment_step(v) == 20);
        assert((3int - 2) * 20 == 20);
    } else if v == 10 {
        assert(10int / 7 + 2 == 3);
        assert(47int / 4 == 11);
        assert(spec_alignment_step(v) == 22);
        assert((3int - 2) * 22 == 22);
    } else if v == 11 {
        assert(11int / 7 + 2 == 3);
        assert(51int / 4 == 12);
        assert(spec_alignment_step(v) == 24);
        assert((3int - 2) * 24 == 24);
    } else if v == 12 {
        assert(12int / 7 + 2 == 3);
        assert(55int / 4 == 13);
        assert(spec_alignment_step(v) == 26);
        assert((3int - 2) * 26 == 26);
    } else if v == 13 {
        assert(13int / 7 + 2 == 3);
        assert(59int / 4 == 14);
        assert(spec_alignment_step(v) == 28);
        assert((3int - 2) * 28 == 28);
    } else if v == 14 {
        assert(14int / 7 + 2 == 4);
        assert(65int / 6 == 10);
        assert(spec_alignment_step(v) == 20);
        assert((4int - 2) * 20 == 40);
    } else if v == 15 {
        assert(15int / 7 + 2 == 4);
        assert(69int / 6 == 11);
        assert(spec_alignment_step(v) == 22);
        assert((4int - 2) * 22 == 44);
    } else if v == 16 {
        assert(16int / 7 + 2 == 4);
        assert(73int / 6 == 12);
        assert(spec_alignment_step(v) == 24);
        assert((4int - 2) * 24 == 48);
    } else if v == 17 {
        assert(17int / 7 + 2 == 4);
        assert(77int / 6 == 12);
        assert(spec_alignment_step(v) == 24);
        assert((4int - 2) * 24 == 48);
    } else if v == 18 {
        assert(18int / 7 + 2 == 4);
        assert(81int / 6 == 13);
        assert(spec_alignment_step(v) == 26);
        assert((4int - 2) * 26 == 52);
    } else if v == 19 {
        assert(19int / 7 + 2 == 4);
        assert(85int / 6 == 14);
        assert(spec_alignment_step(v) == 28);
        assert((4int - 2) * 28 == 56);
    } else if v == 20 {
        assert(20int / 7 + 2 == 4);
        assert(89int / 6 == 14);
        assert(spec_alignment_step(v) == 28);
        assert((4int - 2) * 28 == 56);
    } else if v == 21 {
        assert(21int / 7 + 2 == 5);
        assert(95int / 8 == 11);
        assert(spec_alignment_step(v) == 22);
        assert((5int - 2) * 22 == 66);
    } else if v == 22 {
        assert(22int / 7 + 2 == 5);
        assert(99int / 8 == 12);
        assert(spec_alignment_step(v) == 24);
        assert((5int - 2) * 24 == 72);
    } else if v == 23 {
        assert(23int / 7 + 2 == 5);
        assert(103int / 8 == 12);
        assert(spec_alignment_step(v) == 24);
        assert((5int - 2) * 24 == 72);
    } else if v == 24 {
        assert(24int / 7 + 2 == 5);
        assert(107int / 8 == 13);
        assert(spec_alignment_step(v) == 26);
        assert((5int - 2) * 26 == 78);
    } else if v == 25 {
        assert(25int / 7 + 2 == 5);
        assert(111int / 8 == 13);
        assert(spec_alignment_step(v) == 26);
        assert((5int - 2) * 26 == 78);
    } else if v == 26 {
        assert(26int / 7 + 2 == 5);
        assert(115int / 8 == 14);
        assert(spec_alignment_step(v) == 28);
        assert((5int - 2) * 28 == 84);
    } else if v == 27 {
        assert(27int / 7 + 2 == 5);
        assert(119int / 8 == 14);
        assert(spec_alignment_step(v) == 28);
        assert((5int - 2) * 28 == 84);
    } else if v == 28 {
        assert(28int / 7 + 2 == 6);
        assert(125int / 10 == 12);
        assert(spec_alignment_step(v) == 24);
        assert((6int - 2) * 24 == 96);
    } else if v == 29 {
        assert(29int / 7 + 2 == 6);
        assert(129int / 10 == 12);
        assert(spec_alignment_step(v) == 24);
        assert((6int - 2) * 24 == 96);
    } else if v == 30 {
        assert(30int / 7 + 2 == 6);
        assert(133int / 10 == 13);
        assert(spec_alignment_step(v) == 26);
        assert((6int - 2) * 26 == 104);
    } else if v == 31 {
        assert(31int / 7 + 2 == 6);
        assert(137int / 10 == 13);
        assert(spec_alignment_step(v) == 26);
        assert((6int - 2) * 26 == 104);
    } else if v == 32 {
        assert(32int / 7 + 2 == 6);
        assert((6int - 2) * 26 == 104);
    } else if v == 33 {
        assert(33int / 7 + 2 == 6);
        assert(145int / 10 == 14);
        assert(spec_alignment_step(v) == 28);
        assert((6int - 2) * 28 == 112);
    } else if v == 34 {
        assert(34int / 7 + 2 == 6);
        assert(149int / 10 == 14);
        assert(spec_alignment_step(v) == 28);
        assert((6int - 2) * 28 == 112);
    } else if v == 35 {
        assert(35int / 7 + 2 == 7);
        assert(155int / 12 == 12);
        assert(spec_alignment_step(v) == 24);
        assert((7int - 2) * 24 == 120);
    } else if v == 36 {
        assert(36int / 7 + 2 == 7);
        assert(159int / 12 == 13);
        assert(spec_alignment_step(v) == 26);
        assert((7int - 2) * 26 == 130);
    } else if v == 37 {
        assert(37int / 7 + 2 == 7);
        assert(163int / 12 == 13);
        assert(spec_alignment_step(v) == 26);
        assert((7int - 2) * 26 == 130);
    } else if v == 38 {
        assert(38int / 7 + 2 == 7);
        assert(167int / 12 == 13);
        assert(spec_alignment_step(v) == 26);
        assert((7int - 2) * 26 == 130);
    } else if v == 39 {
        assert(39int / 7 + 2 == 7);
        assert(171int / 12 == 14);
        assert(spec_alignment_step(v) == 28);
        assert((7int - 2) * 28 == 140);
    } else if v == 40 {
        assert(40int / 7 + 2 == 7);
        assert(175int / 12 == 14);
        assert(spec_alignment_step(v) == 28);
        assert((7int - 2) * 28 == 140);
    }
}

/// The `i`-th alignment coordinate.
pub fn alignment_position(version: u32, i: usize) -> (r: usize)
    requires
        valid_version(version as int),
        i < spec_alignment_count(version as int),
    ensures
        r == spec_alignment_position(version as int, i as int),
        6 <= r <= spec_side_length(version as int) - 7,
{
    if i == 0 {
        return 6;
    }
    let v: usize = version as usize;
    let n: usize = v / 7 + 2;
    let step: usize = if v == 32 {
        26
    } else {
        (v * 4 + n * 2 + 1) / (n * 2 - 2) * 2
    };
    proof {
        lemma_alignment_geometry(v as int);
        assert((n - 1 - i) * step <= (n - 2) * step && (n - 1 - i) * step >= 0) by (nonlinear_arith)
            requires
                1 <= i < n,
                step >= 0,
        ;
    }
    assert((n - 2) * step <= 5 * 28) by (nonlinear_arith)
        requires
            2 <= n <= 7,
            step <= 28,
    ;
    17 + 4 * v - 7 - (n - 1 - i) * step
}

/// The index and the value of the alignment coordinate within two
/// modules of `x`, if there is one.
pub fn axis_hit(version: u32, x: usize) -> (r: Option<(usize, usize)>)
    requires
        valid_version(version as int),
    ensures
        match r {
            Some((i, p)) => i == spec_axis_hit(version as int, x as int) && p
                == spec_alignment_position(version as int, i as int) && i < spec_alignment_count(
                version as int,
            ) && p - 2 <= x <= p + 2 && p >= 6,
            None => spec_axis_hit(version as int, x as int) == -1,
        },
{
    let n = alignment_count(version);
    let mut i: usize = 0;
    while i < n
        invariant
            i <= n,
            n == spec_alignment_count(version as int),
            valid_version(version as int),
            spec_axis_hit(version as int, x as int) == spec_axis_hit_from(
                version as int,
                x as int,
                i as int,
            ),
        decreases n - i,
    {
        let p = alignment_position(version, i);
        if p - 2 <= x && x <= p + 2 {
            return Some((i, p));
        }
        i += 1;
    }
    None
}

fn dist(a: usize, b: usize) -> (r: usize)
    ensures
        r == spec_dist(a as int, b as int),
{
    if a >= b {
        a - b
    } else {
        b - a
    }
}

/// Whether the module of an alignment pattern at row `r`, column `c` is
/// dark, or `None` where the module belongs to no alignment pattern.
pub fn alignment_module(version: u32, r: usize, c: usize) -> (res: Option<bool>)
    requires
        valid_version(version as int),
    ensures
        match res {
            Some(d) => is_alignment(version as int, r as int, c as int) && d == alignment_dark(
                version as int,
                r as int,
                c as int,
            ),
            None => !is_alignment(version as int, r as int, c as int),
        },
{
    let n = alignment_count(version);
    match axis_hit(version, r) {
        None => None,
        Some((i, pr)) => match axis_hit(version, c) {
            None => None,
            Some((j, pc)) => {
                if (i == 0 && j == 0) || (i == 0 && j == n - 1) || (i == n - 1 && j == 0) {
                    None
                } else {
                    let dr = dist(r, pr);
                    let dc = dist(c, pc);
                    Some(!(dr <= 1 && dc <= 1 && (dr == 1 || dc == 1)))
                }
            },
        },
    }
}

/// Whether the module at row `r`, column `c` belongs to a function
/// pattern, and if so whether it is dark: `None` for a data module.
pub fn function_module(version: u32, format: u32, version_bits: u32, r: usize, c: usize) -> (res:
    Option<bool>)
    requires
        valid_version(version as int),
        r < spec_side_length(version as int),
        c < spec_side_length(version as int),
    ensures
        match res {
            Some(d) => is_function(version as int, r as int, c as int) && d == function_dark(
                version as int,
                format,
                version_bits,
                r as int,
                c as int,
            ),
            None => !is_function(version as int, r as int, c as int),
        },
{
    let side: usize = 17 + 4 * version as usize;
    if (r <= 7 && c <= 7) || (r <= 7 && c >= side - 8) || (r >= side - 8 && c <= 7) {
        let cr: usize = if r <= 7 {
            3
        } else {
            side - 4
        };
        let cc: usize = if c <= 7 {
            3
        } else {
            side - 4
        };
        let dr = dist(r, cr);
        let dc = dist(c, cc);
        let d = if dr >= dc {
            dr
        } else {
            dc
        };
        return Some(d <= 1 || d == 3);
    }
    match alignment_module(version, r, c) {
        Some(d) => {
            return Some(d);
        },
        None => {},
    }
    if r == 6 {
        return Some(c % 2 == 0);
    }
    if c == 6 {
        return Some(r % 2 == 0);
    }
    if (r == 8 && (c <= 8 || c >= side - 8)) || (c == 8 && (r <= 8 || r >= side - 8)) {
        if c == 8 && r == side - 8 {
            return Some(true);
        }
        let i: usize = if c == 8 {
            if r <= 5 {
                r
            } else if r == 7 {
                6
            } else if r == 8 {
                7
            } else {
                r + 15 - side
            }
        } else {
            if c == 7 {
                8
            } else if c <= 5 {
                14 - c
            } else {
                side - 1 - c
            }
        };
        return Some((format >> (i as u32)) & 1 == 1);
    }
    if version >= 7 && ((r <= 5 && side - 11 <= c && c <= side - 9) || (c <= 5 && side - 11 <= r
        && r <= side - 9)) {
        let i: usize = if r <= 5 {
            3 * r + (c - (side - 11))
        } else {
            3 * c + (r - (side - 11))
        };
        return Some((version_bits >> (i as u32)) & 1 == 1);
    }
    None
}

/// The remainder after `n` steps of the division of a BCH code.
fn bch_remainder(data: u32, generator: u32, top: u32, n: u32) -> (r: u32)
    requires
        top < 32,
    ensures
        r == spec_bch_remainder(data, generator, top, n as int),
{
    let mut rem: u32 = data;
    let mut i: u32 = 0;
    while i < n
        invariant
            i <= n,
            top < 32,
            rem == spec_bch_remainder(data, generator, top, i as int),
        decreases n - i,
    {
        rem = if (rem >> top) & 1 == 1 {
            (rem << 1) ^ generator
        } else {
            rem << 1
        };
        i += 1;
    }
    rem
}

/// The fifteen format bits of a symbol of level `ecl` under mask `mask % 8`.
pub fn format_bits(ecl: ErrorCorrectionLevel, mask: u8) -> (r: u32)
    ensures
        r == spec_format_bits(ecl, mask),
{
    let data: u32 = (ecl.format_bits() << 3) | ((mask % 8) as u32);
    ((data << 10) | (bch_remainder(data, 0x537, 9, 10) & 0x3FF)) ^ 0x5412
}

/// The eighteen version bits of a symbol of version `version`.
pub fn version_bits(version: u32) -> (r: u32)
    ensures
        r == spec_version_bits(version),
{
    (version << 12) | (bch_remainder(version, 0x1F25, 11, 12) & 0xFFF)
}

/// Whether mask pattern `mask % 8` inverts the module at row `r`, column `c`.
pub fn mask_bit(mask: u8, r: usize, c: usize) -> (res: bool)
    requires
        r + c <= usize::MAX,
        r * c <= usize::MAX,
    ensures
        res == spec_mask_bit(mask as int, r as int, c as int),
{
    let m = mask % 8;
    if m == 0 {
        (r + c) % 2 == 0
    } else if m == 1 {
        r % 2 == 0
    } else if m == 2 {
        c % 3 == 0
    } else if m == 3 {
        (r + c) % 3 == 0
    } else if m == 4 {
        (c / 3 + r / 2) % 2 == 0
    } else if m == 5 {
        (r * c) % 2 + (r * c) % 3 == 0
    } else if m == 6 {
        ((r * c) % 2 + (r * c) % 3) % 2 == 0
    } else {
        ((r + c) % 2 + (r * c) % 3) % 2 == 0
    }
}

/// Where the fill order stands at step `t`: row and column.
pub fn step_cell(side: usize, t: usize) -> (res: (usize, usize))
    requires
        21 <= side <= 177,
        side % 2 == 1,
        t < spec_step_count(side as int),
    ensures
        res.0 == spec_step_row(side as int, t as int),
        res.1 == spec_step_col(side as int, t as int),
        res.0 < side,
        res.1 < side,
{
    let pair: usize = t / (2 * side);
    let within: usize = t % (2 * side);
    let vert: usize = within / 2;
    assert(2 * pair + 1 < side) by (nonlinear_arith)
        requires
            t < side * (side - 1),
            pair == (t as int) / (2 * side),
            side >= 21,
            side % 2 == 1,
    ;
    let col: usize = side - 1 - 2 * pair - t % 2;
    assert(col >= 1);
    let c: usize = if col <= 6 {
        col - 1
    } else {
        col
    };
    let r: usize = if pair % 2 == 0 {
        side - 1 - vert
    } else {
        vert
    };
    (r, c)
}

/// The step at which the fill order visits row `r`, column `c`.
pub fn step_of(side: usize, r: usize, c: usize) -> (t: usize)
    requires
        21 <= side <= 177,
        side % 2 == 1,
        r < side,
        c < side,
        c != 6,
    ensures
        t == spec_step_of(side as int, r as int, c as int),
        t < spec_step_count(side as int),
{
    let col: usize = if c < 6 {
        c + 1
    } else {
        c
    };
    let right: usize = col + col % 2;
    let pair: usize = (side - 1 - right) / 2;
    let vert: usize = if pair % 2 == 0 {
        side - 1 - r
    } else {
        r
    };
    assert(pair * (2 * side) + 2 * side <= side * (side - 1)) by (nonlinear_arith)
        requires
            2 * pair + 2 <= side - 1,
            side >= 21,
    ;
    assert(0 <= pair * (2 * side) <= 88 * 354) by (nonlinear_arith)
        requires
            0 <= pair <= 88,
            0 <= side <= 177,
    ;
    pair * (2 * side) + 2 * vert + (right - col)
}

/// The fill order reaches every module outside column 6: the step that
/// `spec_step_of` gives for a module is a step of the order, and the
/// order stands on that module at that step.
pub proof fn lemma_step_of_is_visited(side: int, r: int, c: int)
    requires
        side >= 9,
        side % 2 == 1,
        0 <= r < side,
        0 <= c < side,
        c != 6,
    ensures
        0 <= spec_step_of(side, r, c) < spec_step_count(side),
        spec_step_row(side, spec_step_of(side, r, c)) == r,
        spec_step_col(side, spec_step_of(side, r, c)) == c,
{
    let col = if c < 6 {
        c + 1
    } else {
        c
    };
    let right = col + col % 2;
    let pair = (side - 1 - right) / 2;
    let vert = if pair % 2 == 0 {
        side - 1 - r
    } else {
        r
    };
    let j = right - col;
    let t = spec_step_of(side, r, c);
    assert(right == side - 1 - 2 * pair);
    assert(t == pair * (2 * side) + (2 * vert + j));
    lemma_fundamental_div_mod_converse(t, 2 * side, pair, 2 * vert + j);
    assert(t == (pair * side + vert) * 2 + j) by (nonlinear_arith)
        requires
            t == pair * (2 * side) + (2 * vert + j),
    ;
    lemma_fundamental_div_mod_converse(t, 2, pair * side + vert, j);
    assert(pair * (2 * side) + 2 * side <= side * (side - 1)) by (nonlinear_arith)
        requires
            2 * pair + 2 <= side - 1,
            side >= 9,
    ;
    assert(pair * (2 * side) >= 0) by (nonlinear_arith)
        requires
            pair >= 0,
            side >= 0,
    ;
}

/// No module is visited twice: the step of the module on which the fill
/// order stands at step `t` is `t`, and that module is not in column 6.
pub proof fn lemma_step_is_unique(side: int, t: int)
    requires
        side >= 9,
        side % 2 == 1,
        0 <= t < spec_step_count(side),
    ensures
        0 <= spec_step_row(side, t) < side,
        0 <= spec_step_col(side, t) < side,
        spec_step_col(side, t) != 6,
        spec_step_of(side, spec_step_row(side, t), spec_step_col(side, t)) == t,
{
    let pair = t / (2 * side);
    let within = t % (2 * side);
    let vert = within / 2;
    let j = t % 2;
    lemma_fundamental_div_mod(t, 2 * side);
    assert(t == (2 * side) * pair + within);
    assert(0 <= within < 2 * side);
    assert(side * (2 * pair) == (2 * side) * pair) by (nonlinear_arith);
    assert(2 * pair >= side - 1 ==> side * (2 * pair) >= side * (side - 1)) by (nonlinear_arith)
        requires
            side > 0,
    ;
    assert(pair < 0 ==> (2 * side) * pair <= -(2 * side)) by (nonlinear_arith)
        requires
            side > 0,
    ;
    assert(0 <= pair && 2 * pair + 2 <= side - 1);
    assert(t == (side * pair + vert) * 2 + within % 2) by (nonlinear_arith)
        requires
            t == (2 * side) * pair + within,
            within == 2 * vert + within % 2,
    ;
    lemma_fundamental_div_mod_converse(t, 2, side * pair + vert, within % 2);
    assert(j == within % 2);
    let r = spec_step_row(side, t);
    let c = spec_step_col(side, t);
    let col0 = side - 1 - 2 * pair - j;
    let col = if c < 6 {
        c + 1
    } else {
        c
    };
    assert(col == col0);
    let right = col + col % 2;
    assert(right == side - 1 - 2 * pair);
    assert((side - 1 - right) / 2 == pair);
    assert(spec_step_of(side, r, c) == pair * (2 * side) + 2 * vert + j);
    assert(pair * (2 * side) == (2 * side) * pair) by (nonlinear_arith);
}

/// The count of data modules grows along the fill order, and grows past
/// every data module: two data modules never show the same codeword bit.
pub proof fn lemma_data_modules_increase(v: int, a: int, b: int)
    requires
        0 <= a <= b,
    ensures
        0 <= spec_data_modules_before(v, a) <= spec_data_modules_before(v, b),
        spec_data_modules_before(v, a) <= a,
        a < b && !is_function(
            v,
            spec_step_row(spec_side_length(v), a),
            spec_step_col(spec_side_length(v), a),
        ) ==> spec_data_modules_before(v, a) < spec_data_modules_before(v, b),
    decreases b,
{
    if a < b {
        lemma_data_modules_increase(v, a, b - 1);
    } else if a > 0 {
        lemma_data_modules_increase(v, a - 1, a - 1);
    }
}

/// The function patterns of a symbol do not depend on the codewords it
/// carries, and the three finder patterns with their separators stand in
/// its corners under every mask.
pub proof fn lemma_function_patterns_fixed(
    a: Seq<u8>,
    b: Seq<u8>,
    v: int,
    ecl: ErrorCorrectionLevel,
    mask: u8,
    r: int,
    c: int,
)
    requires
        is_function(v, r, c),
    ensures
        spec_module(a, v, ecl, mask, r, c) == spec_module(b, v, ecl, mask, r, c),
        is_finder_zone(spec_side_length(v), r, c) ==> spec_module(a, v, ecl, mask, r, c)
            == finder_dark(spec_side_length(v), r, c),
{
}

} // verus!
