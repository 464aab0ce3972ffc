//! The module matrix of a symbol and its construction from codewords.

use vstd::prelude::*;
use crate::types::ErrorCorrectionLevel;
use crate::types::EncodeError;
use crate::types::Module;
use crate::tables::valid_version;
use crate::tables::spec_side_length;
use crate::tables::spec_total_codewords;
use crate::tables::total_codewords;
use crate::layout::spec_step_count;
use crate::layout::spec_data_modules_before;
use crate::layout::spec_codeword_bit;
use crate::layout::spec_module;
use crate::layout::spec_format_bits;
use crate::layout::spec_version_bits;
use crate::layout::function_module;
use crate::layout::format_bits;
use crate::layout::version_bits;
use crate::layout::mask_bit;
use crate::layout::step_cell;
use crate::layout::step_of;

verus! {

/// Whether the module at row `r`, column `c` of a grid is dark; every
/// module outside the grid is light.
pub open spec fn grid_dark(grid: Seq<Seq<bool>>, r: int, c: int) -> bool {
    0 <= r < grid.len() && 0 <= c < grid[r].len() && grid[r][c]
}

/// The grid is a square of the given side.
pub open spec fn is_square(grid: Seq<Seq<bool>>, side: int) -> bool {
    grid.len() == side && forall|r: int| 0 <= r < side ==> (#[trigger] grid[r]).len() == side
}

/// The grid of the symbol that carries `codewords` under mask `mask`.
pub open spec fn spec_symbol_grid(
    codewords: Seq<u8>,
    v: int,
    ecl: ErrorCorrectionLevel,
    mask: u8,
) -> Seq<Seq<bool>> {
    Seq::new(
        spec_side_length(v) as nat,
        |r: int|
            Seq::new(
                spec_side_length(v) as nat,
                |c: int| spec_module(codewords, v, ecl, mask, r, c),
            ),
    )
}

/// A finished symbol: a square grid of dark and light modules whose side
/// is that of its version.
#[derive(Debug)]
pub struct Matrix {
    version: u32,
    cells: Vec<Vec<bool>>,
}

impl Matrix {
    #[verifier::type_invariant]
    spec fn well_formed(&self) -> bool {
        &&& valid_version(self.version as int)
        &&& self.cells@.len() == spec_side_length(self.version as int)
        &&& forall|r: int|
            0 <= r < self.cells@.len() ==> (#[trigger] self.cells@[r])@.len() == spec_side_length(
                self.version as int,
            )
    }

    /// The version of the symbol.
    pub closed spec fn spec_version(&self) -> int {
        self.version as int
    }

    /// The number of modules along one side.
    pub open spec fn spec_side(&self) -> int {
        spec_side_length(self.spec_version())
    }

    /// The rows of the symbol, `true` standing for a dark module.
    pub closed spec fn grid(&self) -> Seq<Seq<bool>> {
        Seq::new(self.cells@.len(), |r: int| self.cells@[r]@)
    }

    /// Whether the module at row `r`, column `c` is dark; every module
    /// outside the grid is light.
    pub open spec fn spec_dark(&self, r: int, c: int) -> bool {
        grid_dark(self.grid(), r, c)
    }

    /// The version of the symbol.
    pub fn version(&self) -> (v: u32)
        ensures
            v == self.spec_version(),
            valid_version(v as int),
    {
        proof {
            use_type_invariant(self);
        }
        self.version
    }

    /// The number of modules along one side: 17 + 4 * version.
    pub fn side_length(&self) -> (s: u32)
        ensures
            s == self.spec_side(),
            valid_version(self.spec_version()),
            21 <= s <= 177,
            is_square(self.grid(), s as int),
    {
        proof {
            use_type_invariant(self);
        }
        17 + 4 * self.version
    }

    /// Whether the module at row `row`, column `col` is dark.
    pub fn is_dark(&self, row: usize, col: usize) -> (d: bool)
        ensures
            d == self.spec_dark(row as int, col as int),
    {
        proof {
            use_type_invariant(self);
        }
        if row < self.cells.len() {
            let line = &self.cells[row];
            col < line.len() && line[col]
        } else {
            false
        }
    }

    /// The colour of the module at row `row`, column `col`.
    pub fn module_at(&self, row: u32, col: u32) -> (m: Module)
        ensures
            m == (if self.spec_dark(row as int, col as int) {
                Module::Dark
            } else {
                Module::Light
            }),
    {
        if self.is_dark(row as usize, col as usize) {
            Module::Dark
        } else {
            Module::Light
        }
    }

    /// A symbol with the given rows, `true` standing for dark: `None`
    /// unless the rows form a square whose side is that of a version.
    pub fn from_rows(rows: Vec<Vec<bool>>) -> (r: Option<Matrix>)
        ensures
            match r {
                Some(m) => rows@.len() == m.spec_side() && valid_version(m.spec_version())
                    && m.grid() == Seq::new(rows@.len(), |i: int| rows@[i]@),
                None => !(exists|v: int|
                    valid_version(v) && rows@.len() == spec_side_length(v) && forall|i: int|
                        0 <= i < rows@.len() ==> (#[trigger] rows@[i])@.len() == rows@.len()),
            },
    {
        let n = rows.len();
        if n < 21 || n > 177 || (n - 17) % 4 != 0 {
            return None;
        }
        let version: u32 = ((n - 17) / 4) as u32;
        let mut i: usize = 0;
        while i < n
            invariant
                i <= n == rows@.len(),
                forall|k: int| 0 <= k < i ==> (#[trigger] rows@[k])@.len() == n,
            decreases n - i,
        {
            if rows[i].len() != n {
                return None;
            }
            i += 1;
        }
        Some(Matrix { version, cells: rows })
    }
}

/// For every step of the fill order, the number of data modules visited
/// before it.
pub fn data_index_table(version: u32) -> (table: Vec<u32>)
    requires
        valid_version(version as int),
    ensures
        table@.len() == spec_step_count(spec_side_length(version as int)),
        forall|t: int|
            0 <= t < table@.len() ==> table@[t] == spec_data_modules_before(version as int, t),
{
    let side: usize = 17 + 4 * version as usize;
    assert(side * (side - 1) <= 177 * 176) by (nonlinear_arith)
        requires
            21 <= side <= 177,
    ;
    let steps: usize = side * (side - 1);
    let no_bits: u32 = 0;
    let mut table: Vec<u32> = Vec::new();
    let mut seen: u32 = 0;
    let mut t: usize = 0;
    while t < steps
        invariant
            t <= steps,
            valid_version(version as int),
            side == spec_side_length(version as int),
            steps == spec_step_count(side as int),
            steps <= 177 * 176,
            table@.len() == t,
            seen == spec_data_modules_before(version as int, t as int),
            seen <= t,
            forall|k: int| 0 <= k < t ==> table@[k] == spec_data_modules_before(version as int, k),
        decreases steps - t,
    {
        table.push(seen);
        let (r, c) = step_cell(side, t);
        if function_module(version, no_bits, no_bits, r, c).is_none() {
            seen += 1;
        }
        t += 1;
    }
    table
}

/// Bit `n` of `codewords`, most significant bit of each codeword first.
pub fn codeword_bit(codewords: &Vec<u8>, n: u32) -> (b: bool)
    ensures
        b == spec_codeword_bit(codewords@, n as int),
{
    let i: usize = (n / 8) as usize;
    if i < codewords.len() {
        ((codewords[i] as u32) >> (7 - n % 8)) & 1 == 1
    } else {
        false
    }
}

/// The symbol of `codewords` under mask `mask % 8`, built with the
/// fill-order table of the version, which `data_index_table` gives.
pub(crate) fn build_matrix_from_table(
    codewords: &Vec<u8>,
    version: u32,
    ecl: ErrorCorrectionLevel,
    mask: u8,
    table: &Vec<u32>,
) -> (m: Matrix)
    requires
        valid_version(version as int),
        table@.len() == spec_step_count(spec_side_length(version as int)),
        forall|t: int|
            0 <= t < table@.len() ==> table@[t] == spec_data_modules_before(version as int, t),
    ensures
        m.spec_version() == version,
        m.grid() == spec_symbol_grid(codewords@, version as int, ecl, mask),
{
    let side: usize = 17 + 4 * version as usize;
    let format = format_bits(ecl, mask);
    let vbits = version_bits(version);
    let mut cells: Vec<Vec<bool>> = Vec::new();
    let mut r: usize = 0;
    while r < side
        invariant
            r <= side,
            valid_version(version as int),
            side == spec_side_length(version as int),
            format == spec_format_bits(ecl, mask),
            vbits == spec_version_bits(version),
            table@.len() == spec_step_count(side as int),
            forall|t: int|
                0 <= t < table@.len() ==> table@[t] == spec_data_modules_before(version as int, t),
            cells@.len() == r,
            forall|i: int| 0 <= i < r ==> (#[trigger] cells@[i])@.len() == side,
            forall|i: int, j: int|
                0 <= i < r && 0 <= j < side ==> #[trigger] cells@[i]@[j] == spec_module(
                    codewords@,
                    version as int,
                    ecl,
                    mask,
                    i,
                    j,
                ),
        decreases side - r,
    {
        let mut line: Vec<bool> = Vec::new();
        let mut c: usize = 0;
        while c < side
            invariant
                c <= side,
                r < side,
                valid_version(version as int),
                side == spec_side_length(version as int),
                format == spec_format_bits(ecl, mask),
                vbits == spec_version_bits(version),
                table@.len() == spec_step_count(side as int),
                forall|t: int|
                    0 <= t < table@.len() ==> table@[t] == spec_data_modules_before(
                        version as int,
                        t,
                    ),
                line@.len() == c,
                forall|j: int|
                    0 <= j < c ==> #[trigger] line@[j] == spec_module(
                        codewords@,
                        version as int,
                        ecl,
                        mask,
                        r as int,
                        j,
                    ),
            decreases side - c,
        {
            let dark = match function_module(version, format, vbits, r, c) {
                Some(d) => d,
                None => {
                    let t = step_of(side, r, c);
                    assert(r * c <= 176 * 176) by (nonlinear_arith)
                        requires
                            r <= 176,
                            c <= 176,
                    ;
                    codeword_bit(codewords, table[t]) != mask_bit(mask, r, c)
                },
            };
            line.push(dark);
            c += 1;
        }
        cells.push(line);
        r += 1;
    }
    let m = Matrix { version, cells };
    proof {
        let want = spec_symbol_grid(codewords@, version as int, ecl, mask);
        assert(m.grid().len() == want.len());
        assert forall|i: int| 0 <= i < want.len() implies m.grid()[i] =~= want[i] by {
            assert(m.cells@[i]@.len() == side);
        }
        assert(m.grid() =~= want);
    }
    m
}

/// The symbol that carries `codewords` at version `version` and level
/// `ecl` under mask pattern `mask % 8`: every function module shows its
/// pattern and every data module its codeword bit, masked.
/// `InvalidVersion` exactly when `version` is outside 1..=40;
/// `InternalEncodingError` exactly when the version is valid and the
/// number of codewords is not that of the version.
pub fn build_matrix(codewords: &Vec<u8>, version: u32, ecl: ErrorCorrectionLevel, mask: u8) -> (r:
    Result<Matrix, EncodeError>)
    ensures
        match r {
            Ok(m) => valid_version(version as int) && codewords@.len() == spec_total_codewords(
                version as int,
            ) && m.spec_version() == version && m.grid() == spec_symbol_grid(
                codewords@,
                version as int,
                ecl,
                mask,
            ),
            Err(e) => if !valid_version(version as int) {
                e == EncodeError::InvalidVersion
            } else {
                e == EncodeError::InternalEncodingError && codewords@.len() != spec_total_codewords(
                    version as int,
                )
            },
        },
{
    if version < 1 || version > 40 {
        return Err(EncodeError::InvalidVersion);
    }
    if codewords.len() != total_codewords(version) as usize {
        return Err(EncodeError::InternalEncodingError);
    }
    let table = data_index_table(version);
    Ok(build_matrix_from_table(codewords, version, ecl, mask, &table))
}

} // verus!
