//! The penalty score of a masked symbol: runs of one colour, blocks of
//! one colour, finder-like patterns, and the balance of dark and light.

use vstd::prelude::*;
use crate::matrix::Matrix;
use crate::matrix::grid_dark;

verus! {

/// Row `r` of a grid.
pub open spec fn spec_row(grid: Seq<Seq<bool>>, r: int) -> Seq<bool> {
    Seq::new(grid.len(), |c: int| grid_dark(grid, r, c))
}

/// Column `c` of a grid.
pub open spec fn spec_column(grid: Seq<Seq<bool>>, c: int) -> Seq<bool> {
    Seq::new(grid.len(), |r: int| grid_dark(grid, r, c))
}

/// The length of the run of one colour that ends at position `i`.
pub open spec fn spec_run_len(line: Seq<bool>, i: int) -> int
    decreases i,
{
    if i <= 0 {
        1
    } else if line[i] == line[i - 1] {
        spec_run_len(line, i - 1) + 1
    } else {
        1
    }
}

/// What position `i` adds to the penalty for runs: 3 where a run reaches
/// five modules, 1 for each module beyond.
pub open spec fn spec_run_penalty_at(line: Seq<bool>, i: int) -> int {
    let n = spec_run_len(line, i);
    if n == 5 {
        3
    } else if n > 5 {
        1
    } else {
        0
    }
}

/// The penalty for runs among the first `n` modules of a line.
pub open spec fn spec_run_penalty(line: Seq<bool>, n: int) -> int
    decreases n,
{
    if n <= 0 {
        0
    } else {
        spec_run_penalty(line, n - 1) + spec_run_penalty_at(line, n - 1)
    }
}

/// Whether the eleven modules from `i` on show the finder's 1:1:3:1:1
/// ratio with four light modules after it or before it.
pub open spec fn is_finder_like(line: Seq<bool>, i: int) -> bool {
    (line[i] && !line[i + 1] && line[i + 2] && line[i + 3] && line[i + 4] && !line[i + 5] && line[i
        + 6] && !line[i + 7] && !line[i + 8] && !line[i + 9] && !line[i + 10]) || (!line[i]
        && !line[i + 1] && !line[i + 2] && !line[i + 3] && line[i + 4] && !line[i + 5] && line[i
        + 6] && line[i + 7] && line[i + 8] && !line[i + 9] && line[i + 10])
}

/// The penalty for finder-like patterns that start among the first `n`
/// positions of a line: 40 each.
pub open spec fn spec_finder_penalty(line: Seq<bool>, n: int) -> int
    decreases n,
{
    if n <= 0 {
        0
    } else {
        spec_finder_penalty(line, n - 1) + if is_finder_like(line, n - 1) {
            40int
        } else {
            0int
        }
    }
}

/// The penalty of one line for runs and finder-like patterns.
pub open spec fn spec_line_penalty(line: Seq<bool>) -> int {
    spec_run_penalty(line, line.len() as int) + spec_finder_penalty(line, line.len() - 10)
}

/// The penalty of the first `n` rows and the first `n` columns.
pub open spec fn spec_lines_penalty(grid: Seq<Seq<bool>>, n: int) -> int
    decreases n,
{
    if n <= 0 {
        0
    } else {
        spec_lines_penalty(grid, n - 1) + spec_line_penalty(spec_row(grid, n - 1))
            + spec_line_penalty(spec_column(grid, n - 1))
    }
}

/// Whether the 2x2 block whose top left module is at row `r`, column `c`
/// is of one colour.
pub open spec fn is_block(grid: Seq<Seq<bool>>, r: int, c: int) -> bool {
    grid_dark(grid, r, c) == grid_dark(grid, r, c + 1) && grid_dark(grid, r, c) == grid_dark(
        grid,
        r + 1,
        c,
    ) && grid_dark(grid, r, c) == grid_dark(grid, r + 1, c + 1)
}

/// The penalty for the blocks of row `r` that start in the first `n`
/// columns: 3 each.
pub open spec fn spec_block_row_penalty(grid: Seq<Seq<bool>>, r: int, n: int) -> int
    decreases n,
{
    if n <= 0 {
        0
    } else {
        spec_block_row_penalty(grid, r, n - 1) + if is_block(grid, r, n - 1) {
            3int
        } else {
            0int
        }
    }
}

/// The penalty for the blocks that start in the first `n` rows.
pub open spec fn spec_block_penalty(grid: Seq<Seq<bool>>, n: int) -> int
    decreases n,
{
    if n <= 0 {
        0
    } else {
        spec_block_penalty(grid, n - 1) + spec_block_row_penalty(grid, n - 1, grid.len() - 1)
    }
}

/// The number of dark modules among the first `n` of row `r`.
pub open spec fn spec_dark_in_row(grid: Seq<Seq<bool>>, r: int, n: int) -> int
    decreases n,
{
    if n <= 0 {
        0
    } else {
        spec_dark_in_row(grid, r, n - 1) + if grid_dark(grid, r, n - 1) {
            1int
        } else {
            0int
        }
    }
}

/// The number of dark modules in the first `n` rows.
pub open spec fn spec_dark_count(grid: Seq<Seq<bool>>, n: int) -> int
    decreases n,
{
    if n <= 0 {
        0
    } else {
        spec_dark_count(grid, n - 1) + spec_dark_in_row(grid, n - 1, grid.len() as int)
    }
}

/// The penalty for imbalance: 10 for every full five percent by which the
/// share of dark modules lies beyond 45 to 55 percent.
pub open spec fn spec_balance_penalty(dark: int, total: int) -> int {
    let x = if 20 * dark >= 10 * total {
        20 * dark - 10 * total
    } else {
        10 * total - 20 * dark
    };
    if x == 0 {
        0
    } else {
        10 * ((x + total - 1) / total - 1)
    }
}

/// The penalty score of a grid: the sum of the four heuristics.
pub open spec fn spec_penalty(grid: Seq<Seq<bool>>) -> int {
    spec_lines_penalty(grid, grid.len() as int) + spec_block_penalty(grid, grid.len() - 1)
        + spec_balance_penalty(
        spec_dark_count(grid, grid.len() as int),
        (grid.len() * grid.len()) as int,
    )
}

fn row_line(m: &Matrix, r: usize) -> (line: Vec<bool>)
    ensures
        line@ == spec_row(m.grid(), r as int),
        line@.len() <= 177,
{
    let side = m.side_length() as usize;
    let mut line: Vec<bool> = Vec::new();
    let mut c: usize = 0;
    while c < side
        invariant
            c <= side,
            side == m.grid().len(),
            line@.len() == c,
            forall|j: int| 0 <= j < c ==> line@[j] == grid_dark(m.grid(), r as int, j),
        decreases side - c,
    {
        line.push(m.is_dark(r, c));
        c += 1;
    }
    assert(line@ =~= spec_row(m.grid(), r as int));
    line
}

fn column_line(m: &Matrix, c: usize) -> (line: Vec<bool>)
    ensures
        line@ == spec_column(m.grid(), c as int),
        line@.len() <= 177,
{
    let side = m.side_length() as usize;
    let mut line: Vec<bool> = Vec::new();
    let mut r: usize = 0;
    while r < side
        invariant
            r <= side,
            side == m.grid().len(),
            line@.len() == r,
            forall|j: int| 0 <= j < r ==> line@[j] == grid_dark(m.grid(), j, c as int),
        decreases side - r,
    {
        line.push(m.is_dark(r, c));
        r += 1;
    }
    assert(line@ =~= spec_column(m.grid(), c as int));
    line
}

fn line_penalty(line: &Vec<bool>) -> (score: u32)
    requires
        line@.len() <= 177,
    ensures
        score == spec_line_penalty(line@),
        score <= 7611,
{
    let n = line.len();
    let mut score: u32 = 0;
    let mut run: usize = 0;
    let mut i: usize = 0;
    while i < n
        invariant
            i <= n == line@.len(),
            n <= 177,
            score == spec_run_penalty(line@, i as int),
            score <= 3 * i,
            run <= i,
            i > 0 ==> run == spec_run_len(line@, i - 1),
        decreases n - i,
    {
        if i > 0 && line[i] == line[i - 1] {
            run += 1;
        } else {
            run = 1;
        }
        if run == 5 {
            score += 3;
        } else if run > 5 {
            score += 1;
        }
        i += 1;
    }
    if n >= 11 {
        let ghost runs = score;
        let mut j: usize = 0;
        while j < n - 10
            invariant
                j <= n - 10,
                11 <= n == line@.len(),
                n <= 177,
                runs <= 3 * n,
                score == runs + spec_finder_penalty(line@, j as int),
                score <= runs + 40 * j,
            decreases n - 10 - j,
        {
            let a = line[j] && !line[j + 1] && line[j + 2] && line[j + 3] && line[j + 4] && !line[j
                + 5] && line[j + 6] && !line[j + 7] && !line[j + 8] && !line[j + 9] && !line[j + 10];
            let b = !line[j] && !line[j + 1] && !line[j + 2] && !line[j + 3] && line[j + 4]
                && !line[j + 5] && line[j + 6] && line[j + 7] && line[j + 8] && !line[j + 9]
                && line[j + 10];
            if a || b {
                score += 40;
            }
            j += 1;
        }
    }
    score
}

fn lines_penalty(m: &Matrix) -> (score: u32)
    ensures
        score == spec_lines_penalty(m.grid(), m.grid().len() as int),
        score <= 2694294,
{
    let side = m.side_length() as usize;
    let mut score: u32 = 0;
    let mut k: usize = 0;
    while k < side
        invariant
            k <= side == m.grid().len(),
            side <= 177,
            score == spec_lines_penalty(m.grid(), k as int),
            score <= 15222 * k,
        decreases side - k,
    {
        let row = row_line(m, k);
        let col = column_line(m, k);
        score = score + line_penalty(&row) + line_penalty(&col);
        k += 1;
    }
    score
}

fn block_penalty(m: &Matrix) -> (score: u32)
    ensures
        score == spec_block_penalty(m.grid(), m.grid().len() - 1),
        score <= 92928,
{
    let side = m.side_length() as usize;
    let mut score: u32 = 0;
    let mut r: usize = 0;
    while r < side - 1
        invariant
            r <= side - 1,
            21 <= side == m.grid().len(),
            side <= 177,
            score == spec_block_penalty(m.grid(), r as int),
            score <= 528 * r,
        decreases side - 1 - r,
    {
        let mut line: u32 = 0;
        let mut c: usize = 0;
        while c < side - 1
            invariant
                c <= side - 1,
                r < side - 1,
                21 <= side == m.grid().len(),
                side <= 177,
                line == spec_block_row_penalty(m.grid(), r as int, c as int),
                line <= 3 * c,
            decreases side - 1 - c,
        {
            let d = m.is_dark(r, c);
            if d == m.is_dark(r, c + 1) && d == m.is_dark(r + 1, c) && d == m.is_dark(r + 1, c + 1) {
                line += 3;
            }
            c += 1;
        }
        score += line;
        r += 1;
    }
    score
}

fn dark_count(m: &Matrix) -> (count: u32)
    ensures
        count == spec_dark_count(m.grid(), m.grid().len() as int),
        count <= 31329,
{
    let side = m.side_length() as usize;
    let mut count: u32 = 0;
    let mut r: usize = 0;
    while r < side
        invariant
            r <= side == m.grid().len(),
            side <= 177,
            count == spec_dark_count(m.grid(), r as int),
            count <= 177 * r,
        decreases side - r,
    {
        let mut line: u32 = 0;
        let mut c: usize = 0;
        while c < side
            invariant
                c <= side == m.grid().len(),
                side <= 177,
                line == spec_dark_in_row(m.grid(), r as int, c as int),
                line <= c,
            decreases side - c,
        {
            if m.is_dark(r, c) {
                line += 1;
            }
            c += 1;
        }
        count += line;
        r += 1;
    }
    count
}

fn balance_penalty(dark: u32, total: u32) -> (score: u32)
    requires
        dark <= 31329,
        1 <= total <= 31329,
    ensures
        score == spec_balance_penalty(dark as int, total as int),
        score <= 6265800,
{
    let x: u32 = if 20 * dark >= 10 * total {
        20 * dark - 10 * total
    } else {
        10 * total - 20 * dark
    };
    if x == 0 {
        0
    } else {
        let q: u32 = (x + total - 1) / total;
        assert(1 <= q <= x) by (nonlinear_arith)
            requires
                q == (x + total - 1) / (total as int),
                x >= 1,
                total >= 1,
        ;
        10 * (q - 1)
    }
}

/// The penalty score of a symbol: 3 and more for every run of five or
/// more modules of one colour in a row or column, 3 for every 2x2 block
/// of one colour, 40 for every finder-like pattern, and 10 for every five
/// percent of imbalance between dark and light.
pub fn penalty_score(m: &Matrix) -> (score: u32)
    ensures
        score == spec_penalty(m.grid()),
{
    let side = m.side_length();
    assert(1 <= side * side <= 31329) by (nonlinear_arith)
        requires
            21 <= side <= 177,
    ;
    lines_penalty(m) + block_penalty(m) + balance_penalty(dark_count(m), side * side)
}

} // verus!
