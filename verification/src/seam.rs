//! Seam discovery: the top-to-bottom path of minimum cumulative energy.
//!
//! A cumulative-cost grid is built top-down: row 0 is the energy row
//! itself, and every later cell adds its energy to the smallest
//! cumulative cost among its up-to-three upper neighbors. The seam's
//! bottom column is the first minimum of the last cumulative row
//! (scanning left to right); walking back up, each row picks the
//! cheapest reachable neighbor, the same column winning ties and the
//! right neighbor needing a strict win over the left choice.

use vstd::prelude::*;

use crate::grid::{egy_rows, rect, width_of};

verus! {

/// One step of a seam: the pixel at column `col` of row `row`.
#[derive(Clone, Copy, Debug, PartialEq, Eq, Structural)]
pub struct SeamStep {
    pub col: usize,
    pub row: usize,
}

/// Minimum cumulative energy of a path from the top row to (c, r):
/// row 0 is the energy itself; below, the cell's energy plus the
/// smallest cumulative cost among its in-bounds upper neighbors.
pub open spec fn cum(e: Seq<Seq<u32>>, r: int, c: int) -> int
    decreases r,
{
    if r <= 0 {
        e[0][c] as int
    } else {
        let up = cum(e, r - 1, c);
        let m1 = if c > 0 && cum(e, r - 1, c - 1) < up {
            cum(e, r - 1, c - 1)
        } else {
            up
        };
        let m2 = if c + 1 < width_of(e) && cum(e, r - 1, c + 1) < m1 {
            cum(e, r - 1, c + 1)
        } else {
            m1
        };
        e[r][c] as int + m2
    }
}

/// Cumulative-cost row r, as a sequence of integers.
pub open spec fn cum_row(e: Seq<Seq<u32>>, r: int) -> Seq<int> {
    Seq::new(width_of(e) as nat, |c: int| cum(e, r, c))
}

/// Index of the first minimum of a sequence: scanning left to right, a
/// later element replaces the best one only when strictly smaller.
pub open spec fn argmin_first(s: Seq<int>) -> int
    decreases s.len(),
{
    if s.len() <= 1 {
        0
    } else {
        let prev = argmin_first(s.drop_last());
        if s[s.len() - 1] < s[prev] {
            s.len() - 1
        } else {
            prev
        }
    }
}

/// The first minimum is in bounds, no element is smaller, and every
/// earlier element is strictly larger.
pub proof fn lemma_argmin_first(s: Seq<int>)
    requires
        s.len() >= 1,
    ensures
        0 <= argmin_first(s) < s.len(),
        forall|j: int| 0 <= j < s.len() ==> s[argmin_first(s)] <= #[trigger] s[j],
        forall|j: int| 0 <= j < argmin_first(s) ==> #[trigger] s[j] > s[argmin_first(s)],
    decreases s.len(),
{
    if s.len() > 1 {
        lemma_argmin_first(s.drop_last());
        assert(forall|j: int| 0 <= j < s.len() - 1 ==> s.drop_last()[j] == #[trigger] s[j]);
    }
}

/// The backtrack choice at row r, coming from column c of the row
/// below: the in-bounds neighbor of smallest cumulative cost, where the
/// same column wins ties and the right neighbor must strictly beat the
/// choice made between left and same.
pub open spec fn back_choose(e: Seq<Seq<u32>>, r: int, c: int) -> int {
    let here = cum(e, r, c);
    let left_wins = c > 0 && cum(e, r, c - 1) < here;
    let bv = if left_wins {
        cum(e, r, c - 1)
    } else {
        here
    };
    let bc = if left_wins {
        c - 1
    } else {
        c
    };
    if c + 1 < width_of(e) && cum(e, r, c + 1) < bv {
        c + 1
    } else {
        bc
    }
}

/// The seam's column at row r: the bottom row takes the first minimum
/// of the last cumulative row; every other row takes the backtrack
/// choice from the row below it.
pub open spec fn seam_col(e: Seq<Seq<u32>>, r: int) -> int
    decreases e.len() - r,
{
    if r >= e.len() - 1 {
        argmin_first(cum_row(e, e.len() - 1))
    } else {
        back_choose(e, r, seam_col(e, r + 1))
    }
}

/// Every seam column is inside the grid.
pub proof fn lemma_seam_col_bounds(e: Seq<Seq<u32>>, r: int)
    requires
        e.len() >= 1,
        width_of(e) >= 1,
        0 <= r < e.len(),
    ensures
        0 <= seam_col(e, r) < width_of(e),
    decreases e.len() - r,
{
    if r >= e.len() - 1 {
        lemma_argmin_first(cum_row(e, e.len() - 1));
    } else {
        lemma_seam_col_bounds(e, r + 1);
    }
}

/// Adjacent rows' seam columns differ by at most one.
pub proof fn lemma_seam_col_adjacent(e: Seq<Seq<u32>>, r: int)
    requires
        e.len() >= 1,
        width_of(e) >= 1,
        0 <= r < e.len() - 1,
    ensures
        seam_col(e, r) - seam_col(e, r + 1) <= 1,
        seam_col(e, r + 1) - seam_col(e, r) <= 1,
{
}

/// The top-to-bottom path of minimum cumulative energy through an
/// energy grid: one step per row, rows in increasing order, with each
/// step at most one column away from the one below it. An empty grid
/// (no rows, or rows of width zero) yields an empty seam.
pub fn find_min_seam_path(weights: &Vec<Vec<u32>>) -> (seam: Vec<SeamStep>)
    requires
        rect(egy_rows(weights@)),
        weights@.len() <= u32::MAX,
    ensures
        weights@.len() == 0 || width_of(egy_rows(weights@)) == 0 ==> seam@.len() == 0,
        weights@.len() >= 1 && width_of(egy_rows(weights@)) >= 1 ==> seam@.len()
            == weights@.len(),
        forall|i: int| 0 <= i < seam@.len() ==> (#[trigger] seam@[i]).row == i,
        forall|i: int|
            0 <= i < seam@.len() ==> (#[trigger] seam@[i]).col as int == seam_col(
                egy_rows(weights@),
                i,
            ),
        forall|i: int|
            0 <= i < seam@.len() ==> (#[trigger] seam@[i]).col < width_of(egy_rows(weights@)),
        forall|i: int|
            0 <= i < seam@.len() - 1 ==> (#[trigger] seam@[i]).col as int - seam@[i + 1].col as int
                <= 1 && seam@[i + 1].col as int - seam@[i].col as int <= 1,
{
    let ghost e = egy_rows(weights@);
    let rows = weights.len();

    let mut seam: Vec<SeamStep> = Vec::new();
    if rows == 0 {
        return seam;
    }
    let cols = weights[0].len();
    if cols == 0 {
        return seam;
    }

    if rows == 1 {
        let ghost s = cum_row(e, 0);
        let mut best: usize = 0;
        let mut i: usize = 1;
        proof {
            assert(s.take(1) =~= seq![s[0]]);
        }
        while i < cols
            invariant
                e == egy_rows(weights@),
                rect(e),
                weights@.len() == 1,
                cols == width_of(e),
                s == cum_row(e, 0),
                1 <= i <= cols,
                best < i,
                best as int == argmin_first(s.take(i as int)),
            decreases cols - i,
        {
            proof {
                assert(s.take(i + 1).drop_last() =~= s.take(i as int));
                assert(s.take(i + 1)[i as int] == cum(e, 0, i as int));
                assert(cum(e, 0, i as int) == weights@[0]@[i as int] as int);
                assert(cum(e, 0, best as int) == weights@[0]@[best as int] as int);
            }
            if weights[0][i] < weights[0][best] {
                best = i;
            }
            i = i + 1;
        }
        proof {
            assert(s.take(cols as int) =~= s);
        }
        seam.push(SeamStep { col: best, row: 0 });
    } else if cols == 1 {
        proof {
            assert forall|r: int| 0 <= r < e.len() implies seam_col(e, r) == 0 by {
                lemma_seam_col_bounds(e, r);
            }
        }
        let mut row: usize = 0;
        while row < rows
            invariant
                e == egy_rows(weights@),
                rows == weights@.len(),
                row <= rows,
                seam@.len() == row,
                forall|r: int| 0 <= r < e.len() ==> seam_col(e, r) == 0,
                forall|i: int| 0 <= i < row ==> (#[trigger] seam@[i]).row == i,
                forall|i: int| 0 <= i < row ==> (#[trigger] seam@[i]).col == 0,
            decreases rows - row,
        {
            seam.push(SeamStep { col: 0, row });
            row = row + 1;
        }
    } else {
        // Cumulative-cost grid, in 64-bit cells: with at most u32::MAX
        // rows of 32-bit energies, no cumulative sum can overflow.
        let mut memo: Vec<Vec<u64>> = Vec::new();
        let mut row0: Vec<u64> = Vec::new();
        let mut c0: usize = 0;
        while c0 < cols
            invariant
                e == egy_rows(weights@),
                rect(e),
                rows == weights@.len(),
                cols == width_of(e),
                c0 <= cols,
                row0@.len() == c0,
                forall|c: int| 0 <= c < c0 ==> (#[trigger] row0@[c]) as int == cum(e, 0, c),
            decreases cols - c0,
        {
            row0.push(weights[0][c0] as u64);
            c0 = c0 + 1;
        }
        memo.push(row0);

        let mut row: usize = 1;
        while row < rows
            invariant
                e == egy_rows(weights@),
                rect(e),
                rows == weights@.len(),
                rows <= u32::MAX,
                cols == width_of(e),
                1 <= row <= rows,
                memo@.len() == row,
                forall|r: int| 0 <= r < row ==> (#[trigger] memo@[r])@.len() == cols,
                forall|r: int, c: int|
                    0 <= r < row && 0 <= c < cols ==> (#[trigger] memo@[r]@[c]) as int == cum(
                        e,
                        r,
                        c,
                    ),
            decreases rows - row,
        {
            let mut new_row: Vec<u64> = Vec::new();
            let mut col: usize = 0;
            while col < cols
                invariant
                    e == egy_rows(weights@),
                    rect(e),
                    rows == weights@.len(),
                    rows <= u32::MAX,
                    cols == width_of(e),
                    1 <= row < rows,
                    memo@.len() == row,
                    forall|r: int| 0 <= r < row ==> (#[trigger] memo@[r])@.len() == cols,
                    forall|r: int, c: int|
                        0 <= r < row && 0 <= c < cols ==> (#[trigger] memo@[r]@[c]) as int == cum(
                            e,
                            r,
                            c,
                        ),
                    col <= cols,
                    new_row@.len() == col,
                    forall|c: int| 0 <= c < col ==> (#[trigger] new_row@[c]) as int == cum(
                        e,
                        row as int,
                        c,
                    ),
                decreases cols - col,
            {
                let mut m: u64 = memo[row - 1][col];
                if col > 0 {
                    let left = memo[row - 1][col - 1];
                    if left < m {
                        m = left;
                    }
                }
                if col + 1 < cols {
                    let right = memo[row - 1][col + 1];
                    if right < m {
                        m = right;
                    }
                }
                proof {
                    lemma_cum_bound(e, row - 1, col as int);
                    if col > 0 {
                        lemma_cum_bound(e, row - 1, col as int - 1);
                    }
                    if col + 1 < cols {
                        lemma_cum_bound(e, row - 1, col as int + 1);
                    }
                }
                proof {
                    assert(e[row as int].len() == cols);
                }
                let v: u64 = weights[row][col] as u64 + m;
                proof {
                    assert(v as int == cum(e, row as int, col as int));
                }
                new_row.push(v);
                col = col + 1;
            }
            memo.push(new_row);
            row = row + 1;
        }

        // First minimum of the last cumulative row.
        let ghost s = cum_row(e, rows as int - 1);
        let last = rows - 1;
        let mut best: usize = 0;
        let mut i: usize = 1;
        proof {
            assert(s.take(1) =~= seq![s[0]]);
        }
        while i < cols
            invariant
                e == egy_rows(weights@),
                rect(e),
                rows == weights@.len(),
                cols == width_of(e),
                last == rows - 1,
                memo@.len() == rows,
                forall|r: int| 0 <= r < rows ==> (#[trigger] memo@[r])@.len() == cols,
                forall|r: int, c: int|
                    0 <= r < rows && 0 <= c < cols ==> (#[trigger] memo@[r]@[c]) as int == cum(
                        e,
                        r,
                        c,
                    ),
                s == cum_row(e, rows as int - 1),
                1 <= i <= cols,
                best < i,
                best as int == argmin_first(s.take(i as int)),
            decreases cols - i,
        {
            proof {
                assert(s.take(i + 1).drop_last() =~= s.take(i as int));
                assert(s.take(i + 1)[i as int] == cum(e, rows as int - 1, i as int));
            }
            if memo[last][i] < memo[last][best] {
                best = i;
            }
            i = i + 1;
        }
        proof {
            assert(s.take(cols as int) =~= s);
            assert(best as int == seam_col(e, rows as int - 1));
        }

        // Walk back up, recording the columns bottom-first.
        let mut cols_rev: Vec<usize> = Vec::new();
        let mut current_col = best;
        cols_rev.push(current_col);
        let mut r = rows - 1;
        while r > 0
            invariant
                e == egy_rows(weights@),
                rect(e),
                rows == weights@.len(),
                cols == width_of(e),
                memo@.len() == rows,
                forall|rr: int| 0 <= rr < rows ==> (#[trigger] memo@[rr])@.len() == cols,
                forall|rr: int, c: int|
                    0 <= rr < rows && 0 <= c < cols ==> (#[trigger] memo@[rr]@[c]) as int == cum(
                        e,
                        rr,
                        c,
                    ),
                r < rows,
                current_col < cols,
                current_col as int == seam_col(e, r as int),
                cols_rev@.len() == rows - r,
                forall|k: int|
                    0 <= k < cols_rev@.len() ==> (#[trigger] cols_rev@[k]) as int == seam_col(
                        e,
                        rows - 1 - k,
                    ),
            decreases r,
        {
            r = r - 1;
            let mut bc = current_col;
            let mut bv: u64 = memo[r][current_col];
            if current_col > 0 {
                let left = memo[r][current_col - 1];
                if left < bv {
                    bv = left;
                    bc = current_col - 1;
                }
            }
            if current_col + 1 < cols {
                let right = memo[r][current_col + 1];
                if right < bv {
                    bc = current_col + 1;
                }
            }
            proof {
                assert(bc as int == back_choose(e, r as int, current_col as int));
                assert(bc as int == seam_col(e, r as int));
            }
            current_col = bc;
            cols_rev.push(bc);
        }

        // Emit the seam top-first.
        let mut row2: usize = 0;
        while row2 < rows
            invariant
                e == egy_rows(weights@),
                rows == weights@.len(),
                cols == width_of(e),
                cols_rev@.len() == rows,
                forall|k: int|
                    0 <= k < rows ==> (#[trigger] cols_rev@[k]) as int == seam_col(e, rows - 1 - k),
                row2 <= rows,
                seam@.len() == row2,
                forall|i: int| 0 <= i < row2 ==> (#[trigger] seam@[i]).row == i,
                forall|i: int|
                    0 <= i < row2 ==> (#[trigger] seam@[i]).col as int == seam_col(e, i),
            decreases rows - row2,
        {
            let c = cols_rev[rows - 1 - row2];
            seam.push(SeamStep { col: c, row: row2 });
            row2 = row2 + 1;
        }
    }

    proof {
        assert forall|i: int| 0 <= i < seam@.len() implies (#[trigger] seam@[i]).col < width_of(
            e,
        ) by {
            lemma_seam_col_bounds(e, i);
        }
        assert forall|i: int|
            0 <= i < seam@.len() - 1 implies (#[trigger] seam@[i]).col as int - seam@[i
            + 1].col as int <= 1 && seam@[i + 1].col as int - seam@[i].col as int <= 1 by {
            lemma_seam_col_adjacent(e, i);
        }
    }
    seam
}

/// The columns of the discovered seam, top to bottom.
pub open spec fn seam_cols(e: Seq<Seq<u32>>) -> Seq<int> {
    Seq::new(e.len(), |r: int| seam_col(e, r))
}

/// A top-to-bottom path: one column per row, inside the grid, moving
/// at most one column between consecutive rows.
pub open spec fn valid_path(e: Seq<Seq<u32>>, cols: Seq<int>) -> bool {
    &&& cols.len() == e.len()
    &&& forall|r: int| 0 <= r < cols.len() ==> 0 <= #[trigger] cols[r] < width_of(e)
    &&& forall|r: int|
        0 <= r < cols.len() - 1 ==> -1 <= (#[trigger] cols[r]) - cols[r + 1] <= 1
}

/// Total energy of a path over its first `upto` rows.
pub open spec fn path_energy(e: Seq<Seq<u32>>, cols: Seq<int>, upto: int) -> int
    decreases upto,
{
    if upto <= 0 {
        0
    } else {
        path_energy(e, cols, upto - 1) + e[upto - 1][cols[upto - 1]]
    }
}

/// The discovered seam is itself a valid path.
pub proof fn lemma_seam_path_valid(e: Seq<Seq<u32>>)
    requires
        e.len() >= 1,
        width_of(e) >= 1,
    ensures
        valid_path(e, seam_cols(e)),
{
    assert forall|r: int| 0 <= r < seam_cols(e).len() implies 0 <= #[trigger] seam_cols(e)[r]
        < width_of(e) by {
        lemma_seam_col_bounds(e, r);
    }
    assert forall|r: int| 0 <= r < seam_cols(e).len() - 1 implies -1 <= (#[trigger] seam_cols(
        e,
    )[r]) - seam_cols(e)[r + 1] <= 1 by {
        lemma_seam_col_adjacent(e, r);
    }
}

/// Cumulative cost really is a minimum: no valid path reaches a cell
/// more cheaply than the cell's cumulative cost.
pub proof fn lemma_cum_lower_bound(e: Seq<Seq<u32>>, cols: Seq<int>, r: int)
    requires
        valid_path(e, cols),
        0 <= r < e.len(),
    ensures
        cum(e, r, cols[r]) <= path_energy(e, cols, r + 1),
    decreases r,
{
    let c = cols[r];
    if r > 0 {
        lemma_cum_lower_bound(e, cols, r - 1);
        let p = cols[r - 1];
        assert(0 <= p < width_of(e));
        assert(-1 <= p - c <= 1);
        if p == c - 1 {
            assert(cum(e, r, c) <= e[r][c] as int + cum(e, r - 1, p));
        } else if p == c {
            assert(cum(e, r, c) <= e[r][c] as int + cum(e, r - 1, p));
        } else {
            assert(p == c + 1);
            assert(cum(e, r, c) <= e[r][c] as int + cum(e, r - 1, p));
        }
    }
    assert(path_energy(e, cols, r + 1) == path_energy(e, cols, r) + e[r][c]);
}

/// The discovered seam attains, in every row, the cumulative cost of
/// the cell it passes through.
pub proof fn lemma_seam_achieves_cum(e: Seq<Seq<u32>>, r: int)
    requires
        e.len() >= 1,
        width_of(e) >= 1,
        0 <= r < e.len(),
    ensures
        path_energy(e, seam_cols(e), r + 1) == cum(e, r, seam_col(e, r)),
    decreases r,
{
    if r > 0 {
        lemma_seam_achieves_cum(e, r - 1);
        let c = seam_col(e, r);
        let b = back_choose(e, r - 1, c);
        assert(seam_col(e, r - 1) == b);
        lemma_seam_col_bounds(e, r);
        let here = cum(e, r - 1, c);
        let left_wins = c > 0 && cum(e, r - 1, c - 1) < here;
        let bv = if left_wins {
            cum(e, r - 1, c - 1)
        } else {
            here
        };
        if c + 1 < width_of(e) && cum(e, r - 1, c + 1) < bv {
            assert(b == c + 1);
            assert(cum(e, r, c) == e[r][c] as int + cum(e, r - 1, b));
        } else if left_wins {
            assert(b == c - 1);
            assert(cum(e, r, c) == e[r][c] as int + cum(e, r - 1, b));
        } else {
            assert(b == c);
            assert(cum(e, r, c) == e[r][c] as int + cum(e, r - 1, b));
        }
    }
    assert(seam_cols(e)[r] == seam_col(e, r));
    assert(path_energy(e, seam_cols(e), r + 1) == path_energy(e, seam_cols(e), r) + e[r][seam_col(
        e,
        r,
    )]);
}

/// Optimality: no valid top-to-bottom path has total energy below the
/// discovered seam's.
pub proof fn lemma_seam_minimal(e: Seq<Seq<u32>>, cols: Seq<int>)
    requires
        e.len() >= 1,
        width_of(e) >= 1,
        valid_path(e, cols),
    ensures
        path_energy(e, seam_cols(e), e.len() as int) <= path_energy(e, cols, e.len() as int),
{
    let last = e.len() - 1;
    lemma_seam_achieves_cum(e, last);
    lemma_cum_lower_bound(e, cols, last);
    lemma_argmin_first(cum_row(e, last));
    assert(cum_row(e, last)[cols[last]] == cum(e, last, cols[last]));
    assert(seam_col(e, last) == argmin_first(cum_row(e, last)));
}

/// Cumulative costs are non-negative and grow by at most one 32-bit
/// energy per row.
pub proof fn lemma_cum_bound(e: Seq<Seq<u32>>, r: int, c: int)
    requires
        rect(e),
        0 <= r < e.len(),
        0 <= c < width_of(e),
    ensures
        0 <= cum(e, r, c) <= (r + 1) * 0xffff_ffff,
    decreases r,
{
    if r > 0 {
        lemma_cum_bound(e, r - 1, c);
        if c > 0 {
            lemma_cum_bound(e, r - 1, c - 1);
        }
        if c + 1 < width_of(e) {
            lemma_cum_bound(e, r - 1, c + 1);
        }
    }
}

} // verus!
