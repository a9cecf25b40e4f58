//! Seam removal: a fresh grid one column narrower, with the seam's
//! pixel excised from every row and the remaining pixels in order.
//!
//! Removal is rejected, with a distinct error for each condition, when
//! the grid is too narrow to shrink, when the seam's length is not the
//! grid's height, when a step's row field is out of order, or when a
//! step's column is outside the grid. The first offending step decides
//! which of the last two errors is reported.

use vstd::prelude::*;

use crate::grid::{Pixel, pix_rows, rect, width_of};
use crate::seam::SeamStep;

verus! {

/// Why a seam could not be removed.
#[derive(Clone, Copy, Debug, PartialEq, Eq, Structural)]
pub enum RemoveError {
    /// The grid's width is at most one: nothing can be removed.
    WidthExhausted,
    /// The seam does not have exactly one step per row.
    SeamLengthMismatch { seam_len: usize, height: usize },
    /// The step at this position does not carry that row index.
    SeamRowMismatch { row: usize },
    /// A step's column lies outside the grid.
    SeamColumnOutOfBounds { col: usize, width: usize },
}

/// A seam fits a grid: one step per row, row fields in order, every
/// column inside the width.
pub open spec fn seam_ok(seam: Seq<SeamStep>, height: int, width: int) -> bool {
    &&& seam.len() == height
    &&& forall|i: int| 0 <= i < seam.len() ==> (#[trigger] seam[i]).row == i
    &&& forall|i: int| 0 <= i < seam.len() ==> (#[trigger] seam[i]).col < width
}

/// Scan the seam's steps from position k on: the first step whose row
/// field is out of order or whose column is outside the width decides
/// the error; a clean scan is Ok.
pub open spec fn steps_check(seam: Seq<SeamStep>, width: usize, k: int) -> Result<
    (),
    RemoveError,
>
    decreases seam.len() - k,
{
    if k < 0 || k >= seam.len() {
        Ok(())
    } else if seam[k].row != k {
        Err(RemoveError::SeamRowMismatch { row: k as usize })
    } else if seam[k].col >= width {
        Err(RemoveError::SeamColumnOutOfBounds { col: seam[k].col, width })
    } else {
        steps_check(seam, width, k + 1)
    }
}

/// The grid with the seam excised: every row loses the pixel at the
/// seam's column for that row.
pub open spec fn removed_grid(g: Seq<Seq<Pixel>>, seam: Seq<SeamStep>) -> Seq<Seq<Pixel>> {
    Seq::new(g.len(), |r: int| g[r].remove(seam[r].col as int))
}

/// Remove a seam from a grid, yielding a fresh grid one column
/// narrower, or the error that names what made removal impossible.
pub fn remove_vertical_seam(image: &Vec<Vec<Pixel>>, seam: &Vec<SeamStep>) -> (r: Result<
    Vec<Vec<Pixel>>,
    RemoveError,
>)
    requires
        rect(pix_rows(image@)),
    ensures
        ({
            let g = pix_rows(image@);
            let h = g.len() as int;
            let w = width_of(g);
            &&& (r is Ok <==> w >= 2 && seam_ok(seam@, h, w))
            &&& (w <= 1 ==> r == Err::<Vec<Vec<Pixel>>, RemoveError>(
                RemoveError::WidthExhausted,
            ))
            &&& (w >= 2 && seam@.len() != h ==> r == Err::<Vec<Vec<Pixel>>, RemoveError>(
                RemoveError::SeamLengthMismatch { seam_len: seam@.len() as usize, height: h as usize },
            ))
            &&& (w >= 2 && seam@.len() == h && steps_check(seam@, w as usize, 0) is Err ==> r
                == Err::<Vec<Vec<Pixel>>, RemoveError>(
                steps_check(seam@, w as usize, 0)->Err_0,
            ))
            &&& (r is Ok ==> {
                let out = pix_rows((r->Ok_0)@);
                &&& out == removed_grid(g, seam@)
                &&& out.len() == h
                &&& rect(out)
                &&& width_of(out) == w - 1
            })
        }),
{
    let ghost g = pix_rows(image@);
    let h = image.len();
    let w = if h == 0 {
        0
    } else {
        image[0].len()
    };
    proof {
        assert(w as int == width_of(g));
    }

    if w <= 1 {
        return Err(RemoveError::WidthExhausted);
    }
    if seam.len() != h {
        return Err(RemoveError::SeamLengthMismatch { seam_len: seam.len(), height: h });
    }

    // Validate every step before touching any pixel.
    let mut k: usize = 0;
    while k < h
        invariant
            h == image@.len(),
            h == seam@.len(),
            w as int == width_of(pix_rows(image@)),
            w >= 2,
            k <= h,
            steps_check(seam@, w, 0) == steps_check(seam@, w, k as int),
            forall|i: int| 0 <= i < k ==> (#[trigger] seam@[i]).row == i && seam@[i].col < w,
        decreases h - k,
    {
        let step = seam[k];
        if step.row != k {
            return Err(RemoveError::SeamRowMismatch { row: k });
        }
        if step.col >= w {
            return Err(RemoveError::SeamColumnOutOfBounds { col: step.col, width: w });
        }
        k = k + 1;
    }

    let mut out: Vec<Vec<Pixel>> = Vec::new();
    let mut row: usize = 0;
    while row < h
        invariant
            g == pix_rows(image@),
            rect(g),
            h == image@.len(),
            h == seam@.len(),
            w as int == width_of(g),
            w >= 2,
            forall|i: int| 0 <= i < h ==> (#[trigger] seam@[i]).row == i && seam@[i].col < w,
            row <= h,
            out@.len() == row,
            forall|i: int|
                0 <= i < row ==> (#[trigger] out@[i])@ == g[i].remove(seam@[i].col as int),
        decreases h - row,
    {
        let sc = seam[row].col;
        proof {
            assert(g[row as int].len() == w);
        }
        let mut new_row: Vec<Pixel> = Vec::new();
        let mut col: usize = 0;
        while col < sc
            invariant
                g == pix_rows(image@),
                rect(g),
                h == image@.len(),
                row < h,
                w as int == width_of(g),
                sc < w,
                g[row as int].len() == w,
                col <= sc,
                new_row@ == g[row as int].subrange(0, col as int),
            decreases sc - col,
        {
            new_row.push(image[row][col]);
            proof {
                assert(new_row@ =~= g[row as int].subrange(0, col + 1));
            }
            col = col + 1;
        }
        let mut col2: usize = sc + 1;
        while col2 < w
            invariant
                g == pix_rows(image@),
                rect(g),
                h == image@.len(),
                row < h,
                w as int == width_of(g),
                sc < w,
                g[row as int].len() == w,
                sc + 1 <= col2 <= w,
                new_row@ == g[row as int].subrange(0, sc as int) + g[row as int].subrange(
                    sc + 1,
                    col2 as int,
                ),
            decreases w - col2,
        {
            new_row.push(image[row][col2]);
            proof {
                assert(new_row@ =~= g[row as int].subrange(0, sc as int) + g[
                    row as int
                ].subrange(sc + 1, col2 + 1));
            }
            col2 = col2 + 1;
        }
        proof {
            assert(new_row@ =~= g[row as int].remove(sc as int));
        }
        out.push(new_row);
        row = row + 1;
    }

    proof {
        assert(pix_rows(out@) =~~= removed_grid(g, seam@));
        assert(seam_ok(seam@, h as int, w as int));
        assert(g[0].remove(seam@[0].col as int).len() == w - 1);
        assert(width_of(pix_rows(out@)) == w - 1);
        assert forall|i: int| 0 <= i < out@.len() implies (#[trigger] pix_rows(out@)[i]).len()
            == pix_rows(out@)[0].len() by {
            assert(g[i].remove(seam@[i].col as int).len() == w - 1);
        }
    }
    Ok(out)
}

} // verus!
