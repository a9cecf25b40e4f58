//! The carving driver: repeated estimate-find-remove cycles.
//!
//! Each iteration computes the energy grid of the working pixel grid,
//! finds its minimum seam, and removes it, replacing the working grid;
//! the width shrinks by one per iteration and the height never changes.
//! When the requested count would shrink the grid past width one, the
//! run fails at that iteration with the remover's width-exhaustion
//! error, tagged with the iteration index; no partial grid is returned.

use vstd::prelude::*;

use crate::energy::{compute_energy_weights, energy_spec};
use crate::grid::{Pixel, pix_rows, rect, width_of};
use crate::remove::{RemoveError, remove_vertical_seam, removed_grid, seam_ok};
use crate::seam::{find_min_seam_path, lemma_seam_col_bounds, seam_col};

verus! {

/// A carve failure: the iteration (counted from zero) that could not
/// complete, and the remover's error that stopped it.
#[derive(Clone, Copy, Debug, PartialEq, Eq, Structural)]
pub struct CarveError {
    pub iteration: usize,
    pub cause: RemoveError,
}

/// The energy grid of a pixel grid has the grid's own dimensions.
pub proof fn lemma_energy_dims(g: Seq<Seq<Pixel>>)
    ensures
        energy_spec(g).len() == g.len(),
        rect(energy_spec(g)),
        width_of(energy_spec(g)) == width_of(g),
{
    assert forall|i: int| 0 <= i < energy_spec(g).len() implies (#[trigger] energy_spec(
        g,
    )[i]).len() == energy_spec(g)[0].len() by {}
}

/// One carving iteration: every row loses the pixel at the minimum
/// seam's column for that row.
pub open spec fn carve_one(g: Seq<Seq<Pixel>>) -> Seq<Seq<Pixel>> {
    Seq::new(g.len(), |r: int| g[r].remove(seam_col(energy_spec(g), r)))
}

/// n carving iterations, each applied to the previous result.
pub open spec fn carve_n(g: Seq<Seq<Pixel>>, n: nat) -> Seq<Seq<Pixel>>
    decreases n,
{
    if n == 0 {
        g
    } else {
        carve_one(carve_n(g, (n - 1) as nat))
    }
}

/// One iteration keeps a grid rectangular, keeps its height, and
/// narrows it by exactly one column.
pub proof fn lemma_carve_one_shape(g: Seq<Seq<Pixel>>)
    requires
        rect(g),
        g.len() >= 1,
        width_of(g) >= 2,
    ensures
        rect(carve_one(g)),
        carve_one(g).len() == g.len(),
        width_of(carve_one(g)) == width_of(g) - 1,
{
    lemma_energy_dims(g);
    assert forall|r: int| 0 <= r < g.len() implies (#[trigger] carve_one(g)[r]).len()
        == width_of(g) - 1 by {
        lemma_seam_col_bounds(energy_spec(g), r);
        assert(g[r].len() == width_of(g));
    }
}

/// Remove the requested number of minimum-energy vertical seams from a
/// grid, strictly one iteration after the other; the result is the
/// carved grid, or the error of the first iteration that could not
/// shrink the grid any further.
pub fn carve_vertical_seams(image: Vec<Vec<Pixel>>, seams_to_remove: usize) -> (r: Result<
    Vec<Vec<Pixel>>,
    CarveError,
>)
    requires
        rect(pix_rows(image@)),
        image@.len() <= u32::MAX,
        width_of(pix_rows(image@)) <= u32::MAX,
    ensures
        ({
            let g = pix_rows(image@);
            let h = g.len() as int;
            let w = width_of(g);
            let n = seams_to_remove as int;
            &&& (r is Ok <==> n == 0 || (h >= 1 && n < w))
            &&& (r is Ok ==> {
                let out = pix_rows((r->Ok_0)@);
                &&& out == carve_n(g, n as nat)
                &&& out.len() == h
                &&& rect(out)
                &&& width_of(out) == w - n
            })
            &&& (r is Err ==> r == Err::<Vec<Vec<Pixel>>, CarveError>(
                CarveError {
                    iteration: if h >= 1 && w >= 1 {
                        (w - 1) as usize
                    } else {
                        0
                    },
                    cause: RemoveError::WidthExhausted,
                },
            ))
        }),
{
    let ghost g0 = pix_rows(image@);
    let ghost h = g0.len() as int;
    let ghost w = width_of(g0);
    let mut img = image;
    let n = seams_to_remove;

    let mut k: usize = 0;
    while k < n
        invariant
            n == seams_to_remove,
            g0 == pix_rows(image@),
            rect(g0),
            h == g0.len(),
            w == width_of(g0),
            h <= u32::MAX,
            w <= u32::MAX,
            k <= n,
            rect(pix_rows(img@)),
            pix_rows(img@) == carve_n(g0, k as nat),
            pix_rows(img@).len() == h,
            h >= 1 && w >= 1 ==> width_of(pix_rows(img@)) == w - k && k <= w - 1,
            h == 0 || w == 0 ==> k == 0,
        decreases n - k,
    {
        let ghost cur = pix_rows(img@);
        let weights = compute_energy_weights(&img);
        proof {
            lemma_energy_dims(cur);
            assert(rect(crate::grid::egy_rows(weights@)));
        }
        let seam = find_min_seam_path(&weights);
        let removed = remove_vertical_seam(&img, &seam);
        proof {
            let wc = width_of(cur);
            if h >= 1 && wc >= 2 {
                assert(seam@.len() == cur.len());
                assert(seam_ok(seam@, cur.len() as int, wc));
            }
        }
        match removed {
            Ok(next) => {
                proof {
                    assert(width_of(cur) >= 2);
                    assert forall|i: int| 0 <= i < cur.len() implies (#[trigger] removed_grid(
                        cur,
                        seam@,
                    )[i]) == carve_one(cur)[i] by {
                        assert(seam@[i].col as int == seam_col(energy_spec(cur), i));
                    }
                    assert(removed_grid(cur, seam@) =~= carve_one(cur));
                    lemma_carve_one_shape(cur);
                    assert(carve_one(cur) == carve_n(g0, (k + 1) as nat));
                }
                img = next;
            },
            Err(cause) => {
                proof {
                    assert(width_of(cur) <= 1);
                    assert(cause == RemoveError::WidthExhausted);
                    if h >= 1 && w >= 1 {
                        assert(w - k == width_of(cur));
                        assert(k == w - 1 || width_of(cur) == 0);
                        if width_of(cur) == 0 {
                            assert(w - k == 0);
                            assert(k <= w - 1);
                            assert(false);
                        }
                    }
                }
                return Err(CarveError { iteration: k, cause });
            },
        }
        k = k + 1;
    }
    Ok(img)
}

} // verus!
