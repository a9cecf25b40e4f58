//! Properties of the engine stated on their own, proved once for every
//! input: removal is pure selection, carving is deterministic, and each
//! iteration takes exactly one pixel out of every row.

use vstd::prelude::*;

use crate::carve::{carve_n, carve_one, lemma_energy_dims};
use crate::energy::energy_spec;
use crate::grid::{Pixel, rect, width_of};
use crate::remove::removed_grid;
use crate::seam::{SeamStep, lemma_seam_col_bounds, seam_col};

verus! {

/// Seam removal is pure selection, lossy only at the excised column:
/// re-inserting the original pixel at the seam's column restores the
/// original row exactly.
pub proof fn lemma_remove_reinsert(g: Seq<Seq<Pixel>>, seam: Seq<SeamStep>, r: int)
    requires
        seam.len() == g.len(),
        0 <= r < g.len(),
        seam[r].col < g[r].len(),
    ensures
        ({
            let c = seam[r].col as int;
            removed_grid(g, seam)[r].insert(c, g[r][c]) == g[r]
        }),
{
    let c = seam[r].col as int;
    assert(g[r].remove(c).insert(c, g[r][c]) =~= g[r]);
}

/// Carving is deterministic: the carved grid is a function of the
/// input grid and the seam count alone, so any two results of carving
/// the same grid by the same count are identical.
pub proof fn lemma_carve_deterministic(
    g: Seq<Seq<Pixel>>,
    n: nat,
    out1: Seq<Seq<Pixel>>,
    out2: Seq<Seq<Pixel>>,
)
    requires
        out1 == carve_n(g, n),
        out2 == carve_n(g, n),
    ensures
        out1 == out2,
{
}

/// One carving iteration leaves, in every row, the original row's
/// pixel multiset minus exactly the pixel at the seam's column.
pub proof fn lemma_carve_one_row_multiset(g: Seq<Seq<Pixel>>, r: int)
    requires
        rect(g),
        width_of(g) >= 1,
        0 <= r < g.len(),
    ensures
        ({
            let c = seam_col(energy_spec(g), r);
            carve_one(g)[r].to_multiset() == g[r].to_multiset().remove(g[r][c])
        }),
{
    lemma_energy_dims(g);
    lemma_seam_col_bounds(energy_spec(g), r);
    let c = seam_col(energy_spec(g), r);
    assert(carve_one(g)[r] == g[r].remove(c));
    g[r].to_multiset_ensures();
    assert(g[r].remove(c).to_multiset() =~= g[r].to_multiset().remove(g[r][c]));
}

} // verus!
