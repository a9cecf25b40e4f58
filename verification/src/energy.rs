//! Energy estimation: a per-pixel importance weight from local color
//! gradients.
//!
//! Each pixel's energy is the magnitude of a 3x3 horizontal gradient
//! kernel (coefficients 1,0,-1 / 2,0,-2 / 1,0,-1) applied to each color
//! channel over the pixel's neighborhood, channels summed by absolute
//! value. Neighborhood coordinates outside the grid are clamped to the
//! nearest edge (edge replication, no wraparound and no zero padding).

use vstd::prelude::*;
use vstd::math::abs;

use crate::grid::{Pixel, pix_rows, egy_rows, rect, width_of};

verus! {

/// Clamp an index into the inclusive range 0..=hi.
pub open spec fn clamp_idx(v: int, hi: int) -> int {
    if v < 0 {
        0
    } else if v > hi {
        hi
    } else {
        v
    }
}

/// The grid sample at (x, y), with both coordinates edge-clamped.
pub open spec fn sample(g: Seq<Seq<Pixel>>, x: int, y: int) -> Pixel {
    g[clamp_idx(y, g.len() - 1)][clamp_idx(x, width_of(g) - 1)]
}

/// One color channel of a pixel, as an integer.
pub open spec fn chan(p: Pixel, c: int) -> int {
    if c == 0 {
        p.r as int
    } else if c == 1 {
        p.g as int
    } else {
        p.b as int
    }
}

/// The kernel applied to channel c of the neighborhood of (x, y): the
/// left column of samples weighted 1,2,1 minus the right column weighted
/// the same (the kernel's middle column is zero).
pub open spec fn grad(g: Seq<Seq<Pixel>>, x: int, y: int, c: int) -> int {
    chan(sample(g, x - 1, y - 1), c) + 2 * chan(sample(g, x - 1, y), c) + chan(
        sample(g, x - 1, y + 1),
        c,
    ) - chan(sample(g, x + 1, y - 1), c) - 2 * chan(sample(g, x + 1, y), c) - chan(
        sample(g, x + 1, y + 1),
        c,
    )
}

/// The energy at (x, y): the three channels' gradients, summed by
/// absolute value. Always in 0..=6120, since a channel is at most 255
/// and the kernel's coefficients sum to 8 in absolute value.
pub open spec fn sobel_at(g: Seq<Seq<Pixel>>, x: int, y: int) -> int {
    (abs(grad(g, x, y, 0)) + abs(grad(g, x, y, 1)) + abs(grad(g, x, y, 2))) as int
}

/// The energy grid of a pixel grid: same dimensions, each cell the
/// energy at that pixel.
pub open spec fn energy_spec(g: Seq<Seq<Pixel>>) -> Seq<Seq<u32>> {
    Seq::new(g.len(), |r: int| Seq::new(width_of(g) as nat, |c: int| sobel_at(g, c, r) as u32))
}

/// The edge-clamped pair of indices on either side of i, within 0..len.
fn clamped_pair(i: usize, len: usize) -> (r: (usize, usize))
    requires
        i < len,
    ensures
        r.0 as int == clamp_idx(i as int - 1, len as int - 1),
        r.1 as int == clamp_idx(i as int + 1, len as int - 1),
        r.0 < len,
        r.1 < len,
{
    let lo = if i == 0 { 0 } else { i - 1 };
    let hi = if i + 1 >= len { len - 1 } else { i + 1 };
    (lo, hi)
}

/// The pixel stored at column xi of row yi (no clamping).
fn grid_at(image: &Vec<Vec<Pixel>>, xi: usize, yi: usize) -> (p: Pixel)
    requires
        rect(pix_rows(image@)),
        yi < image@.len(),
        xi < width_of(pix_rows(image@)),
    ensures
        p == pix_rows(image@)[yi as int][xi as int],
{
    proof {
        assert(pix_rows(image@)[yi as int].len() == width_of(pix_rows(image@)));
    }
    image[yi][xi]
}

/// Magnitude of the kernel's response given the six weighted samples:
/// the left column a, b, c against the right column d, e, f.
fn kernel_mag(a: u8, b: u8, c: u8, d: u8, e: u8, f: u8) -> (m: u32)
    ensures
        m as int == abs(
            a as int + 2 * (b as int) + c as int - d as int - 2 * (e as int) - f as int,
        ),
        m <= 2040,
{
    let s: i32 = a as i32 + 2 * (b as i32) + c as i32 - d as i32 - 2 * (e as i32) - f as i32;
    if s < 0 {
        (-s) as u32
    } else {
        s as u32
    }
}

/// The gradient-magnitude energy of the pixel at (x, y).
pub fn sobel_energy(image: &Vec<Vec<Pixel>>, x: usize, y: usize) -> (e: u32)
    requires
        rect(pix_rows(image@)),
        y < image@.len(),
        x < width_of(pix_rows(image@)),
    ensures
        e as int == sobel_at(pix_rows(image@), x as int, y as int),
        e <= 6120,
{
    let ghost g = pix_rows(image@);
    let h = image.len();
    let w = image[0].len();

    let (xl, xr) = clamped_pair(x, w);
    let (yu, yd) = clamped_pair(y, h);

    let tl = grid_at(image, xl, yu);
    let ml = grid_at(image, xl, y);
    let bl = grid_at(image, xl, yd);
    let tr = grid_at(image, xr, yu);
    let mr = grid_at(image, xr, y);
    let br = grid_at(image, xr, yd);

    proof {
        assert(tl == sample(g, x as int - 1, y as int - 1));
        assert(ml == sample(g, x as int - 1, y as int));
        assert(bl == sample(g, x as int - 1, y as int + 1));
        assert(tr == sample(g, x as int + 1, y as int - 1));
        assert(mr == sample(g, x as int + 1, y as int));
        assert(br == sample(g, x as int + 1, y as int + 1));
    }

    let ar = kernel_mag(tl.r, ml.r, bl.r, tr.r, mr.r, br.r);
    let ag = kernel_mag(tl.g, ml.g, bl.g, tr.g, mr.g, br.g);
    let ab = kernel_mag(tl.b, ml.b, bl.b, tr.b, mr.b, br.b);

    proof {
        assert(ar as int == abs(grad(g, x as int, y as int, 0)));
        assert(ag as int == abs(grad(g, x as int, y as int, 1)));
        assert(ab as int == abs(grad(g, x as int, y as int, 2)));
    }

    ar + ag + ab
}

/// The energy grid of a whole pixel grid, row-major, same dimensions.
pub fn compute_energy_weights(image: &Vec<Vec<Pixel>>) -> (weights: Vec<Vec<u32>>)
    requires
        rect(pix_rows(image@)),
    ensures
        egy_rows(weights@) == energy_spec(pix_rows(image@)),
        weights@.len() == image@.len(),
        forall|r: int| 0 <= r < weights@.len() ==> (#[trigger] weights@[r])@.len() == width_of(
            pix_rows(image@),
        ),
        forall|r: int, c: int|
            0 <= r < weights@.len() && 0 <= c < width_of(pix_rows(image@)) ==> (
            #[trigger] weights@[r]@[c]) as int == sobel_at(pix_rows(image@), c, r),
{
    let ghost g = pix_rows(image@);
    let h = image.len();
    let mut weights: Vec<Vec<u32>> = Vec::new();

    for y in 0..h
        invariant
            rect(g),
            g == pix_rows(image@),
            h == image@.len(),
            weights@.len() == y,
            forall|r: int| 0 <= r < y ==> (#[trigger] weights@[r])@.len() == width_of(g),
            forall|r: int, c: int|
                0 <= r < y && 0 <= c < width_of(g) ==> (#[trigger] weights@[r]@[c]) as int
                    == sobel_at(g, c, r),
    {
        let w = image[0].len();
        let mut row: Vec<u32> = Vec::new();
        for x in 0..w
            invariant
                rect(g),
                g == pix_rows(image@),
                h == image@.len(),
                y < h,
                w == width_of(g),
                row@.len() == x,
                forall|c: int| 0 <= c < x ==> (#[trigger] row@[c]) as int == sobel_at(
                    g,
                    c,
                    y as int,
                ),
        {
            let e = sobel_energy(image, x, y);
            row.push(e);
        }
        weights.push(row);
    }

    proof {
        assert(egy_rows(weights@) =~~= energy_spec(g));
    }
    weights
}

} // verus!
