//! The pixel grid and its well-formedness.
//!
//! A grid is a row-major rectangle of three-channel pixels: every row has
//! the same length. Width and height are read off the outer and inner
//! vectors; an empty grid has width zero.

use vstd::prelude::*;

verus! {

/// One pixel: three 8-bit color channels.
#[derive(Clone, Copy, Debug, PartialEq, Eq, Structural)]
pub struct Pixel {
    pub r: u8,
    pub g: u8,
    pub b: u8,
}

/// The rows of a pixel grid, as a sequence of sequences.
pub open spec fn pix_rows(g: Seq<Vec<Pixel>>) -> Seq<Seq<Pixel>> {
    Seq::new(g.len(), |i: int| g[i]@)
}

/// The rows of an energy grid, as a sequence of sequences.
pub open spec fn egy_rows(g: Seq<Vec<u32>>) -> Seq<Seq<u32>> {
    Seq::new(g.len(), |i: int| g[i]@)
}

/// A grid is well formed when every row is as long as the first.
pub open spec fn rect<T>(g: Seq<Seq<T>>) -> bool {
    forall|i: int| 0 <= i < g.len() ==> (#[trigger] g[i]).len() == g[0].len()
}

/// Width of a grid: the length of its rows; zero when there are none.
pub open spec fn width_of<T>(g: Seq<Seq<T>>) -> int {
    if g.len() == 0 {
        0
    } else {
        g[0].len() as int
    }
}

} // verus!
