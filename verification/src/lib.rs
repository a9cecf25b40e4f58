//! Content-aware image narrowing by seam carving.
//!
//! The engine works on an in-memory pixel grid: it computes a per-pixel
//! energy weight from local color gradients, finds the top-to-bottom path
//! of minimum cumulative energy by dynamic programming, and removes that
//! path, shrinking the grid by one column per iteration. Decoding and
//! encoding raster files is left to the caller.

pub mod carve;
pub mod energy;
pub mod grid;
pub mod laws;
pub mod remove;
pub mod seam;

pub use carve::{CarveError, carve_vertical_seams};
pub use energy::{compute_energy_weights, sobel_energy};
pub use grid::Pixel;
pub use remove::{RemoveError, remove_vertical_seam};
pub use seam::{SeamStep, find_min_seam_path};
