//! Conway's Game of Life on a torus, verified.
//!
//! The cells live in a bit-packed [`grid::Grid`]. One generation is computed
//! from the one before by [`step::compute_cells`], which counts neighbours by
//! vertical triples ([`counter`]) and is proved to compute [`life::step`], the
//! rule written down cell by cell. [`render`] paints a generation into a
//! pixel buffer, [`seed`] fills the first one, and [`scheduler`] holds the two
//! buffers of a run and decides the pacing. [`laws`] states what holds of
//! every board.

pub mod arith;
pub mod bits;
pub mod counter;
pub mod grid;
pub mod laws;
pub mod life;
pub mod region;
pub mod render;
pub mod scheduler;
pub mod seed;
pub mod step;
