//! Iterative solver for square linear systems, with its pre-checks.
//!
//! The numeric core: a dense single-precision matrix with determinant and
//! rank by Gaussian elimination, a brute-force column-reordering search
//! for row dominance, and a fixed-point iteration with a convergence test
//! and an iteration cap. Scalars are carried as IEEE-754 bit patterns; see
//! `fbits` for how their arithmetic is specified.

pub mod eq_solver;
pub mod fbits;
pub mod mat;
pub mod models;
pub mod vect;
