//! The boundary value types: one solve request and its report.

use vstd::prelude::*;

verus! {

/// One solve request at the boundary: the coefficient rows, the
/// right-hand side, the tolerance, and the declared size. Scalars are
/// single-precision bit patterns.
#[allow(non_snake_case)]
pub struct Request {
    pub A: Vec<Vec<u32>>,
    pub b: Vec<u32>,
    pub eps: u32,
    pub n: usize,
}

/// The solution report: the solution vector, the elementwise absolute
/// accuracy, the tolerance used, the sweep at which convergence was
/// declared, and an error message, empty exactly on success.
pub struct Response {
    pub x: Vec<u32>,
    pub acc: Vec<u32>,
    pub eps: u32,
    pub iters: u32,
    pub error: String,
}

} // verus!
