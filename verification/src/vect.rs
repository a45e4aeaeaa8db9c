//! A small vector of single-precision scalars, as bit patterns.
//!
//! A utility type at the boundary; the solver itself works on plain
//! `Vec<u32>` rows. Arithmetic consumes the operands, and the elementwise
//! operations truncate to the shorter operand.

use crate::fbits::{add32, add_bits, mul32, mul_bits, F_ZERO};
use vstd::prelude::*;

verus! {

/// Dense vector of single-precision scalars held as bit patterns.
pub struct Vect {
    pub data: Vec<u32>,
}

impl View for Vect {
    type V = Seq<u32>;

    open spec fn view(&self) -> Seq<u32> {
        self.data@
    }
}

/// Running inner product of two vectors: the first `k` pairwise products
/// summed in index order onto a zero start.
pub open spec fn vdot_acc(x: Seq<u32>, y: Seq<u32>, k: int) -> u32
    decreases k,
{
    if k <= 0 {
        F_ZERO
    } else {
        add_bits(vdot_acc(x, y, k - 1), mul_bits(x[k - 1], y[k - 1]))
    }
}

/// The length both elementwise operations work over: the shorter of the
/// two operands.
pub open spec fn min_len(x: Seq<u32>, y: Seq<u32>) -> int {
    if x.len() <= y.len() {
        x.len() as int
    } else {
        y.len() as int
    }
}

impl Vect {
    /// Wraps the given scalars.
    pub fn new(data: Vec<u32>) -> (r: Vect)
        ensures
            r@ == data@,
    {
        Vect { data }
    }

    /// Elementwise sum, truncated to the shorter operand; both operands
    /// are consumed.
    pub fn add(self, other: Vect) -> (r: Vect)
        ensures
            r@.len() == min_len(self@, other@),
            forall|i: int| 0 <= i < r@.len() ==> r@[i] == add_bits(self@[i], other@[i]),
    {
        let n = if self.data.len() <= other.data.len() {
            self.data.len()
        } else {
            other.data.len()
        };
        let mut data: Vec<u32> = Vec::new();
        let mut i: usize = 0;
        while i < n
            invariant
                n == min_len(self@, other@),
                i <= n,
                data@.len() == i,
                forall|t: int| 0 <= t < i ==> data@[t] == add_bits(self@[t], other@[t]),
        decreases n - i,
        {
            let v = add32(self.data[i], other.data[i]);
            data.push(v);
            i = i + 1;
        }
        Vect { data }
    }

    /// Elementwise scalar product; the operand is consumed.
    pub fn scale(self, s: u32) -> (r: Vect)
        ensures
            r@.len() == self@.len(),
            forall|i: int| 0 <= i < r@.len() ==> r@[i] == mul_bits(self@[i], s),
    {
        let mut data: Vec<u32> = Vec::new();
        let mut i: usize = 0;
        while i < self.data.len()
            invariant
                i <= self@.len(),
                data@.len() == i,
                forall|t: int| 0 <= t < i ==> data@[t] == mul_bits(self@[t], s),
            decreases self@.len() - i,
        {
            let v = mul32(self.data[i], s);
            data.push(v);
            i = i + 1;
        }
        Vect { data }
    }

    /// Inner product, truncated to the shorter operand: the pairwise
    /// products summed in index order onto a zero start; both operands
    /// are consumed.
    pub fn dot(self, other: Vect) -> (r: u32)
        ensures
            r == vdot_acc(self@, other@, min_len(self@, other@)),
    {
        let n = if self.data.len() <= other.data.len() {
            self.data.len()
        } else {
            other.data.len()
        };
        let mut acc: u32 = F_ZERO;
        let mut i: usize = 0;
        while i < n
            invariant
                n == min_len(self@, other@),
                i <= n,
                acc == vdot_acc(self@, other@, i as int),
            decreases n - i,
        {
            acc = add32(acc, mul32(self.data[i], other.data[i]));
            i = i + 1;
        }
        acc
    }
}

} // verus!
