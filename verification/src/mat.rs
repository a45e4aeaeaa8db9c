//! Dense single-precision matrix, stored row-major as bit patterns.
//!
//! A matrix owns a rectangular array of scalars; arithmetic consumes the
//! operands and yields a new matrix. The determinant and the rank work on
//! a private copy, leaving the receiver untouched.

use crate::fbits::{
    abs32, abs_bits, add32, add_bits, div32, div_bits, is_zero32, is_zero_bits, lt32, lt_bits,
    mul32, mul_bits, neg32, neg_bits, sub32, sub_bits, F_ONE, F_ZERO,
};
use vstd::prelude::*;

verus! {

/// Dense matrix of single-precision scalars held as bit patterns.
pub struct Mat {
    pub rows: usize,
    pub cols: usize,
    pub data: Vec<Vec<u32>>,
}

impl View for Mat {
    type V = Seq<Seq<u32>>;

    open spec fn view(&self) -> Seq<Seq<u32>> {
        self.data@.map_values(|r: Vec<u32>| r@)
    }
}

/// Copies one row of scalars.
pub(crate) fn copy_row(v: &Vec<u32>) -> (r: Vec<u32>)
    ensures
        r@ == v@,
{
    let mut r: Vec<u32> = Vec::new();
    let mut j: usize = 0;
    while j < v.len()
        invariant
            j <= v@.len(),
            r@ == v@.subrange(0, j as int),
        decreases v@.len() - j,
    {
        r.push(v[j]);
        proof {
            assert(v@.subrange(0, j as int).push(v@[j as int]) =~= v@.subrange(0, j + 1 as int));
        }
        j = j + 1;
    }
    proof {
        assert(v@.subrange(0, j as int) =~= v@);
    }
    r
}

/// Copies a whole row-major array of scalars.
pub(crate) fn copy_data(d: &Vec<Vec<u32>>) -> (r: Vec<Vec<u32>>)
    ensures
        r@.len() == d@.len(),
        forall|i: int| 0 <= i < d@.len() ==> (#[trigger] r@[i])@ == d@[i]@,
{
    let mut r: Vec<Vec<u32>> = Vec::new();
    let mut i: usize = 0;
    while i < d.len()
        invariant
            i <= d@.len(),
            r@.len() == i,
            forall|t: int| 0 <= t < i ==> (#[trigger] r@[t])@ == d@[t]@,
        decreases d@.len() - i,
    {
        let row = copy_row(&d[i]);
        r.push(row);
        i = i + 1;
    }
    r
}

/// A row with every cell set to the same scalar.
pub(crate) fn filled_row(init: u32, cols: usize) -> (r: Vec<u32>)
    ensures
        r@.len() == cols,
        forall|j: int| 0 <= j < cols ==> r@[j] == init,
{
    let mut r: Vec<u32> = Vec::new();
    let mut j: usize = 0;
    while j < cols
        invariant
            j <= cols,
            r@.len() == j,
            forall|t: int| 0 <= t < j ==> r@[t] == init,
        decreases cols - j,
    {
        r.push(init);
        j = j + 1;
    }
    r
}

/// Running accumulation of the inner product used by the matrix product:
/// the first `k` terms `a[i][t] * b[t][j]`, summed in index order onto a
/// zero start.
pub open spec fn dot_acc(a: Seq<Seq<u32>>, b: Seq<Seq<u32>>, i: int, j: int, k: int) -> u32
    decreases k,
{
    if k <= 0 {
        F_ZERO
    } else {
        add_bits(dot_acc(a, b, i, j, k - 1), mul_bits(a[i][k - 1], b[k - 1][j]))
    }
}


/// View of a working row-major array as a sequence of rows of scalars.
pub open spec fn dview(d: Vec<Vec<u32>>) -> Seq<Seq<u32>> {
    d@.map_values(|r: Vec<u32>| r@)
}

/// Reads one cell of a working array.
fn d_at(d: &Vec<Vec<u32>>, i: usize, j: usize) -> (r: u32)
    requires
        i < dview(*d).len(),
        j < dview(*d)[i as int].len(),
    ensures
        r == dview(*d)[i as int][j as int],
{
    proof {
        assert(dview(*d)[i as int] == d@[i as int]@);
    }
    d[i][j]
}

/// Copies one row of a working array.
fn d_copy_row(d: &Vec<Vec<u32>>, i: usize) -> (r: Vec<u32>)
    requires
        i < dview(*d).len(),
    ensures
        r@ == dview(*d)[i as int],
{
    proof {
        assert(dview(*d)[i as int] == d@[i as int]@);
    }
    copy_row(&d[i])
}

/// Replaces one row of a working array.
fn d_set_row(d: &mut Vec<Vec<u32>>, i: usize, row: Vec<u32>)
    requires
        i < dview(*old(d)).len(),
    ensures
        dview(*final(d)) == dview(*old(d)).update(i as int, row@),
{
    let ghost pre = dview(*old(d));
    d[i] = row;
    proof {
        assert forall|t: int| 0 <= t < pre.len() implies dview(*d)[t] == pre.update(
            i as int,
            row@,
        )[t] by {
            assert(dview(*d)[t] == d@[t]@);
        }
        assert(dview(*d) =~= pre.update(i as int, row@));
    }
}

/// Index of the pivot row for column `i` among rows `i..hi`: the row whose
/// entry in column `i` has the largest absolute value, keeping the earliest
/// on ties (the scan improves only on a strictly larger value).
pub open spec fn pivot_idx(m: Seq<Seq<u32>>, i: int, hi: int) -> int
    decreases hi - i,
{
    if hi <= i + 1 {
        i
    } else {
        let k = pivot_idx(m, i, hi - 1);
        if lt_bits(abs_bits(m[k][i]), abs_bits(m[hi - 1][i])) {
            hi - 1
        } else {
            k
        }
    }
}

/// The matrix with rows `i` and `k` exchanged.
pub open spec fn swap_rows(m: Seq<Seq<u32>>, i: int, k: int) -> Seq<Seq<u32>> {
    m.update(i, m[k]).update(k, m[i])
}

/// Row `i` with the entries strictly right of the pivot divided by the
/// pivot value, as the determinant's elimination does.
pub open spec fn det_norm(m: Seq<Seq<u32>>, i: int, n: int) -> Seq<Seq<u32>> {
    m.update(
        i,
        Seq::new(
            m[i].len(),
            |j: int|
                if i < j < n {
                    div_bits(m[i][j], m[i][i])
                } else {
                    m[i][j]
                },
        ),
    )
}

/// One elimination pass for pivot column `i`: from every other row whose
/// entry in column `i` exceeds `eps` in absolute value, subtract that entry
/// times row `i`, restricted to columns right of `i`.
pub open spec fn det_elim(m: Seq<Seq<u32>>, i: int, n: int, eps: u32) -> Seq<Seq<u32>> {
    Seq::new(
        m.len(),
        |r: int|
            if r != i && lt_bits(eps, abs_bits(m[r][i])) {
                Seq::new(
                    m[r].len(),
                    |c: int|
                        if i < c < n {
                            sub_bits(m[r][c], mul_bits(m[r][i], m[i][c]))
                        } else {
                            m[r][c]
                        },
                )
            } else {
                m[r]
            },
    )
}

/// The determinant's elimination, resumed at pivot column `i` with the
/// running product `ans`: selects the partial pivot, stops with zero when
/// its absolute value is below `eps`, and otherwise swaps it into place
/// (negating `ans` on a real swap), multiplies `ans` by the pivot,
/// normalizes the pivot row right of the pivot and eliminates the column.
pub open spec fn det_from(m: Seq<Seq<u32>>, ans: u32, i: int, n: int, eps: u32) -> u32
    decreases n - i,
{
    if i >= n {
        ans
    } else {
        let k = pivot_idx(m, i, n);
        if lt_bits(abs_bits(m[k][i]), eps) {
            F_ZERO
        } else {
            let m1 = swap_rows(m, i, k);
            let a1 = if k != i {
                neg_bits(ans)
            } else {
                ans
            };
            let a2 = mul_bits(a1, m1[i][i]);
            let m2 = det_norm(m1, i, n);
            let m3 = det_elim(m2, i, n, eps);
            det_from(m3, a2, i + 1, n, eps)
        }
    }
}

/// The determinant of a square matrix of side `n`: Gaussian elimination
/// with partial pivoting, the signed product of the pivots, and exactly
/// zero when some pivot's absolute value falls below `eps`.
pub open spec fn det_spec(m: Seq<Seq<u32>>, n: int, eps: u32) -> u32 {
    det_from(m, F_ONE, 0, n, eps)
}

/// First row at or below `lo` whose entry in column `j` is not an exact
/// zero; `rows` when the whole segment is zero.
pub open spec fn find_nz(m: Seq<Seq<u32>>, lo: int, j: int, rows: int) -> int
    decreases rows - lo,
{
    if lo >= rows {
        rows
    } else if !is_zero_bits(m[lo][j]) {
        lo
    } else {
        find_nz(m, lo + 1, j, rows)
    }
}

/// The pivot row normalized as the rank reduction does it: the cells from
/// column `j` up to `upto` are divided, in index order and in place, by
/// the value the row then holds in column `j` (so the cell at `j` itself
/// is divided first, and the later cells are divided by the result).
pub open spec fn rk_norm_row(row: Seq<u32>, j: int, upto: int) -> Seq<u32>
    decreases upto - j,
{
    if upto <= j {
        row
    } else {
        let r1 = rk_norm_row(row, j, upto - 1);
        r1.update(upto - 1, div_bits(r1[upto - 1], r1[j]))
    }
}

/// One elimination pass of the rank reduction: from every row below the
/// pivot row `p`, subtract the pivot row times the row's entry in column
/// `j`, restricted to columns `j` and beyond, with no zero test.
pub open spec fn rk_elim(m: Seq<Seq<u32>>, p: int, j: int, cols: int) -> Seq<Seq<u32>> {
    Seq::new(
        m.len(),
        |r: int|
            if p < r {
                Seq::new(
                    m[r].len(),
                    |c: int|
                        if j <= c < cols {
                            sub_bits(m[r][c], mul_bits(m[p][c], m[r][j]))
                        } else {
                            m[r][c]
                        },
                )
            } else {
                m[r]
            },
    )
}

/// The rank reduction resumed at column `j` with `ans` pivots found so
/// far: scan for a nonzero entry at or below row `ans`; when none is
/// found the column is skipped, otherwise the found row is swapped into
/// place, normalized, the column is eliminated below it, and the pivot
/// count grows by one.
pub open spec fn rk_from(m: Seq<Seq<u32>>, ans: int, j: int, rows: int, cols: int) -> int
    decreases cols - j,
{
    if j >= cols {
        ans
    } else {
        let p = find_nz(m, ans, j, rows);
        if p >= rows {
            rk_from(m, ans, j + 1, rows, cols)
        } else {
            let m1 = swap_rows(m, ans, p);
            let m2 = m1.update(ans, rk_norm_row(m1[ans], j, cols));
            let m3 = rk_elim(m2, ans, j, cols);
            rk_from(m3, ans + 1, j + 1, rows, cols)
        }
    }
}

/// The rank: row-echelon reduction with exact-zero pivot tests, counting
/// the pivot columns.
pub open spec fn rk_spec(m: Seq<Seq<u32>>, rows: int, cols: int) -> int {
    rk_from(m, 0, 0, rows, cols)
}

impl Mat {
    /// Shape is consistent: as many rows as `rows`, each of width `cols`.
    pub open spec fn wf(self) -> bool {
        self@.len() == self.rows && forall|i: int|
            0 <= i < self.rows ==> (#[trigger] self@[i]).len() == self.cols
    }

    /// Reads one cell.
    pub fn at(&self, i: usize, j: usize) -> (r: u32)
        requires
            self.wf(),
            i < self.rows,
            j < self.cols,
        ensures
            r == self@[i as int][j as int],
    {
        proof {
            assert(self@[i as int] == self.data@[i as int]@);
        }
        self.data[i][j]
    }

    /// Every cell set to `init`.
    pub fn new(init: u32, rows: usize, cols: usize) -> (r: Mat)
        ensures
            r.wf(),
            r.rows == rows,
            r.cols == cols,
            forall|i: int, j: int|
                0 <= i < rows && 0 <= j < cols ==> r@[i][j] == init,
    {
        let mut data: Vec<Vec<u32>> = Vec::new();
        let mut i: usize = 0;
        while i < rows
            invariant
                i <= rows,
                data@.len() == i,
                forall|t: int| 0 <= t < i ==> (#[trigger] data@[t])@.len() == cols,
                forall|t: int, j: int| #![trigger data@[t]@[j]]
                    0 <= t < i && 0 <= j < cols ==> data@[t]@[j] == init,
            decreases rows - i,
        {
            let row = filled_row(init, cols);
            data.push(row);
            i = i + 1;
        }
        Mat { rows, cols, data }
    }

    /// Shape inferred from the input; an empty input yields the 0-by-0
    /// matrix. The input must be rectangular.
    pub fn from(data: Vec<Vec<u32>>) -> (r: Mat)
        requires
            forall|i: int|
                0 <= i < data@.len() ==> (#[trigger] data@[i])@.len() == data@[0]@.len(),
        ensures
            r.wf(),
            r@ == data@.map_values(|v: Vec<u32>| v@),
            r.rows == data@.len(),
            r.cols == if data@.len() == 0 { 0int } else { data@[0]@.len() as int },
    {
        if data.len() == 0 {
            Mat { rows: 0, cols: 0, data }
        } else {
            let rows = data.len();
            let cols = data[0].len();
            Mat { rows, cols, data }
        }
    }

    /// Number of cells.
    pub fn size(&self) -> (r: usize)
        requires
            self.rows * self.cols <= usize::MAX,
        ensures
            r == self.rows * self.cols,
    {
        self.rows * self.cols
    }

    /// Elementwise sum; both operands are consumed. The shapes must
    /// match (the caller's responsibility, as a mismatch is a
    /// programming error).
    pub fn add(self, other: Mat) -> (r: Mat)
        requires
            self.wf(),
            other.wf(),
            self.rows == other.rows,
            self.cols == other.cols,
        ensures
            r.wf(),
            r.rows == self.rows,
            r.cols == self.cols,
            forall|i: int, j: int|
                0 <= i < self.rows && 0 <= j < self.cols ==> r@[i][j] == add_bits(
                    self@[i][j],
                    other@[i][j],
                ),
    {
        let mut data: Vec<Vec<u32>> = Vec::new();
        let mut i: usize = 0;
        while i < self.rows
            invariant
                self.wf(),
                other.wf(),
                self.rows == other.rows,
                self.cols == other.cols,
                i <= self.rows,
                data@.len() == i,
                forall|t: int| 0 <= t < i ==> (#[trigger] data@[t])@.len() == self.cols,
                forall|t: int, j: int| #![trigger data@[t]@[j]]
                    0 <= t < i && 0 <= j < self.cols ==> data@[t]@[j] == add_bits(
                        self@[t][j],
                        other@[t][j],
                    ),
            decreases self.rows - i,
        {
            let mut row: Vec<u32> = Vec::new();
            let mut j: usize = 0;
            while j < self.cols
                invariant
                    self.wf(),
                    other.wf(),
                    self.rows == other.rows,
                    self.cols == other.cols,
                    i < self.rows,
                    j <= self.cols,
                    row@.len() == j,
                    forall|t: int|
                        0 <= t < j ==> row@[t] == add_bits(self@[i as int][t], other@[i as int][t]),
                decreases self.cols - j,
            {
                let v = add32(self.at(i, j), other.at(i, j));
                row.push(v);
                j = j + 1;
            }
            data.push(row);
            i = i + 1;
        }
        Mat { rows: self.rows, cols: self.cols, data }
    }

    /// Elementwise scalar product; the operand is consumed.
    pub fn scale(self, s: u32) -> (r: Mat)
        requires
            self.wf(),
        ensures
            r.wf(),
            r.rows == self.rows,
            r.cols == self.cols,
            forall|i: int, j: int|
                0 <= i < self.rows && 0 <= j < self.cols ==> r@[i][j] == mul_bits(self@[i][j], s),
    {
        let mut data: Vec<Vec<u32>> = Vec::new();
        let mut i: usize = 0;
        while i < self.rows
            invariant
                self.wf(),
                i <= self.rows,
                data@.len() == i,
                forall|t: int| 0 <= t < i ==> (#[trigger] data@[t])@.len() == self.cols,
                forall|t: int, j: int| #![trigger data@[t]@[j]]
                    0 <= t < i && 0 <= j < self.cols ==> data@[t]@[j] == mul_bits(
                        self@[t][j],
                        s,
                    ),
            decreases self.rows - i,
        {
            let mut row: Vec<u32> = Vec::new();
            let mut j: usize = 0;
            while j < self.cols
                invariant
                    self.wf(),
                    i < self.rows,
                    j <= self.cols,
                    row@.len() == j,
                    forall|t: int| 0 <= t < j ==> row@[t] == mul_bits(self@[i as int][t], s),
                decreases self.cols - j,
            {
                let v = mul32(self.at(i, j), s);
                row.push(v);
                j = j + 1;
            }
            data.push(row);
            i = i + 1;
        }
        Mat { rows: self.rows, cols: self.cols, data }
    }

    /// Standard triple-loop matrix product; both operands are consumed.
    /// Each cell is the running sum of products in index order, starting
    /// from zero. The widths must agree (the caller's responsibility, as
    /// a mismatch is a programming error).
    pub fn mul(self, other: Mat) -> (r: Mat)
        requires
            self.wf(),
            other.wf(),
            self.cols == other.rows,
        ensures
            r.wf(),
            r.rows == self.rows,
            r.cols == other.cols,
            forall|i: int, j: int|
                0 <= i < self.rows && 0 <= j < other.cols ==> r@[i][j] == dot_acc(
                    self@,
                    other@,
                    i,
                    j,
                    self.cols as int,
                ),
    {
        let mut data: Vec<Vec<u32>> = Vec::new();
        let mut i: usize = 0;
        while i < self.rows
            invariant
                self.wf(),
                other.wf(),
                self.cols == other.rows,
                i <= self.rows,
                data@.len() == i,
                forall|t: int| 0 <= t < i ==> (#[trigger] data@[t])@.len() == other.cols,
                forall|t: int, j: int| #![trigger data@[t]@[j]]
                    0 <= t < i && 0 <= j < other.cols ==> data@[t]@[j] == dot_acc(
                        self@,
                        other@,
                        t,
                        j,
                        self.cols as int,
                    ),
            decreases self.rows - i,
        {
            let mut row: Vec<u32> = Vec::new();
            let mut j: usize = 0;
            while j < other.cols
                invariant
                    self.wf(),
                    other.wf(),
                    self.cols == other.rows,
                    i < self.rows,
                    j <= other.cols,
                    row@.len() == j,
                    forall|t: int|
                        0 <= t < j ==> row@[t] == dot_acc(self@, other@, i as int, t, self.cols as int),
                decreases other.cols - j,
            {
                let mut acc: u32 = F_ZERO;
                let mut k: usize = 0;
                while k < self.cols
                    invariant
                        self.wf(),
                        other.wf(),
                        self.cols == other.rows,
                        i < self.rows,
                        j < other.cols,
                        k <= self.cols,
                        acc == dot_acc(self@, other@, i as int, j as int, k as int),
                    decreases self.cols - k,
                {
                    let p = mul32(self.at(i, k), other.at(k, j));
                    acc = add32(acc, p);
                    k = k + 1;
                }
                row.push(acc);
                j = j + 1;
            }
            data.push(row);
            i = i + 1;
        }
        Mat { rows: self.rows, cols: other.cols, data }
    }

    /// Determinant by Gaussian elimination with partial pivoting, on a
    /// private copy of the matrix: exactly zero as soon as a pivot's
    /// absolute value falls below `eps`, otherwise the signed product of
    /// the pivots. The matrix must be square (a programming error
    /// otherwise).
    pub fn det(&self, eps: u32) -> (r: u32)
        requires
            self.wf(),
            self.rows == self.cols,
        ensures
            r == det_spec(self@, self.rows as int, eps),
    {
        let n = self.rows;
        let mut a = copy_data(&self.data);
        let mut ans: u32 = F_ONE;
        proof {
            assert forall|t: int| 0 <= t < n implies (#[trigger] dview(a)[t]).len() == n by {
                assert(dview(a)[t] == a@[t]@);
                assert(self@[t] == self.data@[t]@);
            }
            assert forall|t: int| 0 <= t < n implies #[trigger] dview(a)[t] == self@[t] by {
                assert(dview(a)[t] == a@[t]@);
                assert(self@[t] == self.data@[t]@);
            }
            assert(dview(a) =~= self@);
        }
        let mut i: usize = 0;
        while i < n
            invariant
                self.wf(),
                n == self.rows,
                n == self.cols,
                i <= n,
                dview(a).len() == n,
                forall|t: int| 0 <= t < n ==> (#[trigger] dview(a)[t]).len() == n,
                det_from(dview(a), ans, i as int, n as int, eps) == det_spec(
                    self@,
                    self.rows as int,
                    eps,
                ),
            decreases n - i,
        {
            let ghost m0 = dview(a);
            let ghost ans0 = ans;
            let mut k: usize = i;
            let mut j: usize = i + 1;
            while j < n
                invariant
                    i < n,
                    i <= k < n,
                    i + 1 <= j <= n,
                    dview(a) == m0,
                    dview(a).len() == n,
                    forall|t: int| 0 <= t < n ==> (#[trigger] dview(a)[t]).len() == n,
                    k as int == pivot_idx(m0, i as int, j as int),
                decreases n - j,
            {
                let vj = abs32(d_at(&a, j, i));
                let vk = abs32(d_at(&a, k, i));
                if lt32(vk, vj) {
                    k = j;
                }
                j = j + 1;
            }
            let piv_abs = abs32(d_at(&a, k, i));
            if lt32(piv_abs, eps) {
                proof {
                    assert(det_from(m0, ans, i as int, n as int, eps) == F_ZERO);
                }
                return F_ZERO;
            }
            let ri = d_copy_row(&a, i);
            let rk = d_copy_row(&a, k);
            d_set_row(&mut a, i, rk);
            d_set_row(&mut a, k, ri);
            let ghost m1 = swap_rows(m0, i as int, k as int);
            proof {
                assert(dview(a) == m1);
                assert forall|t: int| 0 <= t < n implies (#[trigger] m1[t]).len() == n by {}
            }
            if i != k {
                ans = neg32(ans);
            }
            let piv = d_at(&a, i, i);
            ans = mul32(ans, piv);
            let mut row: Vec<u32> = Vec::new();
            let mut c: usize = 0;
            while c < n
                invariant
                    i < n,
                    c <= n,
                    dview(a) == m1,
                    dview(a).len() == n,
                    forall|t: int| 0 <= t < n ==> (#[trigger] dview(a)[t]).len() == n,
                    piv == m1[i as int][i as int],
                    row@.len() == c,
                    forall|t: int|
                        0 <= t < c ==> row@[t] == (if i < t < n {
                            div_bits(m1[i as int][t], m1[i as int][i as int])
                        } else {
                            m1[i as int][t]
                        }),
                decreases n - c,
            {
                let v = d_at(&a, i, c);
                let w = if c > i {
                    div32(v, piv)
                } else {
                    v
                };
                row.push(w);
                c = c + 1;
            }
            d_set_row(&mut a, i, row);
            let ghost m2 = det_norm(m1, i as int, n as int);
            proof {
                assert(dview(a) =~~= m2);
                assert forall|t: int| 0 <= t < n implies (#[trigger] m2[t]).len() == n by {}
            }
            let mut r2: usize = 0;
            while r2 < n
                invariant
                    i < n,
                    r2 <= n,
                    dview(a).len() == n,
                    m2.len() == n,
                    forall|t: int| 0 <= t < n ==> (#[trigger] dview(a)[t]).len() == n,
                    forall|t: int| 0 <= t < n ==> (#[trigger] m2[t]).len() == n,
                    forall|t: int|
                        0 <= t < n ==> #[trigger] dview(a)[t] == (if t < r2 {
                            det_elim(m2, i as int, n as int, eps)[t]
                        } else {
                            m2[t]
                        }),
                decreases n - r2,
            {
                if r2 != i {
                    let mult = d_at(&a, r2, i);
                    let cond = lt32(eps, abs32(mult));
                    if cond {
                        proof {
                            if i < r2 {
                                assert(det_elim(m2, i as int, n as int, eps)[i as int] == m2[
                                    i as int
                                ]);
                            }
                        }
                        let mut nrow: Vec<u32> = Vec::new();
                        let mut c2: usize = 0;
                        while c2 < n
                            invariant
                                i < n,
                                r2 < n,
                                r2 != i,
                                c2 <= n,
                                mult == m2[r2 as int][i as int],
                                dview(a).len() == n,
                                m2.len() == n,
                                forall|t: int| 0 <= t < n ==> (#[trigger] m2[t]).len() == n,
                                forall|t: int| 0 <= t < n ==> (#[trigger] dview(a)[t]).len() == n,
                                dview(a)[r2 as int] == m2[r2 as int],
                                dview(a)[i as int] == m2[i as int],
                                nrow@.len() == c2,
                                forall|t: int|
                                    0 <= t < c2 ==> nrow@[t] == (if i < t < n {
                                        sub_bits(
                                            m2[r2 as int][t],
                                            mul_bits(m2[r2 as int][i as int], m2[i as int][t]),
                                        )
                                    } else {
                                        m2[r2 as int][t]
                                    }),
                            decreases n - c2,
                        {
                            let v = d_at(&a, r2, c2);
                            let w = if c2 > i {
                                sub32(v, mul32(mult, d_at(&a, i, c2)))
                            } else {
                                v
                            };
                            nrow.push(w);
                            c2 = c2 + 1;
                        }
                        proof {
                            assert(nrow@ =~= det_elim(m2, i as int, n as int, eps)[r2 as int]);
                        }
                        d_set_row(&mut a, r2, nrow);
                    } else {
                        proof {
                            assert(det_elim(m2, i as int, n as int, eps)[r2 as int] == m2[
                                r2 as int
                            ]);
                        }
                    }
                } else {
                    proof {
                        assert(det_elim(m2, i as int, n as int, eps)[r2 as int] == m2[r2 as int]);
                    }
                }
                r2 = r2 + 1;
            }
            let ghost m3 = det_elim(m2, i as int, n as int, eps);
            proof {
                assert(dview(a) =~~= m3);
                assert forall|t: int| 0 <= t < n implies (#[trigger] dview(a)[t]).len() == n by {
                    assert(m3[t] == det_elim(m2, i as int, n as int, eps)[t]);
                }
                assert(det_from(m0, ans0, i as int, n as int, eps) == det_from(
                    m3,
                    ans,
                    i as int + 1,
                    n as int,
                    eps,
                ));
            }
            i = i + 1;
        }
        ans
    }

    /// Rank by reduction to row echelon form on a private copy, using
    /// exact-zero tests to decide whether a column yields a pivot;
    /// returns the pivot count.
    pub fn rk(&self) -> (r: usize)
        requires
            self.wf(),
        ensures
            r == rk_spec(self@, self.rows as int, self.cols as int),
            r <= self.rows,
    {
        let rows = self.rows;
        let cols = self.cols;
        let mut a = copy_data(&self.data);
        let mut ans: usize = 0;
        proof {
            assert forall|t: int| 0 <= t < rows implies (#[trigger] dview(a)[t]).len() == cols by {
                assert(dview(a)[t] == a@[t]@);
                assert(self@[t] == self.data@[t]@);
            }
            assert forall|t: int| 0 <= t < rows implies #[trigger] dview(a)[t] == self@[t] by {
                assert(dview(a)[t] == a@[t]@);
                assert(self@[t] == self.data@[t]@);
            }
            assert(dview(a) =~= self@);
        }
        let mut j: usize = 0;
        while j < cols
            invariant
                self.wf(),
                rows == self.rows,
                cols == self.cols,
                j <= cols,
                ans <= rows,
                dview(a).len() == rows,
                forall|t: int| 0 <= t < rows ==> (#[trigger] dview(a)[t]).len() == cols,
                rk_from(dview(a), ans as int, j as int, rows as int, cols as int) == rk_spec(
                    self@,
                    self.rows as int,
                    self.cols as int,
                ),
            decreases cols - j,
        {
            let ghost m0 = dview(a);
            let ghost ans0 = ans as int;
            let mut p: usize = ans;
            while p < rows && is_zero32(d_at(&a, p, j))
                invariant
                    ans <= p <= rows,
                    j < cols,
                    dview(a) == m0,
                    dview(a).len() == rows,
                    forall|t: int| 0 <= t < rows ==> (#[trigger] dview(a)[t]).len() == cols,
                    find_nz(m0, ans as int, j as int, rows as int) == find_nz(
                        m0,
                        p as int,
                        j as int,
                        rows as int,
                    ),
                decreases rows - p,
            {
                p = p + 1;
            }
            if p < rows {
                proof {
                    assert(find_nz(m0, p as int, j as int, rows as int) == p);
                }
                let rtop = d_copy_row(&a, ans);
                let rpiv = d_copy_row(&a, p);
                d_set_row(&mut a, ans, rpiv);
                d_set_row(&mut a, p, rtop);
                let ghost m1 = swap_rows(m0, ans as int, p as int);
                proof {
                    assert(dview(a) == m1);
                    assert forall|t: int| 0 <= t < rows implies (#[trigger] m1[t]).len() == cols by {}
                }
                let mut krow = d_copy_row(&a, ans);
                let mut c: usize = j;
                while c < cols
                    invariant
                        j <= c <= cols,
                        j < cols,
                        ans < rows,
                        dview(a) == m1,
                        dview(a).len() == rows,
                        m1.len() == rows,
                        forall|t: int| 0 <= t < rows ==> (#[trigger] m1[t]).len() == cols,
                        krow@.len() == cols,
                        krow@ == rk_norm_row(m1[ans as int], j as int, c as int),
                    decreases cols - c,
                {
                    let ghost before = krow@;
                    let v = div32(krow[c], krow[j]);
                    krow[c] = v;
                    proof {
                        assert(krow@ == before.update(
                            c as int,
                            div_bits(before[c as int], before[j as int]),
                        ));
                        assert(krow@ == rk_norm_row(m1[ans as int], j as int, c as int + 1));
                    }
                    c = c + 1;
                }
                d_set_row(&mut a, ans, krow);
                let ghost m2 = m1.update(
                    ans as int,
                    rk_norm_row(m1[ans as int], j as int, cols as int),
                );
                proof {
                    assert(dview(a) == m2);
                    assert(m2.len() == rows);
                    assert forall|t: int| 0 <= t < rows implies (#[trigger] m2[t]).len() == cols by {}
                }
                let mut r2: usize = ans + 1;
                while r2 < rows
                    invariant
                        ans < rows,
                        ans + 1 <= r2 <= rows,
                        j < cols,
                        dview(a).len() == rows,
                        m2.len() == rows,
                        forall|t: int| 0 <= t < rows ==> (#[trigger] dview(a)[t]).len() == cols,
                        forall|t: int| 0 <= t < rows ==> (#[trigger] m2[t]).len() == cols,
                        forall|t: int|
                            0 <= t < rows ==> #[trigger] dview(a)[t] == (if ans < t < r2 {
                                rk_elim(m2, ans as int, j as int, cols as int)[t]
                            } else {
                                m2[t]
                            }),
                    decreases rows - r2,
                {
                    let multr = d_at(&a, r2, j);
                    let mut nrow: Vec<u32> = Vec::new();
                    let mut c2: usize = 0;
                    while c2 < cols
                        invariant
                            ans < rows,
                            ans < r2 < rows,
                            j < cols,
                            c2 <= cols,
                            dview(a).len() == rows,
                            m2.len() == rows,
                            forall|t: int| 0 <= t < rows ==> (#[trigger] dview(a)[t]).len() == cols,
                            forall|t: int| 0 <= t < rows ==> (#[trigger] m2[t]).len() == cols,
                            dview(a)[r2 as int] == m2[r2 as int],
                            dview(a)[ans as int] == m2[ans as int],
                            multr == m2[r2 as int][j as int],
                            nrow@.len() == c2,
                            forall|t: int|
                                0 <= t < c2 ==> nrow@[t] == (if j <= t < cols {
                                    sub_bits(
                                        m2[r2 as int][t],
                                        mul_bits(m2[ans as int][t], m2[r2 as int][j as int]),
                                    )
                                } else {
                                    m2[r2 as int][t]
                                }),
                        decreases cols - c2,
                    {
                        let v = d_at(&a, r2, c2);
                        let w = if c2 >= j {
                            sub32(v, mul32(d_at(&a, ans, c2), multr))
                        } else {
                            v
                        };
                        nrow.push(w);
                        c2 = c2 + 1;
                    }
                    proof {
                        assert(nrow@ =~= rk_elim(m2, ans as int, j as int, cols as int)[r2 as int]);
                    }
                    d_set_row(&mut a, r2, nrow);
                    r2 = r2 + 1;
                }
                let ghost m3 = rk_elim(m2, ans as int, j as int, cols as int);
                proof {
                    assert(dview(a) =~~= m3);
                    assert forall|t: int| 0 <= t < rows implies (#[trigger] dview(a)[t]).len()
                        == cols by {
                        assert(m3[t] == rk_elim(m2, ans as int, j as int, cols as int)[t]);
                    }
                    assert(rk_from(m0, ans0, j as int, rows as int, cols as int) == rk_from(
                        m3,
                        ans0 + 1,
                        j as int + 1,
                        rows as int,
                        cols as int,
                    ));
                }
                ans = ans + 1;
            } else {
                proof {
                    assert(find_nz(m0, ans as int, j as int, rows as int) == rows);
                    assert(rk_from(m0, ans0, j as int, rows as int, cols as int) == rk_from(
                        m0,
                        ans0,
                        j as int + 1,
                        rows as int,
                        cols as int,
                    ));
                }
            }
            j = j + 1;
        }
        ans
    }
}

} // verus!
