//! The iterative solver and its pre-checks.
//!
//! Before iterating, the coefficient matrix is checked for rank
//! consistency against the comparison matrix (its rows with the
//! right-hand side appended as one more row), for singularity, and for a
//! column order that makes it row-dominant; the fixed-point recurrence
//! then runs until the tolerance test passes or the iteration cap is
//! reached.

use crate::fbits::{
    abs32, abs_bits, add32, add_bits, div32, div_bits, is_zero32, is_zero_bits, lt32, lt_bits,
    mul32, mul_bits, sub32, sub_bits, F_ONE, F_ZERO,
};
use crate::mat::{copy_data, copy_row, det_spec, filled_row, rk_spec, Mat};
use crate::models::Response;
use itertools::Itertools;
use vstd::prelude::*;

verus! {

/// Iteration cap: the sweep count after which the solve fails.
pub const M: u32 = 100;

/// The error text when no column order achieves dominance.
pub open spec fn msg_not_dominant() -> Seq<char> {
    "Matrix cannot be diagonally dominant"@
}

/// The error text when the rank-consistency check fails.
pub open spec fn msg_inconsistent() -> Seq<char> {
    "Kronecker-Capelli's condition is not satisfied"@
}

/// The error text when the determinant is zero under the tolerance.
pub open spec fn msg_singular() -> Seq<char> {
    "Matrix is singular"@
}

/// The error text when the iteration cap is exceeded; it names the cap.
pub open spec fn msg_no_convergence() -> Seq<char> {
    "Failed to converge in 100 iterations"@
}

/// Elementwise absolute difference of two iterates.
pub open spec fn acc_spec(x: Seq<u32>, y: Seq<u32>) -> Seq<u32> {
    Seq::new(x.len(), |i: int| abs_bits(sub_bits(x[i], y[i])))
}

/// The tolerance test: every component of the absolute difference is
/// strictly below `eps`.
pub open spec fn conv_spec(x: Seq<u32>, y: Seq<u32>, eps: u32) -> bool {
    forall|i: int| 0 <= i < x.len() ==> lt_bits(#[trigger] acc_spec(x, y)[i], eps)
}

/// Running off-diagonal row sum: the entries of row `i` among the first
/// `upto` columns, the diagonal position skipped, summed in index order
/// onto a zero start.
pub open spec fn row_sum_off(m: Seq<Seq<u32>>, i: int, upto: int) -> u32
    decreases upto,
{
    if upto <= 0 {
        F_ZERO
    } else {
        let p = row_sum_off(m, i, upto - 1);
        if upto - 1 == i {
            p
        } else {
            add_bits(p, m[i][upto - 1])
        }
    }
}

/// Row dominance as the search tests it: in no row does the raw
/// (signed) off-diagonal sum exceed the diagonal entry.
pub open spec fn dominant_spec(m: Seq<Seq<u32>>, n: int) -> bool {
    forall|i: int| 0 <= i < n ==> !lt_bits(m[i][i], #[trigger] row_sum_off(m, i, n))
}

/// The identity column-index sequence of length `n`.
pub open spec fn id_seq(n: int) -> Seq<usize> {
    Seq::new(n as nat, |i: int| i as usize)
}

/// What itertools' `permutations` yields for a given input sequence, in
/// its deterministic enumeration order.
pub uninterp spec fn perms_of(v: Seq<usize>) -> Seq<Seq<usize>>;

/// Relies on itertools' `permutations` over the whole input: it yields
/// every rearrangement of the input (and nothing else), in a
/// deterministic order that is a function of the input sequence alone.
#[verifier::external_body]
fn all_permutations(v: &Vec<usize>) -> (r: Vec<Vec<usize>>)
    ensures
        r@.map_values(|q: Vec<usize>| q@) == perms_of(v@),
        forall|t: int|
            0 <= t < r@.len() ==> (#[trigger] r@[t])@.to_multiset() == v@.to_multiset(),
        forall|p: Seq<usize>|
            #![trigger p.to_multiset()]
            p.to_multiset() == v@.to_multiset() ==> exists|t: int|
                0 <= t < r@.len() && (#[trigger] r@[t])@ == p,
{
    v.clone().into_iter().permutations(v.len()).collect()
}

/// A sequence with the same contents as the identity index sequence is
/// made of indices below `n`.
proof fn lemma_perm_elems_bounded(s: Seq<usize>, n: int)
    requires
        n >= 0,
        s.to_multiset() == id_seq(n).to_multiset(),
    ensures
        s.len() == n,
        forall|j: int| 0 <= j < s.len() ==> (#[trigger] s[j]) < n,
{
    broadcast use vstd::seq_lib::group_to_multiset_ensures;

    assert(s.to_multiset().len() == s.len());
    assert(id_seq(n).to_multiset().len() == id_seq(n).len());
    assert forall|j: int| 0 <= j < s.len() implies (#[trigger] s[j]) < n by {
        assert(s.to_multiset().contains(s[j]));
        assert(id_seq(n).to_multiset().contains(s[j]));
        assert(id_seq(n).contains(s[j]));
        let k = choose|k: int| 0 <= k < id_seq(n).len() && id_seq(n)[k] == s[j];
        assert(id_seq(n)[k] == k as usize);
    }
}

/// One row under the column reordering as the search applies it: for
/// each position `j` in the first half of the column range, in index
/// order, the cells at positions `s[j]` and `j` are exchanged.
pub open spec fn swap_chain(row: Seq<u32>, s: Seq<usize>, h: int) -> Seq<u32>
    decreases h,
{
    if h <= 0 {
        row
    } else {
        let r1 = swap_chain(row, s, h - 1);
        let p = s[h - 1] as int;
        let q = h - 1;
        r1.update(p, r1[q]).update(q, r1[p])
    }
}

/// The matrix under one candidate column reordering: every row gets the
/// same half-range swap chain.
pub open spec fn apply_perm(m: Seq<Seq<u32>>, s: Seq<usize>, n: int) -> Seq<Seq<u32>> {
    Seq::new(m.len(), |i: int| swap_chain(m[i], s, (n + 1) / 2))
}

/// The matrix after the first `t` candidate reorderings of the
/// enumeration `ps` have been applied, one on top of the other.
pub open spec fn permute_states(m: Seq<Seq<u32>>, ps: Seq<Seq<usize>>, t: int, n: int) -> Seq<
    Seq<u32>,
>
    decreases t,
{
    if t <= 0 {
        m
    } else {
        apply_perm(permute_states(m, ps, t - 1, n), ps[t - 1], n)
    }
}

/// Whether some prefix of the enumeration, applied cumulatively, reaches
/// a row-dominant matrix.
pub open spec fn some_prefix_dominant(m: Seq<Seq<u32>>, ps: Seq<Seq<usize>>, n: int) -> bool {
    exists|t: int|
        1 <= t <= ps.len() && dominant_spec(#[trigger] permute_states(m, ps, t, n), n)
}

/// The state the search leaves behind on success: the matrix after the
/// earliest prefix of the enumeration that reaches dominance.
pub open spec fn permute_ok_outcome(m0: Seq<Seq<u32>>, mf: Seq<Seq<u32>>, n: int) -> bool {
    let ps = perms_of(id_seq(n));
    exists|t: int|
        {
            &&& 1 <= t <= ps.len()
            &&& mf == #[trigger] permute_states(m0, ps, t, n)
            &&& dominant_spec(mf, n)
            &&& forall|t2: int|
                1 <= t2 < t ==> !dominant_spec(#[trigger] permute_states(m0, ps, t2, n), n)
        }
}

/// Elementwise absolute difference of two iterates of equal length.
pub fn accuracy(x: &Vec<u32>, y: &Vec<u32>) -> (r: Vec<u32>)
    requires
        x@.len() == y@.len(),
    ensures
        r@ == acc_spec(x@, y@),
{
    let mut ans: Vec<u32> = Vec::new();
    let mut i: usize = 0;
    while i < x.len()
        invariant
            x@.len() == y@.len(),
            i <= x@.len(),
            ans@.len() == i,
            forall|t: int| 0 <= t < i ==> ans@[t] == abs_bits(sub_bits(x@[t], y@[t])),
        decreases x@.len() - i,
    {
        let v = abs32(sub32(x[i], y[i]));
        ans.push(v);
        i = i + 1;
    }
    proof {
        assert(ans@ =~= acc_spec(x@, y@));
    }
    ans
}

/// The tolerance test: true when every component of the absolute
/// difference is strictly below `eps`.
pub fn converges(x: &Vec<u32>, y: &Vec<u32>, eps: u32) -> (r: bool)
    requires
        x@.len() == y@.len(),
    ensures
        r == conv_spec(x@, y@, eps),
{
    let acc = accuracy(x, y);
    let mut i: usize = 0;
    while i < acc.len()
        invariant
            acc@ == acc_spec(x@, y@),
            acc@.len() == x@.len(),
            i <= acc@.len(),
            forall|t: int| 0 <= t < i ==> lt_bits(#[trigger] acc_spec(x@, y@)[t], eps),
        decreases acc@.len() - i,
    {
        if !lt32(acc[i], eps) {
            return false;
        }
        i = i + 1;
    }
    true
}

/// The dominance test on a square matrix: in every row, the raw
/// off-diagonal sum must not exceed the diagonal entry.
pub fn dominant(a: &Mat) -> (r: bool)
    requires
        a.wf(),
        a.rows == a.cols,
    ensures
        r == dominant_spec(a@, a.cols as int),
{
    let n = a.cols;
    let mut i: usize = 0;
    while i < n
        invariant
            a.wf(),
            n == a.cols,
            n == a.rows,
            i <= n,
            forall|t: int| 0 <= t < i ==> !lt_bits(a@[t][t], #[trigger] row_sum_off(a@, t, n as int)),
        decreases n - i,
    {
        let mut sum: u32 = F_ZERO;
        let mut j: usize = 0;
        while j < n
            invariant
                a.wf(),
                n == a.cols,
                n == a.rows,
                i < n,
                j <= n,
                sum == row_sum_off(a@, i as int, j as int),
            decreases n - j,
        {
            if i != j {
                sum = add32(sum, a.at(i, j));
            }
            j = j + 1;
        }
        if lt32(a.at(i, i), sum) {
            proof {
                assert(!dominant_spec(a@, n as int));
            }
            return false;
        }
        i = i + 1;
    }
    true
}

/// Searches the enumeration of column orders for one that makes the
/// matrix row-dominant, applying each candidate's half-range swaps in
/// place; stops at the first state that passes the test, and otherwise
/// fails, leaving the matrix in the state of the last attempted
/// reordering.
pub fn permute(a: &mut Mat) -> (r: Result<(), String>)
    requires
        old(a).wf(),
        old(a).rows == old(a).cols,
        old(a).cols < usize::MAX,
    ensures
        final(a).wf(),
        final(a).rows == old(a).rows,
        final(a).cols == old(a).cols,
        ({
            let n = old(a).cols as int;
            let ps = perms_of(id_seq(n));
            &&& (r is Ok <==> some_prefix_dominant(old(a)@, ps, n))
            &&& (r is Ok ==> permute_ok_outcome(old(a)@, final(a)@, n))
            &&& (r matches Err(m) ==> m@ == msg_not_dominant() && final(a)@ == permute_states(
                old(a)@,
                ps,
                ps.len() as int,
                n,
            ))
        }),
{
    let n = a.rows;
    let mut id: Vec<usize> = Vec::new();
    let mut t: usize = 0;
    while t < n
        invariant
            t <= n,
            id@.len() == t,
            forall|q: int| 0 <= q < t ==> id@[q] == q as usize,
        decreases n - t,
    {
        id.push(t);
        t = t + 1;
    }
    proof {
        assert(id@ =~= id_seq(n as int));
    }
    let ps = all_permutations(&id);
    let ghost psv = perms_of(id_seq(n as int));
    proof {
        assert(ps@.map_values(|q: Vec<usize>| q@) == psv);
        assert(ps@.len() == psv.len());
    }
    let mut t: usize = 0;
    while t < ps.len()
        invariant
            a.wf(),
            a.rows == old(a).rows,
            a.cols == old(a).cols,
            n == a.rows,
            n == a.cols,
            n < usize::MAX,
            t <= ps@.len(),
            psv == perms_of(id_seq(n as int)),
            psv.len() == ps@.len(),
            ps@.map_values(|q: Vec<usize>| q@) == psv,
            forall|q: int|
                0 <= q < ps@.len() ==> (#[trigger] ps@[q])@.to_multiset() == id_seq(
                    n as int,
                ).to_multiset(),
            a@ == permute_states(old(a)@, psv, t as int, n as int),
            forall|t2: int|
                1 <= t2 <= t ==> !dominant_spec(
                    #[trigger] permute_states(old(a)@, psv, t2, n as int),
                    n as int,
                ),
        decreases ps@.len() - t,
    {
        let ghost prev = a@;
        let s = &ps[t];
        proof {
            assert(s@ == psv[t as int]);
            lemma_perm_elems_bounded(s@, n as int);
        }
        let h = (n + 1) / 2;
        let mut i: usize = 0;
        while i < n
            invariant
                a.wf(),
                a.rows == old(a).rows,
                a.cols == old(a).cols,
                n == a.rows,
                n == a.cols,
                n < usize::MAX,
                h == (n + 1) / 2,
                i <= n,
                s@.len() == n,
                forall|q: int| 0 <= q < n ==> (#[trigger] s@[q]) < n,
                prev.len() == n,
                forall|q: int| 0 <= q < n ==> (#[trigger] prev[q]).len() == n,
                forall|q: int|
                    0 <= q < n ==> #[trigger] a@[q] == (if q < i {
                        swap_chain(prev[q], s@, h as int)
                    } else {
                        prev[q]
                    }),
            decreases n - i,
        {
            let mut row = copy_row_of(a, i);
            let mut jj: usize = 0;
            while jj < h
                invariant
                    jj <= h,
                    h == (n + 1) / 2,
                    i < n,
                    n < usize::MAX,
                    s@.len() == n,
                    forall|q: int| 0 <= q < n ==> (#[trigger] s@[q]) < n,
                    prev.len() == n,
                    (#[trigger] prev[i as int]).len() == n,
                    row@.len() == n,
                    row@ == swap_chain(prev[i as int], s@, jj as int),
                decreases h - jj,
            {
                let ghost before = row@;
                let sj = s[jj];
                let tmp = row[sj];
                let vj = row[jj];
                row[sj] = vj;
                row[jj] = tmp;
                proof {
                    assert(row@ == before.update(sj as int, before[jj as int]).update(
                        jj as int,
                        before[sj as int],
                    ));
                    assert(row@ == swap_chain(prev[i as int], s@, jj as int + 1));
                }
                jj = jj + 1;
            }
            set_row_of(a, i, row);
            i = i + 1;
        }
        proof {
            assert(a@ =~~= apply_perm(prev, s@, n as int));
            assert(a@ == permute_states(old(a)@, psv, t as int + 1, n as int));
        }
        if dominant(a) {
            proof {
                assert(dominant_spec(permute_states(old(a)@, psv, t as int + 1, n as int),
                    n as int));
                assert(some_prefix_dominant(old(a)@, psv, n as int));
                assert(permute_ok_outcome(old(a)@, a@, n as int));
            }
            return Ok(());
        }
        t = t + 1;
    }
    proof {
        assert(!some_prefix_dominant(old(a)@, psv, n as int));
    }
    Err("Matrix cannot be diagonally dominant".to_owned())
}

/// Running off-diagonal accumulation of one sweep row: the first `upto`
/// terms `m[i][j] * x[j]`, the diagonal skipped, summed in index order
/// onto a zero start.
pub open spec fn sweep_term(m: Seq<Seq<u32>>, x: Seq<u32>, i: int, upto: int) -> u32
    decreases upto,
{
    if upto <= 0 {
        F_ZERO
    } else {
        let p = sweep_term(m, x, i, upto - 1);
        if upto - 1 == i {
            p
        } else {
            add_bits(p, mul_bits(m[i][upto - 1], x[upto - 1]))
        }
    }
}

/// One sweep of the recurrence: every component is recomputed from the
/// same snapshot `x` of the previous sweep.
pub open spec fn next_iter(m: Seq<Seq<u32>>, b: Seq<u32>, x: Seq<u32>, n: int) -> Seq<u32> {
    Seq::new(n as nat, |i: int| div_bits(sub_bits(b[i], sweep_term(m, x, i, n)), m[i][i]))
}

/// The all-ones start vector of the iteration.
pub open spec fn ones(n: int) -> Seq<u32> {
    Seq::new(n as nat, |i: int| F_ONE)
}

/// The iterate after `k` sweeps, starting from all ones.
pub open spec fn iter_k(m: Seq<Seq<u32>>, b: Seq<u32>, n: int, k: int) -> Seq<u32>
    decreases k,
{
    if k <= 0 {
        ones(n)
    } else {
        next_iter(m, b, iter_k(m, b, n, k - 1), n)
    }
}

/// Whether sweep `k` passes the tolerance test against its snapshot.
pub open spec fn sweep_converged(m: Seq<Seq<u32>>, b: Seq<u32>, eps: u32, n: int, k: int) -> bool {
    conv_spec(iter_k(m, b, n, k - 1), iter_k(m, b, n, k), eps)
}

/// The report the iteration owes on success: `iters` is the earliest
/// sweep that passes the tolerance test, the solution is the snapshot
/// taken at the start of that sweep (not the freshly computed iterate),
/// the accuracy is the elementwise absolute difference of the two, and
/// the error text is empty.
pub open spec fn ok_report(m: Seq<Seq<u32>>, b: Seq<u32>, eps: u32, n: int, rep: Response) -> bool {
    let k = rep.iters as int;
    &&& 1 <= k <= M
    &&& sweep_converged(m, b, eps, n, k)
    &&& forall|k2: int| 1 <= k2 < k ==> !sweep_converged(m, b, eps, n, k2)
    &&& rep.x@ == iter_k(m, b, n, k - 1)
    &&& rep.acc@ == acc_spec(iter_k(m, b, n, k - 1), iter_k(m, b, n, k))
    &&& rep.eps == eps
    &&& rep.error@ == Seq::<char>::empty()
}

/// Runs the fixed-point recurrence from the all-ones start: each sweep
/// recomputes every component from the previous sweep's snapshot, and
/// iteration stops at the first sweep whose elementwise change is below
/// `eps`, or fails once the cap is exceeded, with a message naming it.
pub fn process(a: &Mat, b: &Vec<u32>, eps: u32) -> (r: Result<Response, String>)
    requires
        a.wf(),
        a.rows == a.cols,
        b@.len() == a.rows,
    ensures
        ({
            let n = a.rows as int;
            &&& (r is Ok <==> exists|k: int|
                1 <= k <= M && #[trigger] sweep_converged(a@, b@, eps, n, k))
            &&& (r matches Ok(rep) ==> ok_report(a@, b@, eps, n, rep))
            &&& (r matches Err(m) ==> m@ == msg_no_convergence() && forall|k: int|
                1 <= k <= M ==> !#[trigger] sweep_converged(a@, b@, eps, n, k))
        }),
{
    let n = a.rows;
    let mut y: Vec<u32> = filled_row(F_ONE, n);
    proof {
        assert(y@ =~= ones(n as int));
    }
    let mut k: u32 = 1;
    while k <= M
        invariant
            a.wf(),
            n == a.rows,
            n == a.cols,
            b@.len() == n,
            1 <= k <= M + 1,
            y@ == iter_k(a@, b@, n as int, k as int - 1),
            y@.len() == n,
            forall|k2: int|
                1 <= k2 < k ==> !#[trigger] sweep_converged(a@, b@, eps, n as int, k2),
        decreases M + 1 - k,
    {
        let x = copy_row(&y);
        let mut ynew: Vec<u32> = Vec::new();
        let mut i: usize = 0;
        while i < n
            invariant
                a.wf(),
                n == a.rows,
                n == a.cols,
                b@.len() == n,
                i <= n,
                x@.len() == n,
                ynew@.len() == i,
                forall|t: int|
                    0 <= t < i ==> ynew@[t] == div_bits(
                        sub_bits(b@[t], sweep_term(a@, x@, t, n as int)),
                        a@[t][t],
                    ),
            decreases n - i,
        {
            let mut var: u32 = F_ZERO;
            let mut j: usize = 0;
            while j < n
                invariant
                    a.wf(),
                    n == a.rows,
                    n == a.cols,
                    i < n,
                    j <= n,
                    x@.len() == n,
                    var == sweep_term(a@, x@, i as int, j as int),
                decreases n - j,
            {
                if i != j {
                    var = add32(var, mul32(a.at(i, j), x[j]));
                }
                j = j + 1;
            }
            let v = div32(sub32(b[i], var), a.at(i, i));
            ynew.push(v);
            i = i + 1;
        }
        y = ynew;
        proof {
            assert(y@ =~= next_iter(a@, b@, x@, n as int));
        }
        if converges(&x, &y, eps) {
            proof {
                assert(y@ == iter_k(a@, b@, n as int, k as int));
                assert(sweep_converged(a@, b@, eps, n as int, k as int));
            }
            let acc = accuracy(&x, &y);
            let rep = Response { x, acc, eps, iters: k, error: "".to_owned() };
            proof {
                reveal_strlit("");
                assert(rep.error@ =~= Seq::<char>::empty());
            }
            return Ok(rep);
        }
        k = k + 1;
    }
    Err("Failed to converge in 100 iterations".to_owned())
}

/// The go/no-go gate before iteration: the rank of the matrix must equal
/// the rank of the comparison matrix (the rows with the right-hand side
/// appended as one more row), the determinant must not be zero under
/// `eps`, and some column order must make the matrix row-dominant; the
/// dominance search may reorder the columns in place.
pub fn conditions(a: &mut Mat, b: &Vec<u32>, eps: u32) -> (r: Result<(), String>)
    requires
        old(a).wf(),
        old(a).rows == old(a).cols,
        b@.len() == old(a).rows,
        old(a).cols < usize::MAX,
    ensures
        final(a).wf(),
        final(a).rows == old(a).rows,
        final(a).cols == old(a).cols,
        ({
            let n = old(a).rows as int;
            let rka = rk_spec(old(a)@, n, n);
            let rkab = rk_spec(old(a)@.push(b@), n + 1, n);
            let ps = perms_of(id_seq(n));
            &&& (rka != rkab ==> (r matches Err(m) && m@ == msg_inconsistent() && final(a)@
                == old(a)@))
            &&& (rka == rkab && is_zero_bits(det_spec(old(a)@, n, eps)) ==> (r matches Err(m)
                && m@ == msg_singular() && final(a)@ == old(a)@))
            &&& (rka == rkab && !is_zero_bits(det_spec(old(a)@, n, eps)) ==> {
                &&& (r is Ok <==> some_prefix_dominant(old(a)@, ps, n))
                &&& (r is Ok ==> permute_ok_outcome(old(a)@, final(a)@, n))
                &&& (r matches Err(m) ==> m@ == msg_not_dominant() && final(a)@ == permute_states(
                    old(a)@,
                    ps,
                    ps.len() as int,
                    n,
                ))
            })
        }),
{
    let n = a.rows;
    let mut vc = copy_data(&a.data);
    let brow = copy_row(b);
    vc.push(brow);
    proof {
        assert forall|t: int| 0 <= t < vc@.len() implies (#[trigger] vc@[t])@.len() == n by {
            if t < n {
                assert(vc@[t]@ == a.data@[t]@);
                assert(a@[t] == a.data@[t]@);
            } else {
                assert(vc@[t]@ == b@);
            }
        }
        assert(vc@[0]@.len() == n);
    }
    let ab = Mat::from(vc);
    proof {
        assert forall|t: int| 0 <= t < ab@.len() implies #[trigger] ab@[t] == old(a)@.push(b@)[t]
            by {
            assert(ab@[t] == vc@[t]@);
            if t < n {
                assert(vc@[t]@ == a.data@[t]@);
                assert(a@[t] == a.data@[t]@);
            } else {
                assert(vc@[t]@ == b@);
            }
        }
        assert(ab@ =~= a@.push(b@));
    }
    let rka = a.rk();
    let rkab = ab.rk();
    if rka != rkab {
        return Err("Kronecker-Capelli's condition is not satisfied".to_owned());
    }
    let d = a.det(eps);
    if is_zero32(d) {
        return Err("Matrix is singular".to_owned());
    }
    permute(a)
}

/// The full pipeline: runs the pre-checks (which may reorder the
/// matrix's columns in place) and then the fixed-point iteration on the
/// reordered matrix, returning the solution report or the first failure.
pub fn gauss_seidel(a: &mut Mat, b: &Vec<u32>, eps: u32) -> (r: Result<Response, String>)
    requires
        old(a).wf(),
        old(a).rows == old(a).cols,
        b@.len() == old(a).rows,
        old(a).cols < usize::MAX,
    ensures
        final(a).wf(),
        final(a).rows == old(a).rows,
        final(a).cols == old(a).cols,
        ({
            let n = old(a).rows as int;
            let rka = rk_spec(old(a)@, n, n);
            let rkab = rk_spec(old(a)@.push(b@), n + 1, n);
            let ps = perms_of(id_seq(n));
            &&& (rka != rkab ==> (r matches Err(m) && m@ == msg_inconsistent() && final(a)@
                == old(a)@))
            &&& (rka == rkab && is_zero_bits(det_spec(old(a)@, n, eps)) ==> (r matches Err(m)
                && m@ == msg_singular() && final(a)@ == old(a)@))
            &&& (rka == rkab && !is_zero_bits(det_spec(old(a)@, n, eps))
                && !some_prefix_dominant(old(a)@, ps, n) ==> (r matches Err(m) && m@
                == msg_not_dominant() && final(a)@ == permute_states(
                old(a)@,
                ps,
                ps.len() as int,
                n,
            )))
            &&& (rka == rkab && !is_zero_bits(det_spec(old(a)@, n, eps)) && some_prefix_dominant(
                old(a)@,
                ps,
                n,
            ) ==> {
                &&& permute_ok_outcome(old(a)@, final(a)@, n)
                &&& (r is Ok <==> exists|k: int|
                    1 <= k <= M && #[trigger] sweep_converged(final(a)@, b@, eps, n, k))
                &&& (r matches Ok(rep) ==> ok_report(final(a)@, b@, eps, n, rep))
                &&& (r matches Err(m) ==> m@ == msg_no_convergence() && forall|k: int|
                    1 <= k <= M ==> !#[trigger] sweep_converged(final(a)@, b@, eps, n, k))
            })
        }),
{
    let c = conditions(a, b, eps);
    match c {
        Ok(()) => process(&*a, b, eps),
        Err(msg) => Err(msg),
    }
}

/// Copies one row of the matrix.
fn copy_row_of(a: &Mat, i: usize) -> (r: Vec<u32>)
    requires
        a.wf(),
        i < a.rows,
    ensures
        r@ == a@[i as int],
{
    proof {
        assert(a@[i as int] == a.data@[i as int]@);
    }
    copy_row(&a.data[i])
}

/// Replaces one row of the matrix, keeping the shape.
fn set_row_of(a: &mut Mat, i: usize, row: Vec<u32>)
    requires
        old(a).wf(),
        i < old(a).rows,
        row@.len() == old(a).cols,
    ensures
        final(a).wf(),
        final(a).rows == old(a).rows,
        final(a).cols == old(a).cols,
        final(a)@ == old(a)@.update(i as int, row@),
{
    let ghost pre = a@;
    a.data[i] = row;
    proof {
        assert forall|q: int| 0 <= q < pre.len() implies a@[q] == pre.update(i as int, row@)[q] by {
            assert(a@[q] == a.data@[q]@);
        }
        assert(a@ =~= pre.update(i as int, row@));
    }
}

} // verus!
