use linsolver::eq_solver::{accuracy, conditions, converges, dominant, gauss_seidel, permute};
use linsolver::mat::Mat;

fn m(rows: Vec<Vec<f32>>) -> Mat {
    let data: Vec<Vec<u32>> = rows
        .into_iter()
        .map(|r| r.into_iter().map(f32::to_bits).collect())
        .collect();
    Mat::from(data)
}

fn v(x: Vec<f32>) -> Vec<u32> {
    x.into_iter().map(f32::to_bits).collect()
}

fn v_f(x: &Vec<u32>) -> Vec<f32> {
    x.iter().map(|b| f32::from_bits(*b)).collect()
}

#[test]
fn test_solver() {
    let mut a = m(vec![
        vec![2.0, 2.0, 10.0],
        vec![10.0, 1.0, 1.0],
        vec![2.0, 10.0, 1.0],
    ]);
    let b = v(vec![14.0, 12.0, 13.0]);

    match gauss_seidel(&mut a, &b, 1e-4f32.to_bits()) {
        Ok(rep) => {
            assert_eq!(v_f(&rep.x), vec![1.0, 1.0, 1.0]);
            assert_eq!(v_f(&rep.acc), vec![0.0, 0.0, 0.0]);
            assert_eq!(f32::from_bits(rep.eps), 1e-4);
            assert_eq!(rep.iters, 1);
        }
        Err(msg) => panic!("{}", msg),
    }
}

#[test]
fn test_solver_success_has_empty_error() {
    let mut a = m(vec![
        vec![2.0, 2.0, 10.0],
        vec![10.0, 1.0, 1.0],
        vec![2.0, 10.0, 1.0],
    ]);
    let b = v(vec![14.0, 12.0, 13.0]);
    let rep = gauss_seidel(&mut a, &b, 1e-4f32.to_bits()).unwrap();
    assert_eq!(rep.error, "");
}

#[test]
fn test_consistency_error() {
    let mut a = m(vec![vec![1.0, 1.0], vec![1.0, 1.0]]);
    let b = v(vec![1.0, 2.0]);
    let r = gauss_seidel(&mut a, &b, 1e-4f32.to_bits());
    assert_eq!(
        r.err().unwrap(),
        "Kronecker-Capelli's condition is not satisfied"
    );
}

#[test]
fn test_singular_error() {
    let mut a = m(vec![vec![1.0, 2.0], vec![2.0, 4.0]]);
    let b = v(vec![1.0, 2.0]);
    let r = gauss_seidel(&mut a, &b, 1e-4f32.to_bits());
    assert_eq!(r.err().unwrap(), "Matrix is singular");
}

#[test]
fn test_not_dominant_error() {
    let mut a = m(vec![vec![1.0, 2.0], vec![0.0, 1.0]]);
    let b = v(vec![1.0, 1.0]);
    let r = gauss_seidel(&mut a, &b, 1e-4f32.to_bits());
    assert_eq!(r.err().unwrap(), "Matrix cannot be diagonally dominant");
}

#[test]
fn test_permute_fails_on_never_dominant() {
    let mut a = m(vec![vec![0.0, 1.0], vec![0.0, 1.0]]);
    let r = permute(&mut a);
    assert_eq!(r.err().unwrap(), "Matrix cannot be diagonally dominant");
}

#[test]
fn test_permute_finds_reorder() {
    let mut a = m(vec![
        vec![2.0, 2.0, 10.0],
        vec![10.0, 1.0, 1.0],
        vec![2.0, 10.0, 1.0],
    ]);
    assert!(permute(&mut a).is_ok());
    assert!(dominant(&a));
}

#[test]
fn test_convergence_cap_error() {
    let mut a = m(vec![vec![1.0, -10.0], vec![-10.0, 1.0]]);
    let b = v(vec![1.0, 1.0]);
    let r = gauss_seidel(&mut a, &b, 1e-4f32.to_bits());
    assert_eq!(r.err().unwrap(), "Failed to converge in 100 iterations");
}

#[test]
fn test_conditions_checks_rank_first() {
    let mut a = m(vec![vec![1.0, 1.0], vec![1.0, 1.0]]);
    let b = v(vec![1.0, 2.0]);
    let r = conditions(&mut a, &b, 1e-4f32.to_bits());
    assert_eq!(
        r.err().unwrap(),
        "Kronecker-Capelli's condition is not satisfied"
    );
}

#[test]
fn test_accuracy_values() {
    let x = v(vec![1.0, 5.0, -2.0]);
    let y = v(vec![3.0, 5.0, 1.0]);
    assert_eq!(v_f(&accuracy(&x, &y)), vec![2.0, 0.0, 3.0]);
}

#[test]
fn test_converges_threshold() {
    let x = v(vec![1.0, 2.0]);
    let y = v(vec![1.05, 2.0]);
    assert!(converges(&x, &y, 0.1f32.to_bits()));
    assert!(!converges(&x, &y, 0.01f32.to_bits()));
}

#[test]
fn test_dominant_signed_sums() {
    assert!(dominant(&m(vec![vec![5.0, 1.0], vec![1.0, 5.0]])));
    assert!(!dominant(&m(vec![vec![0.0, 1.0], vec![0.0, 1.0]])));
    assert!(dominant(&m(vec![vec![0.0, -3.0], vec![-3.0, 0.0]])));
}

#[test]
fn test_solver_one_by_one() {
    let mut a = m(vec![vec![2.0]]);
    let b = v(vec![4.0]);
    let rep = gauss_seidel(&mut a, &b, 1e-4f32.to_bits()).unwrap();
    assert_eq!(v_f(&rep.x), vec![2.0]);
    assert_eq!(v_f(&rep.acc), vec![0.0]);
    assert_eq!(rep.iters, 2);
}

#[test]
fn test_solver_empty_system() {
    let mut a = m(vec![]);
    let b = v(vec![]);
    let rep = gauss_seidel(&mut a, &b, 1e-4f32.to_bits()).unwrap();
    assert_eq!(rep.x.len(), 0);
    assert_eq!(rep.acc.len(), 0);
    assert_eq!(rep.iters, 1);
    assert_eq!(rep.error, "");
}
