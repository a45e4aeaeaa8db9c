use linsolver::mat::Mat;

fn m(rows: Vec<Vec<f32>>) -> Mat {
    let data: Vec<Vec<u32>> = rows
        .into_iter()
        .map(|r| r.into_iter().map(f32::to_bits).collect())
        .collect();
    Mat::from(data)
}

fn mat_f(a: &Mat) -> Vec<Vec<f32>> {
    a.data
        .iter()
        .map(|r| r.iter().map(|b| f32::from_bits(*b)).collect())
        .collect()
}

#[test]
fn test_mat_ops() {
    let mut mat = m(vec![vec![1.0, 2.0], vec![3.0, 4.0]]);
    mat = mat.scale(2.0f32.to_bits());
    assert_eq!(mat_f(&mat), vec![vec![2.0, 4.0], vec![6.0, 8.0]]);

    let mat2 = m(vec![vec![1.0, 2.0], vec![3.0, 4.0]]);
    assert_eq!(
        mat_f(&mat.mul(mat2).scale(0.5f32.to_bits())),
        vec![vec![7.0, 10.0], vec![15.0, 22.0]]
    );

    let mat1 = m(vec![vec![1.0, 2.0, 3.0]]);
    let mat2 = m(vec![
        vec![1.0, 0.0, 0.0],
        vec![0.0, 1.0, 0.0],
        vec![0.0, 0.0, 1.0],
    ]);
    assert_eq!(mat_f(&mat1.mul(mat2)), vec![vec![1.0, 2.0, 3.0]]);

    let mat1 = m(vec![vec![1.0, 2.0], vec![3.0, 4.0]]);
    let mat2 = m(vec![vec![1.0, 2.0], vec![3.0, 4.0]]);
    assert_eq!(mat_f(&mat1.add(mat2)), vec![vec![2.0, 4.0], vec![6.0, 8.0]]);

    assert_eq!(
        f32::from_bits(m(vec![vec![1.0, 2.0], vec![3.0, 4.0]]).data[0][1]),
        2.0
    );

    let det = f32::from_bits(m(vec![vec![1.0, 2.0], vec![3.0, 4.0]]).det(1e-2f32.to_bits()));
    assert!((det + 2.0).abs() < 1e-2);
    assert_eq!(m(vec![vec![1.0, 2.0], vec![3.0, 4.0]]).rk(), 2);
    assert_eq!(
        m(vec![
            vec![1.0, 1.0, 0.0],
            vec![1.0, 1.0, 0.0],
            vec![0.0, 0.0, 1.0]
        ])
        .rk(),
        2
    );
}

#[test]
fn test_det_row_swap_negates() {
    let eps = 1e-2f32.to_bits();
    let d1 = f32::from_bits(m(vec![vec![1.0, 2.0], vec![3.0, 4.0]]).det(eps));
    let d2 = f32::from_bits(m(vec![vec![3.0, 4.0], vec![1.0, 2.0]]).det(eps));
    assert!((d1 + d2).abs() < 1e-4);
    assert!((d1 + 2.0).abs() < 1e-2);
    assert!((d2 - 2.0).abs() < 1e-2);
}

#[test]
fn test_det_scale_known_case() {
    let eps = 1e-2f32.to_bits();
    let scaled = m(vec![vec![1.0, 2.0], vec![3.0, 4.0]]).scale(2.0f32.to_bits());
    let d = f32::from_bits(scaled.det(eps));
    assert!((d + 8.0).abs() < 1e-2);
}

#[test]
fn test_rank_duplicate_row() {
    let with_dup = m(vec![
        vec![1.0, 1.0, 0.0],
        vec![1.0, 1.0, 0.0],
        vec![0.0, 0.0, 1.0],
    ]);
    let without = m(vec![vec![1.0, 1.0, 0.0], vec![0.0, 0.0, 1.0]]);
    assert_eq!(with_dup.rk(), without.rk());
    assert_eq!(without.rk(), 2);
}

#[test]
fn test_singular_det_is_zero() {
    let eps = 1e-4f32.to_bits();
    let d = f32::from_bits(m(vec![vec![1.0, 2.0], vec![2.0, 4.0]]).det(eps));
    assert_eq!(d, 0.0);
}

#[test]
fn test_empty_matrix() {
    let a = m(vec![]);
    assert_eq!(a.rows, 0);
    assert_eq!(a.cols, 0);
    assert_eq!(a.size(), 0);
    assert_eq!(a.rk(), 0);
    assert_eq!(f32::from_bits(a.det(1e-4f32.to_bits())), 1.0);
}

#[test]
fn test_new_fills_cells() {
    let a = Mat::new(7.5f32.to_bits(), 2, 3);
    assert_eq!(a.rows, 2);
    assert_eq!(a.cols, 3);
    assert_eq!(a.size(), 6);
    assert_eq!(mat_f(&a), vec![vec![7.5, 7.5, 7.5], vec![7.5, 7.5, 7.5]]);
}
