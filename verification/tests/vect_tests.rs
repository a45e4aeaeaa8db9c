use linsolver::vect::Vect;

fn v(x: Vec<f32>) -> Vect {
    Vect::new(x.into_iter().map(f32::to_bits).collect())
}

fn v_f(x: &Vect) -> Vec<f32> {
    x.data.iter().map(|b| f32::from_bits(*b)).collect()
}

#[test]
fn test_vect_add_truncates() {
    let a = v(vec![1.0, 2.0, 3.0]);
    let b = v(vec![10.0, 20.0]);
    assert_eq!(v_f(&a.add(b)), vec![11.0, 22.0]);
}

#[test]
fn test_vect_scale() {
    let a = v(vec![1.0, -2.0, 0.5]);
    assert_eq!(v_f(&a.scale(4.0f32.to_bits())), vec![4.0, -8.0, 2.0]);
}

#[test]
fn test_vect_dot() {
    let a = v(vec![1.0, 2.0, 3.0]);
    let b = v(vec![4.0, 5.0, 6.0]);
    assert_eq!(f32::from_bits(a.dot(b)), 32.0);
}
