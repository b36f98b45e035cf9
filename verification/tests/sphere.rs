use test_functions::sphere;
use test_functions::sphere_derivative;

#[test]
fn test_sphere_optimum() {
    assert_eq!(sphere(&vec![0, 0]), 0);
}

#[test]
fn test_sphere_values() {
    assert_eq!(sphere(&vec![3, -4]), 25);
    assert_eq!(sphere(&vec![]), 0);
    assert_eq!(sphere(&vec![5]), 25);
}

#[test]
fn test_sphere_largest_magnitude() {
    assert_eq!(
        sphere(&vec![1_000_000_000, -1_000_000_000]),
        2_000_000_000_000_000_000,
    );
}

#[test]
fn test_sphere_optimum_any_length() {
    for n in 0..9 {
        assert_eq!(sphere(&vec![0; n]), 0);
    }
}

#[test]
fn test_sphere_derivative_values() {
    assert_eq!(sphere_derivative(&vec![3, -4, 0]), vec![6, -8, 0]);
    assert_eq!(sphere_derivative(&vec![]), vec![]);
}

#[test]
fn test_sphere_derivative_optimum() {
    let res = sphere_derivative(&vec![0; 6]);
    assert_eq!(res.len(), 6);
    for elem in &res {
        assert_eq!(*elem, 0);
    }
}

#[test]
fn test_sphere_idempotent() {
    assert_eq!(sphere(&vec![7, -2, 9]), sphere(&vec![7, -2, 9]));
    assert_eq!(sphere_derivative(&vec![7, -2, 9]), sphere_derivative(&vec![7, -2, 9]));
}
