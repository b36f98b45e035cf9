use test_functions::rosenbrock;
use test_functions::rosenbrock_2d;
use test_functions::rosenbrock_2d_derivative;
use test_functions::rosenbrock_2d_hessian;

#[test]
fn test_rosenbrock_optimum_2d() {
    assert_eq!(rosenbrock(&vec![1, 1], 1, 100), 0);
}

#[test]
fn test_rosenbrock_derivative() {
    let res = rosenbrock_2d_derivative(&vec![1, 1], 1, 100);
    for elem in &res {
        assert_eq!(*elem, 0);
    }
}

#[test]
fn test_rosenbrock_optimum_3d() {
    assert_eq!(rosenbrock(&vec![1, 1, 1], 1, 100), 0);
}

#[test]
fn test_rosenbrock_nd_values() {
    // two pairwise terms, each (1 - 0)^2 + 100 * (0 - 0)^2 = 1
    assert_eq!(rosenbrock(&vec![0, 0, 0], 1, 100), 2);
    // (1 - 0)^2 + 100 * (1 - 0)^2 = 101
    assert_eq!(rosenbrock(&vec![0, 1], 1, 100), 101);
}

#[test]
fn test_rosenbrock_all_ones_any_length() {
    for n in 2..9 {
        assert_eq!(rosenbrock(&vec![1; n], 1, 100), 0);
        assert_eq!(rosenbrock(&vec![1; n], 1, 7), 0);
    }
}

#[test]
fn test_rosenbrock_2d_values() {
    // (1 - (-1))^2 + 100 * (2 - 1)^2 = 104
    assert_eq!(rosenbrock_2d(&vec![-1, 2], 1, 100), 104);
    // (1 - 2)^2 + 100 * (3 - 4)^2 = 101
    assert_eq!(rosenbrock_2d(&vec![2, 3], 1, 100), 101);
    // optimum generalizes: x = a, y = a^2
    assert_eq!(rosenbrock_2d(&vec![3, 9], 3, 100), 0);
}

#[test]
fn test_rosenbrock_2d_largest_magnitude() {
    // at the bound: a = x = y = b = 10^6, so (a - x)^2 = 0 and
    // b * (y - x^2)^2 = 10^6 * (10^6 - 10^12)^2
    assert_eq!(
        rosenbrock_2d(&vec![1_000_000, 1_000_000], 1_000_000, 1_000_000),
        999_998_000_001_000_000_000_000_000_000,
    );
}

#[test]
fn test_rosenbrock_2d_derivative_values() {
    // d/dx = -2 + 3200 - 2400 + 4 = 802, d/dy = 200 * (3 - 4) = -200
    assert_eq!(rosenbrock_2d_derivative(&vec![2, 3], 1, 100), vec![802, -200]);
}

#[test]
fn test_rosenbrock_2d_hessian_values() {
    // [12 * 100 * 4 - 4 * 100 * 3 + 2, -800, -800, 200]
    assert_eq!(rosenbrock_2d_hessian(&vec![2, 3], 1, 100), vec![3602, -800, -800, 200]);
}

#[test]
fn test_rosenbrock_2d_hessian_symmetric() {
    for x in -5..6 {
        let res = rosenbrock_2d_hessian(&vec![x, 3], 1, 100);
        assert_eq!(res[1], res[2]);
    }
}

#[test]
fn test_rosenbrock_2d_hessian_ignores_a() {
    assert_eq!(
        rosenbrock_2d_hessian(&vec![2, 3], 5, 100),
        rosenbrock_2d_hessian(&vec![2, 3], -7, 100),
    );
}

#[test]
fn test_rosenbrock_nd_matches_2d() {
    for x in -3..4 {
        assert_eq!(
            rosenbrock(&vec![x, 5], 1, 100),
            rosenbrock_2d(&vec![x, 5], 1, 100),
        );
    }
}

#[test]
fn test_rosenbrock_idempotent() {
    assert_eq!(rosenbrock(&vec![0, 2, -1], 1, 100), rosenbrock(&vec![0, 2, -1], 1, 100));
    assert_eq!(rosenbrock_2d(&vec![2, 3], 1, 100), rosenbrock_2d(&vec![2, 3], 1, 100));
    assert_eq!(
        rosenbrock_2d_derivative(&vec![2, 3], 1, 100),
        rosenbrock_2d_derivative(&vec![2, 3], 1, 100),
    );
    assert_eq!(
        rosenbrock_2d_hessian(&vec![2, 3], 1, 100),
        rosenbrock_2d_hessian(&vec![2, 3], 1, 100),
    );
}
