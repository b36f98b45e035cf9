//! Benchmark functions for testing optimization algorithms.
//!
//! Each benchmark is a pure function from a parameter vector to a scalar
//! objective value; several also come with their analytic gradient and
//! Hessian. The evaluators work in exact integer arithmetic (`i64`
//! parameters, `i128` results), and every result is pinned by contract to
//! the closed-form polynomial it implements.

use vstd::prelude::*;

pub mod rosenbrock;
pub mod sphere;

pub use rosenbrock::rosenbrock;
pub use rosenbrock::rosenbrock_2d;
pub use rosenbrock::rosenbrock_2d_derivative;
pub use rosenbrock::rosenbrock_2d_hessian;
pub use sphere::sphere;
pub use sphere::sphere_derivative;

verus! {

/// The mathematical values held by a vector of evaluation results.
pub open spec fn as_ints(s: Seq<i128>) -> Seq<int> {
    s.map(|i: int, v: i128| v as int)
}

/// Every element of `s` lies in `[-bound, bound]`.
pub open spec fn within(s: Seq<i64>, bound: int) -> bool {
    forall|i: int| 0 <= i < s.len() ==> -bound <= #[trigger] (s[i] as int) <= bound
}

/// A product of bounded factors is bounded by the product of the bounds.
pub proof fn lemma_mul_bound(x: int, y: int, cx: int, cy: int) by (nonlinear_arith)
    requires
        -cx <= x <= cx,
        -cy <= y <= cy,
    ensures
        -(cx * cy) <= x * y <= cx * cy,
{
}

} // verus!
