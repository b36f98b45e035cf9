//! The Rosenbrock test function, its gradient and its Hessian.
//!
//! Two distinct forms are exposed: the strict two-dimensional benchmark
//! `rosenbrock_2d` (with exact analytic derivative and Hessian) and the
//! generalized n-dimensional, value-only form `rosenbrock`, which sums the
//! pairwise term over consecutive elements. Parameters are usually `a = 1`
//! and `b = 100`; the 2-d global optimum then lies at `(1, 1)`.

use vstd::prelude::*;

use crate::as_ints;
use crate::lemma_mul_bound;
use crate::within;

verus! {

/// Largest magnitude allowed in the n-dimensional form: keeps one pairwise
/// term under `TERM_LIMIT`, so a sum over a vector of any representable
/// length stays inside `i128`.
pub const ROSENBROCK_ND_BOUND: i64 = 1_000;

/// Largest magnitude allowed in the two-dimensional forms: keeps every
/// intermediate product inside `i128`.
pub const ROSENBROCK_2D_BOUND: i64 = 1_000_000;

/// Bound on one pairwise term of the n-dimensional form when all inputs
/// stay within `ROSENBROCK_ND_BOUND`.
pub const TERM_LIMIT: i128 = 2_000_000_000_000_000;

/// One pairwise Rosenbrock term: `(a - x)^2 + b * (y - x^2)^2`.
pub open spec fn rosen_term(a: int, b: int, x: int, y: int) -> int {
    (a - x) * (a - x) + b * ((y - x * x) * (y - x * x))
}

/// The generalized n-dimensional Rosenbrock value: the sum of the pairwise
/// term over each pair of consecutive elements.
pub open spec fn rosen_nd(s: Seq<i64>, a: int, b: int) -> int
    decreases s.len(),
{
    if s.len() < 2 {
        0
    } else {
        rosen_term(a, b, s[0] as int, s[1] as int) + rosen_nd(s.drop_first(), a, b)
    }
}

/// Partial derivative of the 2-d Rosenbrock value with respect to `x`.
pub open spec fn rosen_dx(a: int, b: int, x: int, y: int) -> int {
    -2 * a + 4 * (b * ((x * x) * x)) - 4 * (b * (x * y)) + 2 * x
}

/// Partial derivative of the 2-d Rosenbrock value with respect to `y`.
pub open spec fn rosen_dy(b: int, x: int, y: int) -> int {
    2 * (b * (y - x * x))
}

/// Second partial derivative `d/dxdx` of the 2-d Rosenbrock value.
pub open spec fn rosen_dxdx(b: int, x: int, y: int) -> int {
    12 * (b * (x * x)) - 4 * (b * y) + 2
}

/// Second partial derivative `d/dxdy` of the 2-d Rosenbrock value.
pub open spec fn rosen_dxdy(b: int, x: int) -> int {
    -4 * (b * x)
}

/// Second partial derivative `d/dydx` of the 2-d Rosenbrock value.
pub open spec fn rosen_dydx(b: int, x: int) -> int {
    -4 * (b * x)
}

/// Second partial derivative `d/dydy` of the 2-d Rosenbrock value.
pub open spec fn rosen_dydy(b: int) -> int {
    2 * b
}

/// The 2-d Rosenbrock gradient, in parameter order.
pub open spec fn rosen_gradient(a: int, b: int, x: int, y: int) -> Seq<int> {
    seq![rosen_dx(a, b, x, y), rosen_dy(b, x, y)]
}

/// The 2-d Rosenbrock Hessian, flattened row-major.
pub open spec fn rosen_hessian(b: int, x: int, y: int) -> Seq<int> {
    seq![rosen_dxdx(b, x, y), rosen_dxdy(b, x), rosen_dydx(b, x), rosen_dydy(b)]
}

/// One pairwise term stays within `TERM_LIMIT` when all inputs stay
/// within `ROSENBROCK_ND_BOUND`.
proof fn lemma_term_limit(a: int, b: int, x: int, y: int)
    requires
        -1_000 <= a <= 1_000,
        -1_000 <= b <= 1_000,
        -1_000 <= x <= 1_000,
        -1_000 <= y <= 1_000,
    ensures
        -TERM_LIMIT <= rosen_term(a, b, x, y) <= TERM_LIMIT,
{
    lemma_mul_bound(a - x, a - x, 2_000, 2_000);
    lemma_mul_bound(x, x, 1_000, 1_000);
    lemma_mul_bound(y - x * x, y - x * x, 1_001_000, 1_001_000);
    lemma_mul_bound(b, (y - x * x) * (y - x * x), 1_000, 1_001_000int * 1_001_000);
}

/// Splitting the sum of pairwise terms at pair `(i, i + 1)`.
proof fn lemma_rosen_step(s: Seq<i64>, a: int, b: int, i: int)
    requires
        0 <= i,
        i + 1 < s.len(),
    ensures
        rosen_nd(s.skip(i), a, b) == rosen_term(a, b, s[i] as int, s[i + 1] as int) + rosen_nd(
            s.skip(i + 1),
            a,
            b,
        ),
{
    let t = s.skip(i);
    assert(t[0] == s[i]);
    assert(t[1] == s[i + 1]);
    assert(t.drop_first() =~= s.skip(i + 1));
}

/// Rosenbrock test function, generalized n-dimensional form: the sum of
/// the pairwise term over each pair of consecutive elements.
pub fn rosenbrock(param: &Vec<i64>, a: i64, b: i64) -> (r: i128)
    requires
        param@.len() >= 2,
        within(param@, ROSENBROCK_ND_BOUND as int),
        -ROSENBROCK_ND_BOUND <= a <= ROSENBROCK_ND_BOUND,
        -ROSENBROCK_ND_BOUND <= b <= ROSENBROCK_ND_BOUND,
    ensures
        r as int == rosen_nd(param@, a as int, b as int),
{
    let n: usize = param.len();
    let mut acc: i128 = 0;
    let mut i: usize = 0;
    proof {
        assert(param@.skip(0) =~= param@);
    }
    while i + 1 < n
        invariant
            param@.len() == n,
            n >= 2,
            0 <= i as int <= n - 1,
            within(param@, ROSENBROCK_ND_BOUND as int),
            -ROSENBROCK_ND_BOUND <= a <= ROSENBROCK_ND_BOUND,
            -ROSENBROCK_ND_BOUND <= b <= ROSENBROCK_ND_BOUND,
            rosen_nd(param@, a as int, b as int) == acc as int + rosen_nd(
                param@.skip(i as int),
                a as int,
                b as int,
            ),
            -(i as int) * TERM_LIMIT <= acc as int <= (i as int) * TERM_LIMIT,
        decreases n - i,
    {
        let x: i128 = param[i] as i128;
        let y: i128 = param[i + 1] as i128;
        let u: i128 = a as i128 - x;
        proof {
            lemma_rosen_step(param@, a as int, b as int, i as int);
            lemma_term_limit(a as int, b as int, x as int, y as int);
            lemma_mul_bound(u as int, u as int, 2_000, 2_000);
            lemma_mul_bound(x as int, x as int, 1_000, 1_000);
            lemma_mul_bound(
                y as int - (x as int) * (x as int),
                y as int - (x as int) * (x as int),
                1_001_000,
                1_001_000,
            );
            lemma_mul_bound(
                b as int,
                (y as int - (x as int) * (x as int)) * (y as int - (x as int) * (x as int)),
                1_000,
                1_001_000int * 1_001_000,
            );
        }
        let u2: i128 = u * u;
        let d: i128 = y - x * x;
        let d2: i128 = d * d;
        let t: i128 = u2 + b as i128 * d2;
        acc = acc + t;
        i = i + 1;
    }
    proof {
        assert(param@.skip(i as int).len() == 1);
    }
    acc
}

/// Rosenbrock test function, 2-d form.
pub fn rosenbrock_2d(param: &Vec<i64>, a: i64, b: i64) -> (r: i128)
    requires
        param@.len() == 2,
        within(param@, ROSENBROCK_2D_BOUND as int),
        -ROSENBROCK_2D_BOUND <= a <= ROSENBROCK_2D_BOUND,
        -ROSENBROCK_2D_BOUND <= b <= ROSENBROCK_2D_BOUND,
    ensures
        r as int == rosen_term(a as int, b as int, param@[0] as int, param@[1] as int),
{
    let x: i128 = param[0] as i128;
    let y: i128 = param[1] as i128;
    let u: i128 = a as i128 - x;
    proof {
        lemma_mul_bound(u as int, u as int, 2_000_000, 2_000_000);
        lemma_mul_bound(x as int, x as int, 1_000_000, 1_000_000);
    }
    let u2: i128 = u * u;
    let d: i128 = y - x * x;
    proof {
        lemma_mul_bound(d as int, d as int, 1_000_001_000_000, 1_000_001_000_000);
        lemma_mul_bound(
            b as int,
            (d as int) * (d as int),
            1_000_000,
            1_000_001_000_000int * 1_000_001_000_000,
        );
    }
    let d2: i128 = d * d;
    u2 + b as i128 * d2
}

/// Derivative of 2-d Rosenbrock function.
pub fn rosenbrock_2d_derivative(param: &Vec<i64>, a: i64, b: i64) -> (r: Vec<i128>)
    requires
        param@.len() == 2,
        within(param@, ROSENBROCK_2D_BOUND as int),
        -ROSENBROCK_2D_BOUND <= a <= ROSENBROCK_2D_BOUND,
        -ROSENBROCK_2D_BOUND <= b <= ROSENBROCK_2D_BOUND,
    ensures
        as_ints(r@) == rosen_gradient(a as int, b as int, param@[0] as int, param@[1] as int),
{
    let x: i128 = param[0] as i128;
    let y: i128 = param[1] as i128;
    let bb: i128 = b as i128;
    proof {
        lemma_mul_bound(x as int, x as int, 1_000_000, 1_000_000);
        lemma_mul_bound((x as int) * (x as int), x as int, 1_000_000_000_000, 1_000_000);
        lemma_mul_bound(
            b as int,
            ((x as int) * (x as int)) * (x as int),
            1_000_000,
            1_000_000_000_000_000_000,
        );
        lemma_mul_bound(x as int, y as int, 1_000_000, 1_000_000);
        lemma_mul_bound(b as int, (x as int) * (y as int), 1_000_000, 1_000_000_000_000);
    }
    let x2: i128 = x * x;
    let x3: i128 = x2 * x;
    let bx3: i128 = bb * x3;
    let xy: i128 = x * y;
    let bxy: i128 = bb * xy;
    let g0: i128 = 4 * bx3 + 2 * x - 2 * (a as i128) - 4 * bxy;
    let d: i128 = y - x2;
    proof {
        lemma_mul_bound(b as int, d as int, 1_000_000, 1_000_001_000_000);
    }
    let bd: i128 = bb * d;
    let g1: i128 = 2 * bd;
    let mut out: Vec<i128> = Vec::new();
    out.push(g0);
    out.push(g1);
    proof {
        assert(as_ints(out@) =~= rosen_gradient(
            a as int,
            b as int,
            param@[0] as int,
            param@[1] as int,
        ));
    }
    out
}

/// Hessian of 2-d Rosenbrock function, flattened row-major. The first
/// tunable of the value function does not appear in any second derivative,
/// so it is ignored here.
pub fn rosenbrock_2d_hessian(param: &Vec<i64>, _a: i64, b: i64) -> (r: Vec<i128>)
    requires
        param@.len() == 2,
        within(param@, ROSENBROCK_2D_BOUND as int),
        -ROSENBROCK_2D_BOUND <= b <= ROSENBROCK_2D_BOUND,
    ensures
        as_ints(r@) == rosen_hessian(b as int, param@[0] as int, param@[1] as int),
        r@[1] == r@[2],
{
    let x: i128 = param[0] as i128;
    let y: i128 = param[1] as i128;
    let bb: i128 = b as i128;
    proof {
        lemma_mul_bound(x as int, x as int, 1_000_000, 1_000_000);
        lemma_mul_bound(b as int, (x as int) * (x as int), 1_000_000, 1_000_000_000_000);
        lemma_mul_bound(b as int, y as int, 1_000_000, 1_000_000);
        lemma_mul_bound(b as int, x as int, 1_000_000, 1_000_000);
    }
    let x2: i128 = x * x;
    let bx2: i128 = bb * x2;
    let yb: i128 = bb * y;
    let bx: i128 = bb * x;
    let h00: i128 = 12 * bx2 - 4 * yb + 2;
    let h01: i128 = -(4 * bx);
    let h10: i128 = -(4 * bx);
    let h11: i128 = 2 * bb;
    let mut out: Vec<i128> = Vec::new();
    out.push(h00);
    out.push(h01);
    out.push(h10);
    out.push(h11);
    proof {
        assert(as_ints(out@) =~= rosen_hessian(b as int, param@[0] as int, param@[1] as int));
    }
    out
}

/// At the global optimum `(a, a^2)` of the 2-d form, the value is zero for
/// every choice of the tunables; with the usual `a = 1` this is the point
/// `(1, 1)`.
pub proof fn lemma_rosenbrock_2d_optimum(a: int, b: int) by (nonlinear_arith)
    ensures
        rosen_term(a, b, a, a * a) == 0,
{
}

/// At the global optimum `(a, a^2)` of the 2-d form, both gradient
/// components are zero for every choice of the tunables.
pub proof fn lemma_rosenbrock_2d_gradient_optimum(a: int, b: int) by (nonlinear_arith)
    ensures
        rosen_dx(a, b, a, a * a) == 0,
        rosen_dy(b, a, a * a) == 0,
{
}

/// The 2-d Hessian is symmetric: its two off-diagonal entries are equal
/// for all inputs.
pub proof fn lemma_rosenbrock_2d_hessian_symmetric(b: int, x: int)
    ensures
        rosen_dxdy(b, x) == rosen_dydx(b, x),
{
}

/// The n-dimensional value at the all-ones vector of any length is zero
/// when `a == 1`, whatever `b` is: each pairwise term vanishes.
pub proof fn lemma_rosenbrock_all_ones(s: Seq<i64>, b: int)
    requires
        forall|i: int| 0 <= i < s.len() ==> s[i] == 1,
    ensures
        rosen_nd(s, 1, b) == 0,
    decreases s.len(),
{
    if s.len() >= 2 {
        lemma_rosenbrock_2d_optimum(1, b);
        assert(rosen_term(1, b, s[0] as int, s[1] as int) == 0);
        assert(forall|i: int| 0 <= i < s.drop_first().len() ==> s.drop_first()[i] == 1);
        lemma_rosenbrock_all_ones(s.drop_first(), b);
    }
}

/// On a vector of exactly two elements the generalized form agrees with
/// the strict 2-d form: the sum has a single pairwise term.
pub proof fn lemma_rosenbrock_nd_matches_2d(s: Seq<i64>, a: int, b: int)
    requires
        s.len() == 2,
    ensures
        rosen_nd(s, a, b) == rosen_term(a, b, s[0] as int, s[1] as int),
{
    assert(s.drop_first().len() == 1);
    assert(rosen_nd(s.drop_first(), a, b) == 0);
}

/// The n-dimensional value is a function of the inputs alone: two results
/// for the same arguments are identical.
pub proof fn lemma_rosenbrock_deterministic(s: Seq<i64>, a: int, b: int, r1: int, r2: int)
    requires
        r1 == rosen_nd(s, a, b),
        r2 == rosen_nd(s, a, b),
    ensures
        r1 == r2,
{
}

/// The 2-d value is a function of the inputs alone: two results for the
/// same arguments are identical.
pub proof fn lemma_rosenbrock_2d_deterministic(a: int, b: int, x: int, y: int, r1: int, r2: int)
    requires
        r1 == rosen_term(a, b, x, y),
        r2 == rosen_term(a, b, x, y),
    ensures
        r1 == r2,
{
}

/// The 2-d gradient is a function of the inputs alone: two results for
/// the same arguments are identical.
pub proof fn lemma_rosenbrock_2d_derivative_deterministic(
    a: int,
    b: int,
    x: int,
    y: int,
    r1: Seq<int>,
    r2: Seq<int>,
)
    requires
        r1 == rosen_gradient(a, b, x, y),
        r2 == rosen_gradient(a, b, x, y),
    ensures
        r1 == r2,
{
}

/// The 2-d Hessian is a function of the inputs alone: two results for the
/// same arguments are identical.
pub proof fn lemma_rosenbrock_2d_hessian_deterministic(
    b: int,
    x: int,
    y: int,
    r1: Seq<int>,
    r2: Seq<int>,
)
    requires
        r1 == rosen_hessian(b, x, y),
        r2 == rosen_hessian(b, x, y),
    ensures
        r1 == r2,
{
}

} // verus!
