//! The sphere test function and its gradient.
//!
//! `sphere(x) = sum of x[i]^2`; its global optimum is the zero vector of
//! any length, where the value and every gradient component are zero.

use vstd::prelude::*;

use crate::as_ints;
use crate::lemma_mul_bound;
use crate::within;

verus! {

/// Largest magnitude a sphere parameter may have: keeps every square, and
/// the running sum over a vector of any representable length, inside `i128`.
pub const SPHERE_BOUND: i64 = 1_000_000_000;

/// The sphere value: the sum of the squares of the elements.
pub open spec fn sphere_value(s: Seq<i64>) -> int
    decreases s.len(),
{
    if s.len() == 0 {
        0
    } else {
        (s[0] as int) * (s[0] as int) + sphere_value(s.drop_first())
    }
}

/// The sphere gradient: component `i` is `2 * s[i]`.
pub open spec fn sphere_gradient(s: Seq<i64>) -> Seq<int> {
    Seq::new(s.len(), |i: int| 2 * (s[i] as int))
}

/// Splitting the sum of squares at element `i`.
proof fn lemma_sphere_step(s: Seq<i64>, i: int)
    requires
        0 <= i < s.len(),
    ensures
        sphere_value(s.skip(i)) == (s[i] as int) * (s[i] as int) + sphere_value(s.skip(i + 1)),
{
    let t = s.skip(i);
    assert(t[0] == s[i]);
    assert(t.drop_first() =~= s.skip(i + 1));
}

/// Sphere test function.
pub fn sphere(param: &Vec<i64>) -> (r: i128)
    requires
        within(param@, SPHERE_BOUND as int),
    ensures
        r as int == sphere_value(param@),
{
    let n: usize = param.len();
    let mut acc: i128 = 0;
    let mut i: usize = 0;
    proof {
        assert(param@.skip(0) =~= param@);
    }
    while i < n
        invariant
            param@.len() == n,
            0 <= i as int <= n,
            within(param@, SPHERE_BOUND as int),
            sphere_value(param@) == acc as int + sphere_value(param@.skip(i as int)),
            -(i as int) * 1_000_000_000_000_000_000 <= acc as int <= (i as int)
                * 1_000_000_000_000_000_000,
        decreases n - i,
    {
        let x: i128 = param[i] as i128;
        proof {
            lemma_sphere_step(param@, i as int);
            lemma_mul_bound(x as int, x as int, 1_000_000_000, 1_000_000_000);
        }
        acc = acc + x * x;
        i = i + 1;
    }
    proof {
        assert(param@.skip(n as int).len() == 0);
    }
    acc
}

/// Derivative of sphere test function.
pub fn sphere_derivative(param: &Vec<i64>) -> (r: Vec<i128>)
    ensures
        as_ints(r@) == sphere_gradient(param@),
{
    let n: usize = param.len();
    let mut out: Vec<i128> = Vec::new();
    let mut i: usize = 0;
    while i < n
        invariant
            param@.len() == n,
            0 <= i as int <= n,
            out@.len() == i as int,
            forall|j: int| 0 <= j < i as int ==> out@[j] as int == 2 * (param@[j] as int),
        decreases n - i,
    {
        out.push(2 * (param[i] as i128));
        i = i + 1;
    }
    proof {
        assert(as_ints(out@) =~= sphere_gradient(param@));
    }
    out
}

/// At the global optimum, the zero vector of any length, the sphere value
/// is zero.
pub proof fn lemma_sphere_optimum(s: Seq<i64>)
    requires
        forall|i: int| 0 <= i < s.len() ==> s[i] == 0,
    ensures
        sphere_value(s) == 0,
    decreases s.len(),
{
    if s.len() > 0 {
        assert(forall|i: int| 0 <= i < s.drop_first().len() ==> s.drop_first()[i] == 0);
        lemma_sphere_optimum(s.drop_first());
    }
}

/// At the global optimum, the zero vector of any length, every gradient
/// component is zero.
pub proof fn lemma_sphere_gradient_optimum(s: Seq<i64>)
    requires
        forall|i: int| 0 <= i < s.len() ==> s[i] == 0,
    ensures
        forall|i: int| 0 <= i < s.len() ==> sphere_gradient(s)[i] == 0,
{
}

/// The sphere value is a function of the input alone: two results for the
/// same vector are identical.
pub proof fn lemma_sphere_deterministic(s: Seq<i64>, r1: int, r2: int)
    requires
        r1 == sphere_value(s),
        r2 == sphere_value(s),
    ensures
        r1 == r2,
{
}

/// The sphere gradient is a function of the input alone: two results for
/// the same vector are identical.
pub proof fn lemma_sphere_derivative_deterministic(s: Seq<i64>, r1: Seq<int>, r2: Seq<int>)
    requires
        r1 == sphere_gradient(s),
        r2 == sphere_gradient(s),
    ensures
        r1 == r2,
{
}

} // verus!
