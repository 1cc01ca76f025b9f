//! Finite integer sums over index ranges, and the algebra that reorders them.

use vstd::prelude::*;

verus! {

/// `f(0) + f(1) + ... + f(len - 1)`.
pub open spec fn sum_range(len: nat, f: spec_fn(int) -> int) -> int
    decreases len,
{
    if len == 0 {
        0
    } else {
        sum_range((len - 1) as nat, f) + f(len - 1)
    }
}

/// Sums of functions that agree on the range are equal.
pub proof fn lemma_sum_range_ext(len: nat, f: spec_fn(int) -> int, g: spec_fn(int) -> int)
    requires
        forall|t: int| 0 <= t < len ==> #[trigger] f(t) == g(t),
    ensures
        sum_range(len, f) == sum_range(len, g),
    decreases len,
{
    if len > 0 {
        lemma_sum_range_ext((len - 1) as nat, f, g);
        assert(f(len - 1) == g(len - 1));
    }
}

/// A constant factor comes out of a sum.
pub proof fn lemma_sum_range_scale(len: nat, f: spec_fn(int) -> int, c: int, g: spec_fn(int) -> int)
    requires
        forall|t: int| 0 <= t < len ==> #[trigger] g(t) == c * f(t),
    ensures
        sum_range(len, g) == c * sum_range(len, f),
    decreases len,
{
    if len > 0 {
        lemma_sum_range_scale((len - 1) as nat, f, c, g);
        let s = sum_range((len - 1) as nat, f);
        let x = f(len - 1);
        assert(g(len - 1) == c * x);
        assert(c * s + c * x == c * (s + x)) by (nonlinear_arith);
    }
}

/// The sum of pointwise sums is the sum of the two sums.
pub proof fn lemma_sum_range_add(len: nat, f: spec_fn(int) -> int, g: spec_fn(int) -> int, h: spec_fn(int) -> int)
    requires
        forall|t: int| 0 <= t < len ==> #[trigger] h(t) == f(t) + g(t),
    ensures
        sum_range(len, h) == sum_range(len, f) + sum_range(len, g),
    decreases len,
{
    if len > 0 {
        lemma_sum_range_add((len - 1) as nat, f, g, h);
        assert(h(len - 1) == f(len - 1) + g(len - 1));
    }
}

/// The product of two sums is the double sum of the products of their terms.
pub proof fn lemma_sum_range_product(p: nat, f: spec_fn(int) -> int, q: nat, g: spec_fn(int) -> int)
    ensures
        sum_range(p, f) * sum_range(q, g) == sum_range(
            p,
            |i: int| sum_range(q, |j: int| f(i) * g(j)),
        ),
{
    let sg = sum_range(q, g);
    let outer = |i: int| sum_range(q, |j: int| f(i) * g(j));
    assert forall|i: int| 0 <= i < p implies #[trigger] outer(i) == sg * f(i) by {
        lemma_sum_range_scale(q, g, f(i), |j: int| f(i) * g(j));
        assert(f(i) * sg == sg * f(i)) by (nonlinear_arith);
    }
    lemma_sum_range_scale(p, f, sg, outer);
    assert(sum_range(p, f) * sg == sg * sum_range(p, f)) by (nonlinear_arith);
}

/// A double sum can be taken in either order.
pub proof fn lemma_sum_range_swap(p: nat, q: nat, f: spec_fn(int, int) -> int)
    ensures
        sum_range(p, |u: int| sum_range(q, |v: int| f(u, v))) == sum_range(
            q,
            |v: int| sum_range(p, |u: int| f(u, v)),
        ),
    decreases p,
{
    if p > 0 {
        let pp = (p - 1) as nat;
        let outer = |u: int| sum_range(q, |v: int| f(u, v));
        let last = |v: int| f(pp as int, v);
        let before = |v: int| sum_range(pp, |u: int| f(u, v));
        let after = |v: int| sum_range(p, |u: int| f(u, v));
        lemma_sum_range_swap(pp, q, f);
        assert(sum_range(pp, outer) == sum_range(q, before));
        assert(sum_range(p, outer) == sum_range(pp, outer) + outer(pp as int));
        assert(outer(pp as int) == sum_range(q, last)) by {
            lemma_sum_range_ext(q, |v: int| f(pp as int, v), last);
        }
        assert forall|v: int| 0 <= v < q implies #[trigger] after(v) == before(v) + last(v) by {
        }
        lemma_sum_range_add(q, before, last, after);
    } else {
        lemma_sum_range_zero(q, |v: int| sum_range(0, |u: int| f(u, v)));
    }
}

/// A sum of zeros is zero.
pub proof fn lemma_sum_range_zero(len: nat, f: spec_fn(int) -> int)
    requires
        forall|t: int| 0 <= t < len ==> #[trigger] f(t) == 0,
    ensures
        sum_range(len, f) == 0,
    decreases len,
{
    if len > 0 {
        lemma_sum_range_zero((len - 1) as nat, f);
        assert(f(len - 1) == 0);
    }
}

/// The magnitude of an integer.
pub open spec fn magnitude(x: int) -> int {
    if x < 0 {
        -x
    } else {
        x
    }
}

/// A sum of `len` terms, each at most `bound` in magnitude, is at most `bound * len`.
pub proof fn lemma_sum_range_bound(len: nat, f: spec_fn(int) -> int, bound: int)
    requires
        forall|t: int| 0 <= t < len ==> magnitude(#[trigger] f(t)) <= bound,
    ensures
        magnitude(sum_range(len, f)) <= bound * len,
    decreases len,
{
    if len > 0 {
        let rest = (len - 1) as nat;
        lemma_sum_range_bound(rest, f, bound);
        let s = sum_range(rest, f);
        let x = f(len - 1);
        assert(sum_range(len, f) == s + x);
        assert(magnitude(x) <= bound);
        assert(magnitude(s + x) <= magnitude(s) + magnitude(x));
        assert(bound * rest + bound == bound * len) by (nonlinear_arith)
            requires
                rest == len - 1,
        ;
    } else {
        assert(bound * len == 0) by (nonlinear_arith)
            requires
                len == 0,
        ;
    }
}

} // verus!
