//! Facts of integer arithmetic that the geometry rests on.

use vstd::prelude::*;

verus! {

/// The least of three numbers.
pub open spec fn min3(p: int, q: int, r: int) -> int {
    if p <= q && p <= r {
        p
    } else if q <= r {
        q
    } else {
        r
    }
}

/// The greatest of three numbers.
pub open spec fn max3(p: int, q: int, r: int) -> int {
    if p >= q && p >= r {
        p
    } else if q >= r {
        q
    } else {
        r
    }
}

/// `(p - q) * (r - s)` multiplied out.
pub(crate) proof fn lemma_expand(p: int, q: int, r: int, s: int)
    ensures
        (p - q) * (r - s) == p * r - p * s - q * r + q * s,
{
    assert((p - q) * (r - s) == p * r - p * s - q * r + q * s) by (nonlinear_arith);
}

/// A weighted sum of terms that are each shifted by `s` is the weighted sum
/// of the terms plus `s` times the sum of the weights.
pub(crate) proof fn lemma_shifted_sum(ra: int, rb: int, rc: int, u: int, v: int, w: int, s: int)
    ensures
        ra * (u + s) + rb * (v + s) + rc * (w + s) == (ra * u + rb * v + rc * w) + (ra + rb
            + rc) * s,
        ra * (u + s) + rb * (v + s) + rc * (w + s) == (ra * u + rb * v + rc * w) + s * (ra + rb
            + rc),
{
    assert(ra * (u + s) == ra * u + ra * s) by (nonlinear_arith);
    assert(rb * (v + s) == rb * v + rb * s) by (nonlinear_arith);
    assert(rc * (w + s) == rc * w + rc * s) by (nonlinear_arith);
    assert((ra + rb + rc) * s == ra * s + rb * s + rc * s) by (nonlinear_arith);
    assert((ra + rb + rc) * s == s * (ra + rb + rc)) by (nonlinear_arith);
}

/// The three cross products of three vectors, each weighted by the remaining
/// vector's coordinate, cancel.
pub(crate) proof fn lemma_triple_vanishes(ux: int, uy: int, vx: int, vy: int, wx: int, wy: int)
    ensures
        (vx * wy - vy * wx) * ux + (wx * uy - wy * ux) * vx + (ux * vy - uy * vx) * wx == 0,
        (vx * wy - vy * wx) * uy + (wx * uy - wy * ux) * vy + (ux * vy - uy * vx) * wy == 0,
{
    assert((vx * wy - vy * wx) * ux + (wx * uy - wy * ux) * vx + (ux * vy - uy * vx) * wx == 0)
        by (nonlinear_arith);
    assert((vx * wy - vy * wx) * uy + (wx * uy - wy * ux) * vy + (ux * vy - uy * vx) * wy == 0)
        by (nonlinear_arith);
}

/// A weighted sum with weights that are not negative lies between the
/// smallest and the largest term, each multiplied by the sum of the weights.
pub(crate) proof fn lemma_weighted_sum_bounds(wa: int, wb: int, wc: int, p: int, q: int, r: int)
    requires
        wa >= 0,
        wb >= 0,
        wc >= 0,
    ensures
        (wa + wb + wc) * min3(p, q, r) <= wa * p + wb * q + wc * r,
        wa * p + wb * q + wc * r <= (wa + wb + wc) * max3(p, q, r),
{
    let lo = min3(p, q, r);
    let hi = max3(p, q, r);
    assert(wa * lo <= wa * p && wa * p <= wa * hi) by (nonlinear_arith)
        requires
            wa >= 0,
            lo <= p <= hi,
    ;
    assert(wb * lo <= wb * q && wb * q <= wb * hi) by (nonlinear_arith)
        requires
            wb >= 0,
            lo <= q <= hi,
    ;
    assert(wc * lo <= wc * r && wc * r <= wc * hi) by (nonlinear_arith)
        requires
            wc >= 0,
            lo <= r <= hi,
    ;
    assert((wa + wb + wc) * lo == wa * lo + wb * lo + wc * lo) by (nonlinear_arith);
    assert((wa + wb + wc) * hi == wa * hi + wb * hi + wc * hi) by (nonlinear_arith);
}

/// Negating every weight and the denominator keeps a weighted sum's equation.
pub(crate) proof fn lemma_negated_sum(ra: int, rb: int, rc: int, p: int, q: int, r: int, d: int, s: int)
    requires
        ra * p + rb * q + rc * r == d * s,
    ensures
        (-ra) * p + (-rb) * q + (-rc) * r == (-d) * s,
{
    assert((-ra) * p == -(ra * p)) by (nonlinear_arith);
    assert((-rb) * q == -(rb * q)) by (nonlinear_arith);
    assert((-rc) * r == -(rc * r)) by (nonlinear_arith);
    assert((-d) * s == -(d * s)) by (nonlinear_arith);
}

/// A positive common factor can be dropped from an inequality.
pub(crate) proof fn lemma_cancel_positive(d: int, p: int, q: int)
    requires
        d > 0,
        d * p <= d * q,
    ensures
        p <= q,
{
    assert(p <= q) by (nonlinear_arith)
        requires
            d > 0,
            d * p <= d * q,
    ;
}

/// A quotient rounded down stays between two integers that bound the exact
/// quotient.
pub(crate) proof fn lemma_floor_between(n: int, d: int, lo: int, hi: int)
    requires
        d > 0,
        d * lo <= n <= d * hi,
    ensures
        lo <= n / d <= hi,
{
    assert(lo <= n / d <= hi) by (nonlinear_arith)
        requires
            d > 0,
            d * lo <= n <= d * hi,
    ;
}

/// The product of two numbers of magnitude at most `m` has magnitude at most
/// `m * m`.
pub(crate) proof fn lemma_product_bound(p: int, q: int, m: int)
    requires
        -m <= p <= m,
        -m <= q <= m,
    ensures
        -(m * m) <= p * q <= m * m,
{
    assert(-(m * m) <= p * q <= m * m) by (nonlinear_arith)
        requires
            -m <= p <= m,
            -m <= q <= m,
    ;
}

/// A weight times a depth that was moved up to start at zero.
pub(crate) proof fn lemma_weighted_term_bound(w: int, u: int)
    requires
        0 <= w <= 0x2_0000_0000_0000_0000,
        0 <= u <= 0x1_0000_0000,
    ensures
        0 <= w * u <= 0x2_0000_0000_0000_0000_0000_0000,
{
    assert(0 <= w * u <= 0x2_0000_0000_0000_0000 * 0x1_0000_0000) by (nonlinear_arith)
        requires
            0 <= w <= 0x2_0000_0000_0000_0000,
            0 <= u <= 0x1_0000_0000,
    ;
}

} // verus!
