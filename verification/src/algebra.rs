//! Identities of the dot and the cross product in the plane, over the
//! integers.

use vstd::prelude::*;

verus! {

/// The dot product of `(ux, uy)` and `(vx, vy)`.
pub open spec fn dot(ux: int, uy: int, vx: int, vy: int) -> int {
    ux * vx + uy * vy
}

/// The cross product of `(ux, uy)` and `(vx, vy)`: zero exactly when the two
/// vectors are parallel.
pub open spec fn cross(ux: int, uy: int, vx: int, vy: int) -> int {
    ux * vy - uy * vx
}

/// The square of the length of `(ux, uy)`.
pub open spec fn norm(ux: int, uy: int) -> int {
    ux * ux + uy * uy
}

/// Lagrange's identity: the squares of the dot and the cross product add up
/// to the product of the squared lengths.
pub proof fn lemma_lagrange(a: int, b: int, c: int, d: int)
    ensures
        dot(a, b, c, d) * dot(a, b, c, d) + cross(a, b, c, d) * cross(a, b, c, d) == norm(a, b)
            * norm(c, d),
{
    let ac: int = a * c;
    let bd: int = b * d;
    let ad: int = a * d;
    let bc: int = b * c;
    assert((ac + bd) * (ac + bd) == ac * ac + 2 * (ac * bd) + bd * bd) by (nonlinear_arith);
    assert((ad - bc) * (ad - bc) == ad * ad - 2 * (ad * bc) + bc * bc) by (nonlinear_arith);
    assert(ac * bd == ad * bc) by (nonlinear_arith)
        requires
            ac == a * c,
            bd == b * d,
            ad == a * d,
            bc == b * c,
    ;
    assert(ac * ac == (a * a) * (c * c)) by (nonlinear_arith)
        requires
            ac == a * c,
    ;
    assert(bd * bd == (b * b) * (d * d)) by (nonlinear_arith)
        requires
            bd == b * d,
    ;
    assert(ad * ad == (a * a) * (d * d)) by (nonlinear_arith)
        requires
            ad == a * d,
    ;
    assert(bc * bc == (b * b) * (c * c)) by (nonlinear_arith)
        requires
            bc == b * c,
    ;
    assert((a * a + b * b) * (c * c + d * d) == (a * a) * (c * c) + (a * a) * (d * d) + (b * b)
        * (c * c) + (b * b) * (d * d)) by (nonlinear_arith);
}

/// Cauchy's inequality: the square of a dot product is at most the product
/// of the squared lengths.
pub proof fn lemma_cauchy(a: int, b: int, c: int, d: int)
    ensures
        dot(a, b, c, d) * dot(a, b, c, d) <= norm(a, b) * norm(c, d),
{
    lemma_lagrange(a, b, c, d);
    let k: int = cross(a, b, c, d);
    assert(k * k >= 0) by (nonlinear_arith);
}

/// A vector `r` resolved along `u` and across it, scaled by the squared
/// length of `u`.
pub proof fn lemma_resolve(ux: int, uy: int, rx: int, ry: int)
    ensures
        norm(ux, uy) * rx == dot(ux, uy, rx, ry) * ux - cross(ux, uy, rx, ry) * uy,
        norm(ux, uy) * ry == dot(ux, uy, rx, ry) * uy + cross(ux, uy, rx, ry) * ux,
{
    assert((ux * ux + uy * uy) * rx == (ux * rx + uy * ry) * ux - (ux * ry - uy * rx) * uy)
        by (nonlinear_arith);
    assert((ux * ux + uy * uy) * ry == (ux * rx + uy * ry) * uy + (ux * ry - uy * rx) * ux)
        by (nonlinear_arith);
}

/// A vector with no length is the zero vector.
pub proof fn lemma_norm_zero(ux: int, uy: int)
    by (nonlinear_arith)
    ensures
        norm(ux, uy) >= 0,
        norm(ux, uy) == 0 <==> (ux == 0 && uy == 0),
{
}

/// The dot and the cross product are linear in their second argument.
pub proof fn lemma_second_linear(ux: int, uy: int, rx: int, ry: int, sx: int, sy: int)
    by (nonlinear_arith)
    ensures
        dot(ux, uy, rx + sx, ry + sy) == dot(ux, uy, rx, ry) + dot(ux, uy, sx, sy),
        dot(ux, uy, rx - sx, ry - sy) == dot(ux, uy, rx, ry) - dot(ux, uy, sx, sy),
        cross(ux, uy, rx + sx, ry + sy) == cross(ux, uy, rx, ry) + cross(ux, uy, sx, sy),
        cross(ux, uy, rx - sx, ry - sy) == cross(ux, uy, rx, ry) - cross(ux, uy, sx, sy),
{
}

/// The dot and the cross product take a factor out of their second argument.
pub proof fn lemma_second_scaled(ux: int, uy: int, rx: int, ry: int, k: int)
    ensures
        dot(ux, uy, k * rx, k * ry) == k * dot(ux, uy, rx, ry),
        cross(ux, uy, k * rx, k * ry) == k * cross(ux, uy, rx, ry),
{
    let xx: int = ux * rx;
    let yy: int = uy * ry;
    let xy: int = ux * ry;
    let yx: int = uy * rx;
    assert(ux * (k * rx) == k * xx) by (nonlinear_arith)
        requires
            xx == ux * rx,
    ;
    assert(uy * (k * ry) == k * yy) by (nonlinear_arith)
        requires
            yy == uy * ry,
    ;
    assert(ux * (k * ry) == k * xy) by (nonlinear_arith)
        requires
            xy == ux * ry,
    ;
    assert(uy * (k * rx) == k * yx) by (nonlinear_arith)
        requires
            yx == uy * rx,
    ;
    assert(k * (xx + yy) == k * xx + k * yy) by (nonlinear_arith);
    assert(k * (xy - yx) == k * xy - k * yx) by (nonlinear_arith);
}

/// The dot product is symmetric, the cross product antisymmetric, and a
/// vector is parallel to itself.
pub proof fn lemma_swap(ux: int, uy: int, vx: int, vy: int)
    by (nonlinear_arith)
    ensures
        dot(ux, uy, vx, vy) == dot(vx, vy, ux, uy),
        cross(ux, uy, vx, vy) == -cross(vx, vy, ux, uy),
        cross(ux, uy, ux, uy) == 0,
        dot(ux, uy, ux, uy) == norm(ux, uy),
{
}

} // verus!
