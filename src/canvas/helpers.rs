//! Geometric helpers of the triangle fill: vertex order, split point, coordinate changes.

use vstd::prelude::*;
use vstd::arithmetic::div_mod::{
    lemma_div_is_ordered,
    lemma_div_by_multiple,
    lemma_fundamental_div_mod,
    lemma_fundamental_div_mod_converse,
};
use vstd::arithmetic::mul::{lemma_mul_inequality, lemma_mul_upper_bound};
use crate::canvas::Point;

verus! {

/// `a` comes before `b` when sorting for a fill: higher `y` first, then lower `x`.
pub open spec fn precedes(a: Point, b: Point) -> bool {
    a.1 > b.1 || (a.1 == b.1 && a.0 <= b.0)
}

/// `r` holds the three points `p1`, `p2`, `p3` in some order.
pub open spec fn is_permutation(r: (Point, Point, Point), p1: Point, p2: Point, p3: Point) -> bool {
    ||| r == (p1, p2, p3)
    ||| r == (p1, p3, p2)
    ||| r == (p2, p1, p3)
    ||| r == (p2, p3, p1)
    ||| r == (p3, p1, p2)
    ||| r == (p3, p2, p1)
}

/// The three points in the order of [`precedes`]: by descending `y`, ties by ascending `x`.
pub open spec fn sorted_by_height(p1: Point, p2: Point, p3: Point) -> (Point, Point, Point) {
    if precedes(p1, p2) && precedes(p2, p3) {
        (p1, p2, p3)
    } else if precedes(p1, p3) && precedes(p3, p2) {
        (p1, p3, p2)
    } else if precedes(p2, p1) && precedes(p1, p3) {
        (p2, p1, p3)
    } else if precedes(p2, p3) && precedes(p3, p1) {
        (p2, p3, p1)
    } else if precedes(p3, p1) && precedes(p1, p2) {
        (p3, p1, p2)
    } else {
        (p3, p2, p1)
    }
}

/// Floor of `n / d` for `d != 0`.
pub open spec fn floor_div(n: int, d: int) -> int {
    if d > 0 {
        n / d
    } else {
        (-n) / (-d)
    }
}

/// The `x` of the point of the line through `top` and `bot` at the height of `mid`, rounded
/// down: `top.x + (mid.y - top.y) * (bot.x - top.x) / (bot.y - top.y)`.
pub open spec fn intersection_x(top: Point, mid: Point, bot: Point) -> int {
    top.0 + floor_div((mid.1 - top.1) * (bot.0 - top.0), bot.1 - top.1)
}

/// Sorts three points by descending `y`, ties by ascending `x`: the first is the top of a
/// triangle, the second its middle vertex and the third its bottom.
pub fn sort_vectors(p1: Point, p2: Point, p3: Point) -> (r: (Point, Point, Point))
    ensures
        r == sorted_by_height(p1, p2, p3),
        precedes(r.0, r.1),
        precedes(r.1, r.2),
        is_permutation(r, p1, p2, p3),
{
    let (mut a, mut b, mut c) = (p1, p2, p3);
    if !before(a, b) {
        let t = a;
        a = b;
        b = t;
    }
    if !before(b, c) {
        let t = b;
        b = c;
        c = t;
    }
    if !before(a, b) {
        let t = a;
        a = b;
        b = t;
    }
    (a, b, c)
}

/// Whether `a` comes before `b` in the order of a fill.
fn before(a: Point, b: Point) -> (r: bool)
    ensures
        r == precedes(a, b),
{
    a.1 > b.1 || (a.1 == b.1 && a.0 <= b.0)
}

/// Floor of `n / d` when `n` is negated: `(-n) / d == -ceil(n / d)`.
proof fn lemma_div_negated(n: int, d: int)
    requires
        n >= 0,
        d > 0,
    ensures
        (-n) / d == -(n / d) - (if n % d == 0 { 0int } else { 1int }),
{
    lemma_fundamental_div_mod(n, d);
    let q = n / d;
    let m = n % d;
    if m == 0 {
        assert(-n == (-q) * d + 0) by (nonlinear_arith)
            requires
                n == d * q + m,
                m == 0,
        ;
        lemma_fundamental_div_mod_converse(-n, d, -q, 0);
    } else {
        assert(-n == (-q - 1) * d + (d - m)) by (nonlinear_arith)
            requires
                n == d * q + m,
        ;
        lemma_fundamental_div_mod_converse(-n, d, -q - 1, d - m);
    }
}

/// The point where the line through `top` and `bot` crosses the height of `mid`: the split
/// point of a triangle whose middle vertex is `mid`. Its `x` is rounded down.
pub fn calculate_intersection(top: Point, mid: Point, bot: Point) -> (r: Point)
    requires
        top.1 != bot.1,
        top.1 <= mid.1 <= bot.1 || bot.1 <= mid.1 <= top.1,
    ensures
        r.0 == intersection_x(top, mid, bot),
        r.1 == mid.1,
{
    // Distances along each axis; the sign of the slope is handled apart.
    let dy_mid: u64 = if mid.1 >= top.1 { (mid.1 - top.1) as u64 } else { (top.1 - mid.1) as u64 };
    let dy: u64 = if bot.1 >= top.1 { (bot.1 - top.1) as u64 } else { (top.1 - bot.1) as u64 };
    let dx: u64 = if bot.0 >= top.0 { (bot.0 - top.0) as u64 } else { (top.0 - bot.0) as u64 };
    proof {
        lemma_mul_upper_bound(dy_mid as int, 0xffff_ffff, dx as int, 0xffff_ffff);
        assert(0xffff_ffffint * 0xffff_ffff < 0x1_0000_0000_0000_0000) by (nonlinear_arith);
    }
    let n: u64 = dy_mid * dx;
    let q: u64 = n / dy;
    proof {
        lemma_mul_inequality(dy_mid as int, dy as int, dx as int);
        lemma_div_is_ordered(n as int, (dy * dx) as int, dy as int);
        assert(dx * dy == dy * dx) by (nonlinear_arith);
        lemma_div_by_multiple(dx as int, dy as int);
        lemma_fundamental_div_mod(n as int, dy as int);
        lemma_div_negated(n as int, dy as int);
        let num = (mid.1 - top.1) * (bot.0 - top.0);
        let den = bot.1 - top.1;
        if den > 0 {
            if bot.0 >= top.0 {
                assert(num == n);
            } else {
                assert(num == -n) by (nonlinear_arith)
                    requires
                        num == (mid.1 - top.1) * (bot.0 - top.0),
                        n == dy_mid * dx,
                        dy_mid == mid.1 - top.1,
                        dx == top.0 - bot.0,
                ;
            }
        } else {
            if bot.0 >= top.0 {
                assert(-num == n) by (nonlinear_arith)
                    requires
                        num == (mid.1 - top.1) * (bot.0 - top.0),
                        n == dy_mid * dx,
                        dy_mid == top.1 - mid.1,
                        dx == bot.0 - top.0,
                ;
            } else {
                assert(-num == -n) by (nonlinear_arith)
                    requires
                        num == (mid.1 - top.1) * (bot.0 - top.0),
                        n == dy_mid * dx,
                        dy_mid == top.1 - mid.1,
                        dx == top.0 - bot.0,
                ;
            }
        }
    }
    if bot.0 >= top.0 {
        ((top.0 as u64 + q) as u32, mid.1)
    } else {
        // Rounding down a negative offset takes the quotient up when it is inexact.
        let up: u64 = if n % dy == 0 { q } else { q + 1 };
        proof {
            if n % dy != 0 {
                assert(q < dx) by (nonlinear_arith)
                    requires
                        n == dy * q + n % dy,
                        n % dy > 0,
                        n <= dy * dx,
                        q <= dx,
                ;
            }
        }
        ((top.0 as u64 - up) as u32, mid.1)
    }
}

/// The point with signed coordinates, as the line walkers take them.
pub fn as_signed(point: Point) -> (r: (i64, i64))
    ensures
        r.0 == point.0 as int,
        r.1 == point.1 as int,
{
    (point.0 as i64, point.1 as i64)
}

/// The point with each coordinate cast to `u32`, which keeps the low 32 bits.
pub fn as_u32(point: (i64, i64)) -> (r: Point)
    ensures
        r == (point.0 as u32, point.1 as u32),
{
    (#[verifier::truncate] (point.0 as u32), #[verifier::truncate] (point.1 as u32))
}

} // verus!
