use vstd::prelude::*;

verus! {

/// A point of the drawing surface in dyadic fixed point: its coordinates are
/// `x / 2^shift` and `y / 2^shift`. Halving an edge only bumps `shift`, so
/// every midpoint is exact.
#[derive(Clone, Copy, Debug, PartialEq, Eq, Structural)]
pub struct Point {
    pub x: i64,
    pub y: i64,
    pub shift: u32,
}

/// Three ordered corners; the order is the drawn edge sequence
/// `p0 -> p1 -> p2 -> close`. Degenerate triangles are allowed.
#[derive(Clone, Copy, Debug, PartialEq, Eq, Structural)]
pub struct Triangle {
    pub p0: Point,
    pub p1: Point,
    pub p2: Point,
}

/// An opaque fill color, one byte per channel.
#[derive(Clone, Copy, Debug, PartialEq, Eq, Structural)]
pub struct Color {
    pub r: u8,
    pub g: u8,
    pub b: u8,
}

/// `2^n`.
pub open spec fn pow2(n: nat) -> nat
    decreases n,
{
    if n == 0 {
        1
    } else {
        2 * pow2((n - 1) as nat)
    }
}

pub open spec fn abs(v: int) -> nat {
    if v < 0 {
        (-v) as nat
    } else {
        v as nat
    }
}

/// The numerator of the coordinate `c / 2^from` written over `2^to`
/// (meaningful for `to >= from`).
pub open spec fn num_at(c: int, from: nat, to: nat) -> int {
    c * pow2((to - from) as nat)
}

/// The midpoint of `p` and `q`, one shift finer than both.
pub open spec fn mid(p: Point, q: Point) -> Point {
    Point { x: (p.x + q.x) as i64, y: (p.y + q.y) as i64, shift: (p.shift + 1) as u32 }
}

/// The same location as `p`, written one shift finer.
pub open spec fn refine(p: Point) -> Point {
    Point { x: (2 * p.x) as i64, y: (2 * p.y) as i64, shift: (p.shift + 1) as u32 }
}

/// The edge midpoints `(M0, M1, M2)`: `M0` halves `p0 p1`, `M1` halves
/// `p1 p2`, `M2` halves `p2 p0`.
pub open spec fn midpoints(t: Triangle) -> (Point, Point, Point) {
    (mid(t.p0, t.p1), mid(t.p1, t.p2), mid(t.p2, t.p0))
}

/// The corner sub-triangle that keeps vertex `i` (`0`, `1` or `2`) and the two
/// midpoints next to it: `(P0, M0, M2)`, `(M0, P1, M1)`, `(M2, M1, P2)`.
pub open spec fn corner(t: Triangle, i: int) -> Triangle {
    let (m0, m1, m2) = midpoints(t);
    if i == 0 {
        Triangle { p0: refine(t.p0), p1: m0, p2: m2 }
    } else if i == 1 {
        Triangle { p0: m0, p1: refine(t.p1), p2: m1 }
    } else {
        Triangle { p0: m2, p1: m1, p2: refine(t.p2) }
    }
}

/// A coordinate that can be doubled `depth` more times inside `i64`.
pub open spec fn coord_fits(c: i64, depth: nat) -> bool {
    abs(c as int) * pow2(depth) <= i64::MAX
}

/// `t` can be subdivided `depth` levels deep: its three corners share one
/// shift, that shift can grow by `depth`, and every coordinate can double
/// `depth` times without leaving `i64`.
pub open spec fn fits(t: Triangle, depth: nat) -> bool {
    &&& t.p1.shift == t.p0.shift
    &&& t.p2.shift == t.p0.shift
    &&& t.p0.shift + depth <= u32::MAX
    &&& coord_fits(t.p0.x, depth) && coord_fits(t.p0.y, depth)
    &&& coord_fits(t.p1.x, depth) && coord_fits(t.p1.y, depth)
    &&& coord_fits(t.p2.x, depth) && coord_fits(t.p2.y, depth)
}

proof fn lemma_pow2_pos(n: nat)
    ensures
        pow2(n) >= 1,
    decreases n,
{
    if n > 0 {
        lemma_pow2_pos((n - 1) as nat);
    }
}

/// Halving one level: a coordinate that fits `d` levels leaves a sum or a
/// double that fits `d - 1` levels.
proof fn lemma_sum_fits(a: i64, b: i64, d: nat)
    requires
        d >= 1,
        coord_fits(a, d),
        coord_fits(b, d),
    ensures
        -i64::MAX <= a + b <= i64::MAX,
        coord_fits((a + b) as i64, (d - 1) as nat),
{
    let p = pow2((d - 1) as nat);
    lemma_pow2_pos((d - 1) as nat);
    assert(pow2(d) == 2 * p);
    let aa = abs(a as int);
    let ab = abs(b as int);
    assert(aa * (2 * p) <= i64::MAX);
    assert(ab * (2 * p) <= i64::MAX);
    assert(aa <= aa * p) by (nonlinear_arith)
        requires p >= 1;
    assert(ab <= ab * p) by (nonlinear_arith)
        requires p >= 1;
    assert(aa * (2 * p) == 2 * (aa * p)) by (nonlinear_arith);
    assert(ab * (2 * p) == 2 * (ab * p)) by (nonlinear_arith);
    assert(abs(a + b) <= aa + ab);
    assert(abs(a + b) * p <= (aa + ab) * p) by (nonlinear_arith)
        requires abs(a + b) <= aa + ab, p >= 1;
    assert((aa + ab) * p == aa * p + ab * p) by (nonlinear_arith);
}

/// Every midpoint and every refined corner of `t` can be computed in `i64`.
pub open spec fn halvable(t: Triangle) -> bool {
    &&& i64::MIN <= t.p0.x + t.p1.x <= i64::MAX && i64::MIN <= t.p0.y + t.p1.y <= i64::MAX
    &&& i64::MIN <= t.p1.x + t.p2.x <= i64::MAX && i64::MIN <= t.p1.y + t.p2.y <= i64::MAX
    &&& i64::MIN <= t.p2.x + t.p0.x <= i64::MAX && i64::MIN <= t.p2.y + t.p0.y <= i64::MAX
    &&& i64::MIN <= 2 * t.p0.x <= i64::MAX && i64::MIN <= 2 * t.p0.y <= i64::MAX
    &&& i64::MIN <= 2 * t.p1.x <= i64::MAX && i64::MIN <= 2 * t.p1.y <= i64::MAX
    &&& i64::MIN <= 2 * t.p2.x <= i64::MAX && i64::MIN <= 2 * t.p2.y <= i64::MAX
}

/// The three corner sub-triangles of a triangle that fits `d >= 1` levels fit
/// `d - 1` levels, and the points that make them can be computed.
pub proof fn lemma_corners_fit(t: Triangle, d: nat)
    requires
        d >= 1,
        fits(t, d),
    ensures
        fits(corner(t, 0), (d - 1) as nat),
        fits(corner(t, 1), (d - 1) as nat),
        fits(corner(t, 2), (d - 1) as nat),
        halvable(t),
{
    lemma_sum_fits(t.p0.x, t.p1.x, d);
    lemma_sum_fits(t.p0.y, t.p1.y, d);
    lemma_sum_fits(t.p1.x, t.p2.x, d);
    lemma_sum_fits(t.p1.y, t.p2.y, d);
    lemma_sum_fits(t.p2.x, t.p0.x, d);
    lemma_sum_fits(t.p2.y, t.p0.y, d);
    lemma_sum_fits(t.p0.x, t.p0.x, d);
    lemma_sum_fits(t.p0.y, t.p0.y, d);
    lemma_sum_fits(t.p1.x, t.p1.x, d);
    lemma_sum_fits(t.p1.y, t.p1.y, d);
    lemma_sum_fits(t.p2.x, t.p2.x, d);
    lemma_sum_fits(t.p2.y, t.p2.y, d);
}

proof fn lemma_half_sum(a: int, b: int, q: int)
    ensures
        2 * ((a + b) * q) == a * (2 * q) + b * (2 * q),
        (2 * a) * q == a * (2 * q),
{
    assert(2 * ((a + b) * q) == a * (2 * q) + b * (2 * q)) by (nonlinear_arith);
    assert((2 * a) * q == a * (2 * q)) by (nonlinear_arith);
}

/// Midpoint geometry: each computed midpoint is exactly half the sum of the
/// two corners it joins. Written over the common denominator `2^to`, twice
/// the midpoint's numerator is the sum of the corners' numerators.
pub proof fn lemma_midpoints_exact(t: Triangle, to: nat)
    requires
        fits(t, 1),
        to > t.p0.shift,
    ensures
        ({
            let (m0, m1, m2) = midpoints(t);
            let s = t.p0.shift as nat;
            let ms = (t.p0.shift + 1) as nat;
            &&& m0.shift == ms && m1.shift == ms && m2.shift == ms
            &&& 2 * num_at(m0.x as int, ms, to) == num_at(t.p0.x as int, s, to) + num_at(t.p1.x as int, s, to)
            &&& 2 * num_at(m0.y as int, ms, to) == num_at(t.p0.y as int, s, to) + num_at(t.p1.y as int, s, to)
            &&& 2 * num_at(m1.x as int, ms, to) == num_at(t.p1.x as int, s, to) + num_at(t.p2.x as int, s, to)
            &&& 2 * num_at(m1.y as int, ms, to) == num_at(t.p1.y as int, s, to) + num_at(t.p2.y as int, s, to)
            &&& 2 * num_at(m2.x as int, ms, to) == num_at(t.p2.x as int, s, to) + num_at(t.p0.x as int, s, to)
            &&& 2 * num_at(m2.y as int, ms, to) == num_at(t.p2.y as int, s, to) + num_at(t.p0.y as int, s, to)
        }),
{
    let s = t.p0.shift as nat;
    let k = (to - s - 1) as nat;
    let q = pow2(k);
    assert(pow2((to - s) as nat) == 2 * q);
    lemma_sum_fits(t.p0.x, t.p1.x, 1);
    lemma_sum_fits(t.p0.y, t.p1.y, 1);
    lemma_sum_fits(t.p1.x, t.p2.x, 1);
    lemma_sum_fits(t.p1.y, t.p2.y, 1);
    lemma_sum_fits(t.p2.x, t.p0.x, 1);
    lemma_sum_fits(t.p2.y, t.p0.y, 1);
    lemma_half_sum(t.p0.x as int, t.p1.x as int, q as int);
    lemma_half_sum(t.p0.y as int, t.p1.y as int, q as int);
    lemma_half_sum(t.p1.x as int, t.p2.x as int, q as int);
    lemma_half_sum(t.p1.y as int, t.p2.y as int, q as int);
    lemma_half_sum(t.p2.x as int, t.p0.x as int, q as int);
    lemma_half_sum(t.p2.y as int, t.p0.y as int, q as int);
}

/// A corner kept by a sub-triangle is the same location as before.
pub proof fn lemma_refine_same_point(p: Point, to: nat)
    requires
        coord_fits(p.x, 1),
        coord_fits(p.y, 1),
        p.shift < u32::MAX,
        to > p.shift,
    ensures
        num_at(refine(p).x as int, refine(p).shift as nat, to) == num_at(p.x as int, p.shift as nat, to),
        num_at(refine(p).y as int, refine(p).shift as nat, to) == num_at(p.y as int, p.shift as nat, to),
{
    let s = p.shift as nat;
    let q = pow2((to - s - 1) as nat);
    assert(pow2((to - s) as nat) == 2 * q);
    lemma_sum_fits(p.x, p.x, 1);
    lemma_sum_fits(p.y, p.y, 1);
    lemma_half_sum(p.x as int, p.x as int, q as int);
    lemma_half_sum(p.y as int, p.y as int, q as int);
}

proof fn lemma_pow2_grows(k: nat, d: nat)
    requires
        k < d,
    ensures
        pow2(d) >= 2 * pow2(k),
    decreases d - k,
{
    if k + 1 < d {
        lemma_pow2_grows(k + 1, d);
        lemma_pow2_pos(k);
    }
}

fn coord_ok(c: i64, depth: u32) -> (r: bool)
    ensures
        r == coord_fits(c, depth as nat),
{
    proof {
        lemma_pow2_pos(depth as nat);
    }
    if c == i64::MIN {
        assert(abs(c as int) * pow2(depth as nat) >= abs(c as int)) by (nonlinear_arith)
            requires pow2(depth as nat) >= 1;
        return false;
    }
    let a: i64 = if c < 0 { -c } else { c };
    let mut m: u64 = a as u64;
    let mut k: u32 = 0;
    assert(pow2(0) == 1);
    assert(m == abs(c as int) * pow2(0));
    while k < depth
        invariant
            k <= depth,
            m == abs(c as int) * pow2(k as nat),
            m <= i64::MAX,
        decreases depth - k,
    {
        if m > (i64::MAX as u64) / 2 {
            proof {
                lemma_pow2_grows(k as nat, depth as nat);
                let p = pow2(k as nat);
                let q = pow2(depth as nat);
                let b = abs(c as int);
                assert(b * q >= b * (2 * p)) by (nonlinear_arith)
                    requires q >= 2 * p, b >= 0;
                assert(b * (2 * p) == 2 * (b * p)) by (nonlinear_arith);
            }
            return false;
        }
        proof {
            let b = abs(c as int);
            let p = pow2(k as nat);
            assert(b * (2 * p) == 2 * (b * p)) by (nonlinear_arith);
        }
        m = 2 * m;
        k = k + 1;
    }
    true
}

/// Whether `t` can be subdivided `depth` levels deep (`fits`).
pub fn can_subdivide(t: &Triangle, depth: u32) -> (r: bool)
    ensures
        r == fits(*t, depth as nat),
{
    t.p1.shift == t.p0.shift && t.p2.shift == t.p0.shift && depth <= u32::MAX - t.p0.shift
        && coord_ok(t.p0.x, depth) && coord_ok(t.p0.y, depth) && coord_ok(t.p1.x, depth)
        && coord_ok(t.p1.y, depth) && coord_ok(t.p2.x, depth) && coord_ok(t.p2.y, depth)
}

} // verus!
