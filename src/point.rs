//! Two- and three-component vectors, and the integer geometry that the
//! rasterizer is built on.

use vstd::prelude::*;

verus! {

/// A pair of coordinates over a numeric type.
#[derive(Clone, Copy, Debug, PartialEq, Eq)]
pub struct Vec2<T> {
    pub x: T,
    pub y: T,
}

/// A pixel position on screen.
pub type Point = Vec2<u16>;

/// A triple of coordinates over a numeric type.
#[derive(Clone, Copy, Debug, PartialEq, Eq)]
pub struct Vec3<T> {
    pub x: T,
    pub y: T,
    pub z: T,
}

impl Vec2<u16> {
    /// The point `(x, y)`; both coordinates must be valid pixel coordinates.
    pub fn from(x: i32, y: i32) -> (r: Vec2<u16>)
        requires
            0 <= x <= u16::MAX,
            0 <= y <= u16::MAX,
        ensures
            r.x == x,
            r.y == y,
    {
        Vec2 { x: x as u16, y: y as u16 }
    }

    /// The point moved by `(dx, dy)`; the result must stay a valid pixel position.
    pub fn shift(self, dx: i32, dy: i32) -> (r: Vec2<u16>)
        requires
            0 <= self.x + dx <= u16::MAX,
            0 <= self.y + dy <= u16::MAX,
        ensures
            r.x == self.x + dx,
            r.y == self.y + dy,
    {
        Vec2::<u16>::from(self.x as i32 + dx, self.y as i32 + dy)
    }

    pub fn as_i32(self) -> (r: Vec2<i32>)
        ensures
            r.x == self.x,
            r.y == self.y,
    {
        Vec2 { x: self.x as i32, y: self.y as i32 }
    }
}

impl Vec3<u16> {
    pub fn as_i32(self) -> (r: Vec3<i32>)
        ensures
            r.x == self.x,
            r.y == self.y,
            r.z == self.z,
    {
        Vec3 { x: self.x as i32, y: self.y as i32, z: self.z as i32 }
    }
}

/// Component-wise difference over the integers.
pub open spec fn diff_spec(v1: Vec3<int>, v2: Vec3<int>) -> Vec3<int> {
    Vec3 { x: v1.x - v2.x, y: v1.y - v2.y, z: v1.z - v2.z }
}

/// The cross product over the integers.
pub open spec fn cross_spec(v1: Vec3<int>, v2: Vec3<int>) -> Vec3<int> {
    Vec3 {
        x: v1.y * v2.z - v1.z * v2.y,
        y: v1.z * v2.x - v1.x * v2.z,
        z: v1.x * v2.y - v1.y * v2.x,
    }
}

pub open spec fn int3_of_i32(v: Vec3<i32>) -> Vec3<int> {
    Vec3 { x: v.x as int, y: v.y as int, z: v.z as int }
}

pub open spec fn int3_of_i64(v: Vec3<i64>) -> Vec3<int> {
    Vec3 { x: v.x as int, y: v.y as int, z: v.z as int }
}

pub open spec fn int3_of_i128(v: Vec3<i128>) -> Vec3<int> {
    Vec3 { x: v.x as int, y: v.y as int, z: v.z as int }
}

/// Component-wise subtraction `v1 - v2`, widened so that it cannot overflow.
pub fn diff(v1: Vec3<i32>, v2: Vec3<i32>) -> (r: Vec3<i64>)
    ensures
        int3_of_i64(r) == diff_spec(int3_of_i32(v1), int3_of_i32(v2)),
{
    Vec3 {
        x: v1.x as i64 - v2.x as i64,
        y: v1.y as i64 - v2.y as i64,
        z: v1.z as i64 - v2.z as i64,
    }
}

/// The cross product `v1 × v2`, widened so that it cannot overflow.
pub fn cross(v1: Vec3<i64>, v2: Vec3<i64>) -> (r: Vec3<i128>)
    ensures
        int3_of_i128(r) == cross_spec(int3_of_i64(v1), int3_of_i64(v2)),
{
    proof {
        lemma_product_fits(v1.y as int, v2.z as int);
        lemma_product_fits(v1.z as int, v2.y as int);
        lemma_product_fits(v1.z as int, v2.x as int);
        lemma_product_fits(v1.x as int, v2.z as int);
        lemma_product_fits(v1.x as int, v2.y as int);
        lemma_product_fits(v1.y as int, v2.x as int);
    }
    let (ax, ay, az) = (v1.x as i128, v1.y as i128, v1.z as i128);
    let (bx, by, bz) = (v2.x as i128, v2.y as i128, v2.z as i128);
    Vec3 { x: ay * bz - az * by, y: az * bx - ax * bz, z: ax * by - ay * bx }
}

proof fn lemma_product_fits(a: int, b: int)
    requires
        i64::MIN <= a <= i64::MAX,
        i64::MIN <= b <= i64::MAX,
    ensures
        -0x3fff_ffff_ffff_ffff_8000_0000_0000_0000 <= a * b <= 0x4000_0000_0000_0000_0000_0000_0000_0000,
{
    assert(-0x3fff_ffff_ffff_ffff_8000_0000_0000_0000 <= a * b <= 0x4000_0000_0000_0000_0000_0000_0000_0000)
        by (nonlinear_arith)
        requires
            -0x8000_0000_0000_0000 <= a <= 0x7fff_ffff_ffff_ffff,
            -0x8000_0000_0000_0000 <= b <= 0x7fff_ffff_ffff_ffff,
    ;
}

/// Barycentric weights as integers over a common positive denominator: the
/// weights of the three corners are `w0 / d`, `w1 / d` and `w2 / d`, and they
/// sum to one.
#[derive(Clone, Copy, Debug, PartialEq, Eq)]
pub struct Barycentric {
    pub w0: i128,
    pub w1: i128,
    pub w2: i128,
    pub d: i128,
}

impl Barycentric {
    pub open spec fn weights(&self) -> (int, int, int, int) {
        (self.w0 as int, self.w1 as int, self.w2 as int, self.d as int)
    }
}

/// The weights `(w0, w1, w2, d)` of `p` against the triangle `a, b, c`.
/// They come from the cross product of the edge vectors
/// `(c.x - a.x, b.x - a.x, a.x - p.x)` and `(c.y - a.y, b.y - a.y, a.y - p.y)`;
/// its third component is twice the signed area of the triangle. A triangle
/// of zero area gives `(-1, 1, 1, 1)`, which has a negative weight, so that
/// no point lies inside it.
pub open spec fn bary_of(a: Vec2<int>, b: Vec2<int>, c: Vec2<int>, p: Vec2<int>) -> (int, int, int, int) {
    let u = cross_spec(
        Vec3 { x: c.x - a.x, y: b.x - a.x, z: a.x - p.x },
        Vec3 { x: c.y - a.y, y: b.y - a.y, z: a.y - p.y },
    );
    if u.z == 0 {
        (-1, 1, 1, 1)
    } else if u.z > 0 {
        (u.z - u.x - u.y, u.y, u.x, u.z)
    } else {
        (u.x + u.y - u.z, -u.y, -u.x, -u.z)
    }
}

/// All three weights are non-negative: the point lies in the triangle or on its edges.
pub open spec fn inside(w: (int, int, int, int)) -> bool {
    w.0 >= 0 && w.1 >= 0 && w.2 >= 0
}

pub open spec fn int2_of_i32(v: Vec2<i32>) -> Vec2<int> {
    Vec2 { x: v.x as int, y: v.y as int }
}

pub open spec fn int2_of_u16(v: Vec2<u16>) -> Vec2<int> {
    Vec2 { x: v.x as int, y: v.y as int }
}

/// The barycentric weights of `p` against the triangle `pts`.
pub fn barycentric(pts: [Vec2<i32>; 3], p: Vec2<i32>) -> (r: Barycentric)
    ensures
        r.weights() == bary_of(
            int2_of_i32(pts[0]),
            int2_of_i32(pts[1]),
            int2_of_i32(pts[2]),
            int2_of_i32(p),
        ),
        r.d > 0,
{
    let u = cross(
        diff(Vec3 { x: pts[2].x, y: pts[1].x, z: pts[0].x }, Vec3 { x: pts[0].x, y: pts[0].x, z: p.x }),
        diff(Vec3 { x: pts[2].y, y: pts[1].y, z: pts[0].y }, Vec3 { x: pts[0].y, y: pts[0].y, z: p.y }),
    );
    proof {
        lemma_edge_cross_bounds(
            int2_of_i32(pts[0]),
            int2_of_i32(pts[1]),
            int2_of_i32(pts[2]),
            int2_of_i32(p),
        );
    }
    if u.z == 0 {
        Barycentric { w0: -1, w1: 1, w2: 1, d: 1 }
    } else if u.z > 0 {
        Barycentric { w0: u.z - u.x - u.y, w1: u.y, w2: u.x, d: u.z }
    } else {
        Barycentric { w0: u.x + u.y - u.z, w1: -u.y, w2: -u.x, d: -u.z }
    }
}

/// Bounds on the edge cross product of points with `i32` coordinates.
proof fn lemma_edge_cross_bounds(a: Vec2<int>, b: Vec2<int>, c: Vec2<int>, p: Vec2<int>)
    requires
        i32::MIN <= a.x <= i32::MAX && i32::MIN <= a.y <= i32::MAX,
        i32::MIN <= b.x <= i32::MAX && i32::MIN <= b.y <= i32::MAX,
        i32::MIN <= c.x <= i32::MAX && i32::MIN <= c.y <= i32::MAX,
        i32::MIN <= p.x <= i32::MAX && i32::MIN <= p.y <= i32::MAX,
    ensures
        ({
            let u = cross_spec(
                Vec3 { x: c.x - a.x, y: b.x - a.x, z: a.x - p.x },
                Vec3 { x: c.y - a.y, y: b.y - a.y, z: a.y - p.y },
            );
            &&& -0x4_0000_0000_0000_0000 <= u.x <= 0x4_0000_0000_0000_0000
            &&& -0x4_0000_0000_0000_0000 <= u.y <= 0x4_0000_0000_0000_0000
            &&& -0x4_0000_0000_0000_0000 <= u.z <= 0x4_0000_0000_0000_0000
        }),
{
    let m: int = 0x1_0000_0000;
    lemma_mul_small(b.x - a.x, a.y - p.y, m);
    lemma_mul_small(a.x - p.x, b.y - a.y, m);
    lemma_mul_small(a.x - p.x, c.y - a.y, m);
    lemma_mul_small(c.x - a.x, a.y - p.y, m);
    lemma_mul_small(c.x - a.x, b.y - a.y, m);
    lemma_mul_small(b.x - a.x, c.y - a.y, m);
}

proof fn lemma_mul_small(a: int, b: int, m: int)
    requires
        -m <= a <= m,
        -m <= b <= m,
    ensures
        -(m * m) <= a * b <= m * m,
{
    assert(-(m * m) <= a * b <= m * m) by (nonlinear_arith)
        requires
            -m <= a <= m,
            -m <= b <= m,
    ;
}

pub open spec fn min3(a: int, b: int, c: int) -> int {
    if a <= b && a <= c {
        a
    } else if b <= c {
        b
    } else {
        c
    }
}

pub open spec fn max3(a: int, b: int, c: int) -> int {
    if a >= b && a >= c {
        a
    } else if b >= c {
        b
    } else {
        c
    }
}

/// The weights sum to the denominator, and a point inside the triangle is
/// the weighted mean of its corners.
pub proof fn lemma_bary_combination(a: Vec2<int>, b: Vec2<int>, c: Vec2<int>, p: Vec2<int>)
    ensures
        ({
            let w = bary_of(a, b, c, p);
            &&& w.0 + w.1 + w.2 == w.3
            &&& w.3 > 0
            &&& inside(w) ==> w.3 * p.x == w.0 * a.x + w.1 * b.x + w.2 * c.x
            &&& inside(w) ==> w.3 * p.y == w.0 * a.y + w.1 * b.y + w.2 * c.y
        }),
{
    let u = cross_spec(
        Vec3 { x: c.x - a.x, y: b.x - a.x, z: a.x - p.x },
        Vec3 { x: c.y - a.y, y: b.y - a.y, z: a.y - p.y },
    );
    lemma_cross_orthogonal(
        Vec3 { x: c.x - a.x, y: b.x - a.x, z: a.x - p.x },
        Vec3 { x: c.y - a.y, y: b.y - a.y, z: a.y - p.y },
    );
    lemma_weighted_corner(u.x, u.y, u.z, a.x, b.x, c.x, p.x);
    lemma_weighted_corner(u.x, u.y, u.z, a.y, b.y, c.y, p.y);
}

/// The cross product is orthogonal to both factors.
proof fn lemma_cross_orthogonal(v1: Vec3<int>, v2: Vec3<int>)
    ensures
        cross_spec(v1, v2).x * v1.x + cross_spec(v1, v2).y * v1.y + cross_spec(v1, v2).z * v1.z == 0,
        cross_spec(v1, v2).x * v2.x + cross_spec(v1, v2).y * v2.y + cross_spec(v1, v2).z * v2.z == 0,
{
    let (x1, x2, x3) = (v1.x, v1.y, v1.z);
    let (y1, y2, y3) = (v2.x, v2.y, v2.z);
    assert((x2 * y3 - x3 * y2) * x1 == x1 * x2 * y3 - x1 * x3 * y2) by (nonlinear_arith);
    assert((x3 * y1 - x1 * y3) * x2 == x2 * x3 * y1 - x1 * x2 * y3) by (nonlinear_arith);
    assert((x1 * y2 - x2 * y1) * x3 == x1 * x3 * y2 - x2 * x3 * y1) by (nonlinear_arith);
    assert((x2 * y3 - x3 * y2) * y1 == x2 * y1 * y3 - x3 * y1 * y2) by (nonlinear_arith);
    assert((x3 * y1 - x1 * y3) * y2 == x3 * y1 * y2 - x1 * y2 * y3) by (nonlinear_arith);
    assert((x1 * y2 - x2 * y1) * y3 == x1 * y2 * y3 - x2 * y1 * y3) by (nonlinear_arith);
}

/// From `ux * (c - a) + uy * (b - a) + uz * (a - p) == 0`, the corner form of
/// `uz * p`, and of `-uz * p`.
proof fn lemma_weighted_corner(ux: int, uy: int, uz: int, a: int, b: int, c: int, p: int)
    requires
        ux * (c - a) + uy * (b - a) + uz * (a - p) == 0,
    ensures
        uz * p == (uz - ux - uy) * a + uy * b + ux * c,
        (-uz) * p == (ux + uy - uz) * a + (-uy) * b + (-ux) * c,
{
    assert(ux * (c - a) == ux * c - ux * a) by (nonlinear_arith);
    assert(uy * (b - a) == uy * b - uy * a) by (nonlinear_arith);
    assert(uz * (a - p) == uz * a - uz * p) by (nonlinear_arith);
    assert((uz - ux - uy) * a == uz * a - ux * a - uy * a) by (nonlinear_arith);
    assert((-uz) * p == -(uz * p)) by (nonlinear_arith);
    assert((ux + uy - uz) * a == ux * a + uy * a - uz * a) by (nonlinear_arith);
    assert((-uy) * b == -(uy * b)) by (nonlinear_arith);
    assert((-ux) * c == -(ux * c)) by (nonlinear_arith);
}

/// A weighted mean with non-negative weights lies between the least and the
/// greatest of the values.
proof fn lemma_mean_between(w0: int, w1: int, w2: int, d: int, a: int, b: int, c: int, v: int)
    requires
        w0 >= 0,
        w1 >= 0,
        w2 >= 0,
        d > 0,
        w0 + w1 + w2 == d,
        d * v == w0 * a + w1 * b + w2 * c,
    ensures
        min3(a, b, c) <= v <= max3(a, b, c),
{
    let lo = min3(a, b, c);
    let hi = max3(a, b, c);
    assert(d * lo <= d * v <= d * hi) by (nonlinear_arith)
        requires
            w0 >= 0,
            w1 >= 0,
            w2 >= 0,
            w0 + w1 + w2 == d,
            d * v == w0 * a + w1 * b + w2 * c,
            lo <= a && lo <= b && lo <= c,
            hi >= a && hi >= b && hi >= c,
    ;
    assert(lo <= v <= hi) by (nonlinear_arith)
        requires
            d > 0,
            d * lo <= d * v <= d * hi,
    ;
}

/// A point inside a triangle lies in the triangle's bounding box.
pub proof fn lemma_inside_bounding_box(a: Vec2<int>, b: Vec2<int>, c: Vec2<int>, p: Vec2<int>)
    requires
        inside(bary_of(a, b, c, p)),
    ensures
        min3(a.x, b.x, c.x) <= p.x <= max3(a.x, b.x, c.x),
        min3(a.y, b.y, c.y) <= p.y <= max3(a.y, b.y, c.y),
{
    let w = bary_of(a, b, c, p);
    lemma_bary_combination(a, b, c, p);
    lemma_mean_between(w.0, w.1, w.2, w.3, a.x, b.x, c.x, p.x);
    lemma_mean_between(w.0, w.1, w.2, w.3, a.y, b.y, c.y, p.y);
}

} // verus!
