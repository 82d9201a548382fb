//! Triangle outlines and the two triangle fills: scanline and bounding box
//! with barycentric test.

use vstd::prelude::*;
use crate::grid::{lemma_grid_rect, lemma_paint_insert, lemma_paint_union, paint};
use crate::line::line_pixels;
use crate::point::{
    barycentric, bary_of, inside, int2_of_i32, int2_of_u16, lemma_inside_bounding_box, max3, min3, Point, Vec2,
};
use crate::rgb_image::{rgb, RGBColor, RGBImage};

verus! {

/// Every corner of `pts` is a pixel of `img`.
pub open spec fn corners_in(img: RGBImage, pts: [Point; 3]) -> bool {
    &&& img.in_bounds(pts[0].x as int, pts[0].y as int)
    &&& img.in_bounds(pts[1].x as int, pts[1].y as int)
    &&& img.in_bounds(pts[2].x as int, pts[2].y as int)
}

/// The pixels of the three edges `p1 p2`, `p2 p3` and `p3 p1`.
pub open spec fn outline_pixels(p1: Point, p2: Point, p3: Point) -> Set<(int, int)> {
    line_pixels(p1, p2).union(line_pixels(p2, p3)).union(line_pixels(p3, p1))
}

pub open spec fn sort01(t: (Point, Point, Point)) -> (Point, Point, Point) {
    if t.0.y > t.1.y {
        (t.1, t.0, t.2)
    } else {
        t
    }
}

pub open spec fn sort12(t: (Point, Point, Point)) -> (Point, Point, Point) {
    if t.1.y > t.2.y {
        (t.0, t.2, t.1)
    } else {
        t
    }
}

/// The corners ordered by ascending `y`; corners with equal `y` keep their order.
pub open spec fn sort_by_y(pts: [Point; 3]) -> (Point, Point, Point) {
    sort01(sort12(sort01((pts[0], pts[1], pts[2]))))
}

/// The grid after the edges of `pts`, ordered by `y`, are drawn over `g`:
/// the two edges through the middle corner in green, then the long edge in red.
pub open spec fn sorted_outline(g: Seq<Seq<RGBColor>>, pts: [Point; 3]) -> Seq<Seq<RGBColor>> {
    let t = sort_by_y(pts);
    paint(
        paint(paint(g, line_pixels(t.0, t.1), rgb(0, 255, 0)), line_pixels(t.1, t.2), rgb(0, 255, 0)),
        line_pixels(t.2, t.0),
        rgb(255, 0, 0),
    )
}

/// Division rounded toward zero, for a positive divisor.
pub open spec fn tdiv(a: int, b: int) -> int {
    if a >= 0 {
        a / b
    } else {
        -((-a) / b)
    }
}

/// The two boundary columns of scanline `i` (counted from the lowest corner)
/// of the triangle with corners `t0, t1, t2` in ascending `y`: one on the long
/// edge `t0 t2`, one on the short edge of the current half.
pub open spec fn scan_bounds(t0: Point, t1: Point, t2: Point, i: int) -> (int, int) {
    let th = t2.y - t0.y;
    let second = i > t1.y - t0.y || t1.y == t0.y;
    let seg = if second {
        t2.y - t1.y + 1
    } else {
        t1.y - t0.y + 1
    };
    let a = t0.x + tdiv((t2.x - t0.x) * i, th);
    let b = if second {
        t1.x + tdiv((t2.x - t1.x) * (i - (t1.y - t0.y)), seg)
    } else {
        t0.x + tdiv((t1.x - t0.x) * i, seg)
    };
    (a, b)
}

/// The pixels that the scanline fill paints: on each scanline from the lowest
/// corner up to (not including) the highest, every column between the two
/// boundaries, both included.
pub open spec fn scanline_pixels(pts: [Point; 3]) -> Set<(int, int)> {
    let t = sort_by_y(pts);
    Set::new(
        |p: (int, int)|
            {
                let i = p.1 - t.0.y;
                let ab = scan_bounds(t.0, t.1, t.2, i);
                &&& 0 <= i < t.2.y - t.0.y
                &&& (ab.0 <= p.0 <= ab.1 || ab.1 <= p.0 <= ab.0)
            },
    )
}

/// Whether pixel `(x, y)` lies in the triangle `pts` or on its edges.
pub open spec fn covers(pts: [Point; 3], x: int, y: int) -> bool {
    inside(bary_of(int2_of_u16(pts[0]), int2_of_u16(pts[1]), int2_of_u16(pts[2]), Vec2 { x, y }))
}

/// The pixels of a `w × h` image that the triangle `pts` covers.
pub open spec fn fill_pixels(pts: [Point; 3], w: int, h: int) -> Set<(int, int)> {
    Set::new(|p: (int, int)| 0 <= p.0 < w && 0 <= p.1 < h && covers(pts, p.0, p.1))
}

/// Three collinear or coincident corners.
pub open spec fn degenerate(pts: [Point; 3]) -> bool {
    (pts[2].x - pts[0].x) * (pts[1].y - pts[0].y) - (pts[1].x - pts[0].x) * (pts[2].y - pts[0].y)
        == 0
}

/// A triangle of zero area covers no pixel.
pub proof fn lemma_degenerate_covers_nothing(pts: [Point; 3], w: int, h: int)
    requires
        degenerate(pts),
    ensures
        fill_pixels(pts, w, h) == Set::<(int, int)>::empty(),
{
    assert(fill_pixels(pts, w, h) =~= Set::<(int, int)>::empty());
}

/// The clamped bounding box `(min_x, min_y, max_x, max_y)` of `pts` in a
/// `w × h` image.
pub open spec fn clamped_box(pts: [Point; 3], w: int, h: int) -> (int, int, int, int) {
    let min_x = min3(pts[0].x as int, pts[1].x as int, pts[2].x as int);
    let min_y = min3(pts[0].y as int, pts[1].y as int, pts[2].y as int);
    let max_x = max3(pts[0].x as int, pts[1].x as int, pts[2].x as int);
    let max_y = max3(pts[0].y as int, pts[1].y as int, pts[2].y as int);
    (
        if min_x < w - 1 { min_x } else { w - 1 },
        if min_y < h - 1 { min_y } else { h - 1 },
        if max_x < w - 1 { max_x } else { w - 1 },
        if max_y < h - 1 { max_y } else { h - 1 },
    )
}

/// A covered pixel of the image lies in the clamped bounding box.
pub proof fn lemma_covered_in_box(pts: [Point; 3], w: int, h: int, x: int, y: int)
    requires
        fill_pixels(pts, w, h).contains((x, y)),
    ensures
        clamped_box(pts, w, h).0 <= x <= clamped_box(pts, w, h).2,
        clamped_box(pts, w, h).1 <= y <= clamped_box(pts, w, h).3,
{
    lemma_inside_bounding_box(
        int2_of_u16(pts[0]),
        int2_of_u16(pts[1]),
        int2_of_u16(pts[2]),
        Vec2 { x, y },
    );
}

fn min3_u16(a: u16, b: u16, c: u16) -> (r: u16)
    ensures
        r == min3(a as int, b as int, c as int),
{
    if a <= b && a <= c {
        a
    } else if b <= c {
        b
    } else {
        c
    }
}

fn max3_u16(a: u16, b: u16, c: u16) -> (r: u16)
    ensures
        r == max3(a as int, b as int, c as int),
{
    if a >= b && a >= c {
        a
    } else if b >= c {
        b
    } else {
        c
    }
}

/// The clamped bounding box, computed; the image must have at least one pixel.
pub fn bounding_box(pts: [Point; 3], w: u16, h: u16) -> (r: (u16, u16, u16, u16))
    requires
        w > 0,
        h > 0,
    ensures
        (r.0 as int, r.1 as int, r.2 as int, r.3 as int) == clamped_box(pts, w as int, h as int),
{
    let min_x = min3_u16(pts[0].x, pts[1].x, pts[2].x);
    let min_y = min3_u16(pts[0].y, pts[1].y, pts[2].y);
    let max_x = max3_u16(pts[0].x, pts[1].x, pts[2].x);
    let max_y = max3_u16(pts[0].y, pts[1].y, pts[2].y);
    (
        if min_x < w - 1 { min_x } else { w - 1 },
        if min_y < h - 1 { min_y } else { h - 1 },
        if max_x < w - 1 { max_x } else { w - 1 },
        if max_y < h - 1 { max_y } else { h - 1 },
    )
}

/// The pixels of `s` that come before `(x, y)` in column-major order.
pub open spec fn before_in_columns(s: Set<(int, int)>, x: int, y: int) -> Set<(int, int)> {
    Set::new(|p: (int, int)| s.contains(p) && (p.0 < x || (p.0 == x && p.1 < y)))
}

/// The pixels of `s` below row `y`.
pub open spec fn rows_below(s: Set<(int, int)>, y: int) -> Set<(int, int)> {
    Set::new(|p: (int, int)| s.contains(p) && p.1 < y)
}

/// The pixels of `s` that come before `(x, y)` in row-major order.
pub open spec fn before_in_rows(s: Set<(int, int)>, x: int, y: int) -> Set<(int, int)> {
    Set::new(|p: (int, int)| s.contains(p) && (p.1 < y || (p.1 == y && p.0 < x)))
}

impl RGBImage {
    /// Draws the outline of the triangle in `color`.
    pub fn triangle_v(&mut self, points: [Point; 3], color: RGBColor)
        requires
            old(self).wf(),
            corners_in(*old(self), points),
        ensures
            final(self).wf(),
            final(self).width == old(self).width,
            final(self).height == old(self).height,
            final(self).grid() == paint(
                old(self).grid(),
                outline_pixels(points[0], points[1], points[2]),
                color,
            ),
    {
        self.triangle_points(points[0], points[1], points[2], color);
    }

    /// Draws the three edges `p1 p2`, `p2 p3` and `p3 p1` in `color`.
    pub fn triangle_points(&mut self, p1: Point, p2: Point, p3: Point, color: RGBColor)
        requires
            old(self).wf(),
            old(self).in_bounds(p1.x as int, p1.y as int),
            old(self).in_bounds(p2.x as int, p2.y as int),
            old(self).in_bounds(p3.x as int, p3.y as int),
        ensures
            final(self).wf(),
            final(self).width == old(self).width,
            final(self).height == old(self).height,
            final(self).grid() == paint(old(self).grid(), outline_pixels(p1, p2, p3), color),
    {
        let ghost g0 = self.grid();
        self.line(p1, p2, color);
        self.line(p2, p3, color);
        self.line(p3, p1, color);
        proof {
            lemma_paint_union(g0, line_pixels(p1, p2), line_pixels(p2, p3), color);
            lemma_paint_union(
                g0,
                line_pixels(p1, p2).union(line_pixels(p2, p3)),
                line_pixels(p3, p1),
                color,
            );
        }
    }

    /// Draws the edges of the triangle after ordering its corners by `y`: the
    /// two edges through the middle corner in green, the long edge in red.
    pub fn triangle_v_sorted(&mut self, points: [Point; 3])
        requires
            old(self).wf(),
            corners_in(*old(self), points),
        ensures
            final(self).wf(),
            final(self).width == old(self).width,
            final(self).height == old(self).height,
            final(self).grid() == sorted_outline(old(self).grid(), points),
    {
        let (t0, t1, t2) = sort_points(points);
        self.line(t0, t1, RGBColor::green());
        self.line(t1, t2, RGBColor::green());
        self.line(t2, t0, RGBColor::red());
    }

    /// Fills the triangle with `color` every pixel that it covers, testing
    /// each pixel of its bounding box, clamped to the image, by its
    /// barycentric weights.
    pub fn triangle_v2(&mut self, points: [Point; 3], color: RGBColor)
        requires
            old(self).wf(),
        ensures
            final(self).wf(),
            final(self).width == old(self).width,
            final(self).height == old(self).height,
            final(self).grid() == paint(
                old(self).grid(),
                fill_pixels(points, old(self).width as int, old(self).height as int),
                color,
            ),
    {
        let ghost g0 = self.grid();
        let w = self.width;
        let h = self.height;
        let ghost fill = fill_pixels(points, w as int, h as int);
        proof {
            lemma_grid_rect(self.pixels@, w as int, h as int);
        }
        if w == 0 || h == 0 {
            proof {
                assert(fill =~= Set::<(int, int)>::empty());
                let ge = paint(g0, fill, color);
                assert forall|yy: int| 0 <= yy < g0.len() implies ge[yy] =~= g0[yy] by {}
                assert(ge =~= g0);
            }
            return ;
        }
        let (min_x, min_y, max_x, max_y) = bounding_box(points, w, h);
        let pts = [points[0].as_i32(), points[1].as_i32(), points[2].as_i32()];
        proof {
            assert forall|yy: int| 0 <= yy < g0.len() implies paint(g0, Set::empty(), color)[yy]
                =~= g0[yy] by {}
            assert(paint(g0, Set::empty(), color) =~= g0);
            assert(before_in_columns(fill, min_x as int, 0) =~= Set::empty()) by {
                assert forall|p: (int, int)| fill.contains(p) implies p.0 >= min_x by {
                    lemma_covered_in_box(points, w as int, h as int, p.0, p.1);
                }
            }
        }
        let mut x = min_x;
        while x <= max_x
            invariant
                self.wf(),
                self.width == w,
                self.height == h,
                w > 0,
                h > 0,
                g0 == old(self).grid(),
                old(self).width == w,
                old(self).height == h,
                old(self).wf(),
                fill == fill_pixels(points, w as int, h as int),
                (min_x as int, min_y as int, max_x as int, max_y as int) == clamped_box(
                    points,
                    w as int,
                    h as int,
                ),
                min_x <= x <= max_x + 1,
                max_x < w,
                max_y < h,
                min_y <= max_y,
                int2_of_i32(pts[0]) == int2_of_u16(points[0]),
                int2_of_i32(pts[1]) == int2_of_u16(points[1]),
                int2_of_i32(pts[2]) == int2_of_u16(points[2]),
                self.grid() == paint(g0, before_in_columns(fill, x as int, 0), color),
            decreases max_x + 1 - x,
        {
            proof {
                assert(before_in_columns(fill, x as int, 0) =~= before_in_columns(
                    fill,
                    x as int,
                    min_y as int,
                )) by {
                    assert forall|p: (int, int)| fill.contains(p) implies p.1 >= min_y by {
                        lemma_covered_in_box(points, w as int, h as int, p.0, p.1);
                    }
                }
            }
            let mut y = min_y;
            while y <= max_y
                invariant
                    self.wf(),
                    self.width == w,
                    self.height == h,
                    g0 == old(self).grid(),
                    old(self).width == w,
                    old(self).height == h,
                    old(self).wf(),
                    fill == fill_pixels(points, w as int, h as int),
                    min_x <= x <= max_x,
                    min_y <= y <= max_y + 1,
                    max_x < w,
                    max_y < h,
                    int2_of_i32(pts[0]) == int2_of_u16(points[0]),
                    int2_of_i32(pts[1]) == int2_of_u16(points[1]),
                    int2_of_i32(pts[2]) == int2_of_u16(points[2]),
                    self.grid() == paint(g0, before_in_columns(fill, x as int, y as int), color),
                decreases max_y + 1 - y,
            {
                let bc = barycentric(pts, Vec2 { x: x as i32, y: y as i32 });
                if bc.w0 >= 0 && bc.w1 >= 0 && bc.w2 >= 0 {
                    proof {
                        lemma_grid_rect(old(self).pixels@, w as int, h as int);
                        lemma_paint_insert(
                            g0,
                            w as int,
                            before_in_columns(fill, x as int, y as int),
                            x as int,
                            y as int,
                            color,
                        );
                        assert(before_in_columns(fill, x as int, y + 1) =~= before_in_columns(
                            fill,
                            x as int,
                            y as int,
                        ).insert((x as int, y as int)));
                    }
                    self.set_pixel(Point { x, y }, color);
                } else {
                    proof {
                        assert(before_in_columns(fill, x as int, y + 1) =~= before_in_columns(
                            fill,
                            x as int,
                            y as int,
                        ));
                    }
                }
                y = y + 1;
            }
            proof {
                assert(before_in_columns(fill, x as int, y as int) =~= before_in_columns(
                    fill,
                    x + 1,
                    0,
                )) by {
                    assert forall|p: (int, int)| fill.contains(p) implies p.1 <= max_y by {
                        lemma_covered_in_box(points, w as int, h as int, p.0, p.1);
                    }
                }
            }
            x = x + 1;
        }
        proof {
            assert(before_in_columns(fill, x as int, 0) =~= fill) by {
                assert forall|p: (int, int)| fill.contains(p) implies p.0 <= max_x by {
                    lemma_covered_in_box(points, w as int, h as int, p.0, p.1);
                }
            }
        }
    }
}

/// `a / b` rounded toward zero.
fn div_toward_zero(a: i64, b: i64) -> (r: i64)
    requires
        b > 0,
        a > i64::MIN,
    ensures
        r == tdiv(a as int, b as int),
{
    if a >= 0 {
        ((a as u64) / (b as u64)) as i64
    } else {
        -((((-a) as u64) / (b as u64)) as i64)
    }
}

/// Interpolating `d` at `i` of `n` steps stays between `0` and `d`.
proof fn lemma_tdiv_between(d: int, i: int, n: int)
    requires
        0 <= i <= n,
        n > 0,
    ensures
        d >= 0 ==> 0 <= tdiv(d * i, n) <= d,
        d < 0 ==> d <= tdiv(d * i, n) <= 0,
{
    if d >= 0 {
        let q = (d * i) / n;
        assert(0 <= d * i <= d * n) by (nonlinear_arith)
            requires
                d >= 0,
                0 <= i <= n,
        ;
        assert(0 <= q <= d) by (nonlinear_arith)
            requires
                0 <= d * i <= d * n,
                n > 0,
                q == (d * i) / n,
        ;
    } else {
        let q = (-(d * i)) / n;
        assert(0 <= -(d * i) <= (-d) * n) by (nonlinear_arith)
            requires
                d < 0,
                0 <= i <= n,
        ;
        assert(0 <= q <= -d) by (nonlinear_arith)
            requires
                0 <= -(d * i) <= (-d) * n,
                n > 0,
                q == (-(d * i)) / n,
        ;
    }
}

/// The boundaries of a scanline lie between the corners of the edges they
/// come from.
proof fn lemma_scan_bounds_between(t0: Point, t1: Point, t2: Point, i: int)
    requires
        t0.y <= t1.y <= t2.y,
        0 <= i < t2.y - t0.y,
    ensures
        min3(t0.x as int, t1.x as int, t2.x as int) <= scan_bounds(t0, t1, t2, i).0 <= max3(
            t0.x as int,
            t1.x as int,
            t2.x as int,
        ),
        min3(t0.x as int, t1.x as int, t2.x as int) <= scan_bounds(t0, t1, t2, i).1 <= max3(
            t0.x as int,
            t1.x as int,
            t2.x as int,
        ),
{
    let th = t2.y - t0.y;
    lemma_tdiv_between(t2.x - t0.x, i, th);
    if i > t1.y - t0.y || t1.y == t0.y {
        lemma_tdiv_between(t2.x - t1.x, i - (t1.y - t0.y), t2.y - t1.y + 1);
    } else {
        lemma_tdiv_between(t1.x - t0.x, i, t1.y - t0.y + 1);
    }
}

impl RGBImage {
    /// Fills the triangle scanline by scanline: its corners are ordered by
    /// `y`, and each scanline from the lowest corner up to the highest (not
    /// included) is filled between a boundary on the long edge and one on the
    /// short edge of the current half.
    pub fn triangle_filed(&mut self, points: [Point; 3], color: RGBColor)
        requires
            old(self).wf(),
            corners_in(*old(self), points),
        ensures
            final(self).wf(),
            final(self).width == old(self).width,
            final(self).height == old(self).height,
            final(self).grid() == paint(old(self).grid(), scanline_pixels(points), color),
    {
        let ghost g0 = self.grid();
        let ghost scan = scanline_pixels(points);
        let w = self.width;
        let h = self.height;
        let (t0, t1, t2) = sort_points(points);
        let t0x = t0.x as i64;
        let t0y = t0.y as i64;
        let t1x = t1.x as i64;
        let t1y = t1.y as i64;
        let t2x = t2.x as i64;
        let t2y = t2.y as i64;
        let total_height = t2y - t0y;
        proof {
            assert forall|yy: int| 0 <= yy < g0.len() implies paint(g0, Set::empty(), color)[yy]
                =~= g0[yy] by {}
            assert(paint(g0, Set::empty(), color) =~= g0);
            assert(rows_below(scan, t0y as int) =~= Set::empty());
        }
        let mut i: i64 = 0;
        while i < total_height
            invariant
                self.wf(),
                self.width == w,
                self.height == h,
                g0 == old(self).grid(),
                old(self).width == w,
                old(self).height == h,
                old(self).wf(),
                scan == scanline_pixels(points),
                (t0, t1, t2) == sort_by_y(points),
                t0.y <= t1.y <= t2.y,
                t0x == t0.x && t0y == t0.y && t1x == t1.x && t1y == t1.y && t2x == t2.x && t2y
                    == t2.y,
                total_height == t2y - t0y,
                t0x < w && t1x < w && t2x < w && t2y < h,
                0 <= i <= total_height,
                self.grid() == paint(g0, rows_below(scan, t0y + i), color),
            decreases total_height - i,
        {
            let second_half = i > t1y - t0y || t1y == t0y;
            let segment_height = if second_half {
                t2y - t1y + 1
            } else {
                t1y - t0y + 1
            };
            proof {
                lemma_mul_small(t2x - t0x, i as int);
                lemma_mul_small(t2x - t1x, i - (t1y - t0y));
                lemma_mul_small(t1x - t0x, i as int);
            }
            let a = t0x + div_toward_zero((t2x - t0x) * i, total_height);
            let b = if second_half {
                t1x + div_toward_zero((t2x - t1x) * (i - (t1y - t0y)), segment_height)
            } else {
                t0x + div_toward_zero((t1x - t0x) * i, segment_height)
            };
            proof {
                assert((a as int, b as int) == scan_bounds(t0, t1, t2, i as int));
                lemma_scan_bounds_between(t0, t1, t2, i as int);
            }
            let (lo, hi) = if a > b {
                (b, a)
            } else {
                (a, b)
            };
            let y = (t0y + i) as u16;
            let ghost row = t0y + i;
            proof {
                assert(forall|x: int| #![auto] scan.contains((x, row)) <==> lo <= x <= hi);
                assert(rows_below(scan, row) =~= before_in_rows(scan, lo as int, row));
            }
            let mut j: i64 = lo;
            while j <= hi
                invariant
                    self.wf(),
                    self.width == w,
                    self.height == h,
                    g0 == old(self).grid(),
                    old(self).width == w,
                    old(self).height == h,
                    old(self).wf(),
                    0 <= lo <= j <= hi + 1,
                    hi < w,
                    y == row,
                    row < h,
                    self.grid() == paint(g0, before_in_rows(scan, j as int, row), color),
                    forall|x: int| #![auto] scan.contains((x, row)) <==> lo <= x <= hi,
                decreases hi + 1 - j,
            {
                proof {
                    lemma_grid_rect(old(self).pixels@, w as int, h as int);
                    lemma_paint_insert(
                        g0,
                        w as int,
                        before_in_rows(scan, j as int, row),
                        j as int,
                        row,
                        color,
                    );
                    assert(before_in_rows(scan, j + 1, row) =~= before_in_rows(
                        scan,
                        j as int,
                        row,
                    ).insert((j as int, row)));
                }
                self.set_pixel(Point { x: j as u16, y }, color);
                j = j + 1;
            }
            proof {
                assert(before_in_rows(scan, j as int, row) =~= rows_below(scan, row + 1));
            }
            i = i + 1;
        }
        proof {
            assert(rows_below(scan, t0y + i) =~= scan);
        }
    }
}

proof fn lemma_mul_small(d: int, i: int)
    requires
        -0x1_0000 <= d <= 0x1_0000,
        -0x1_0000 <= i <= 0x1_0000,
    ensures
        -0x1_0000_0000 <= d * i <= 0x1_0000_0000,
{
    assert(-0x1_0000_0000 <= d * i <= 0x1_0000_0000) by (nonlinear_arith)
        requires
            -0x1_0000 <= d <= 0x1_0000,
            -0x1_0000 <= i <= 0x1_0000,
    ;
}

/// The corners ordered by ascending `y`, keeping the order of equal ones.
pub fn sort_points(points: [Point; 3]) -> (r: (Point, Point, Point))
    ensures
        r == sort_by_y(points),
        r.0.y <= r.1.y <= r.2.y,
{
    let mut t0 = points[0];
    let mut t1 = points[1];
    let mut t2 = points[2];
    if t0.y > t1.y {
        let t = t0;
        t0 = t1;
        t1 = t;
    }
    if t1.y > t2.y {
        let t = t1;
        t1 = t2;
        t2 = t;
    }
    if t0.y > t1.y {
        let t = t0;
        t0 = t1;
        t1 = t;
    }
    (t0, t1, t2)
}

} // verus!
