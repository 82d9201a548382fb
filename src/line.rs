//! Bresenham line drawing.

use vstd::prelude::*;
use crate::grid::{lemma_grid_rect, lemma_paint_insert, paint};
use crate::point::Point;
use crate::rgb_image::{RGBColor, RGBImage};

verus! {

pub open spec fn abs_int(v: int) -> int {
    if v < 0 {
        -v
    } else {
        v
    }
}

/// The endpoints as the algorithm walks them: `(steep, x0, y0, x1, y1)`.
/// A line steeper than 45° has its axes exchanged, and the endpoints are
/// ordered so that `x0 <= x1`.
pub open spec fn line_setup(a: Point, b: Point) -> (bool, int, int, int, int) {
    let steep = abs_int(b.x - a.x) < abs_int(b.y - a.y);
    let x0 = if steep { a.y as int } else { a.x as int };
    let y0 = if steep { a.x as int } else { a.y as int };
    let x1 = if steep { b.y as int } else { b.x as int };
    let y1 = if steep { b.x as int } else { b.y as int };
    if x0 > x1 {
        (steep, x1, y1, x0, y0)
    } else {
        (steep, x0, y0, x1, y1)
    }
}

/// The error accumulator after `i` steps along the major axis, with the
/// number of minor-axis steps taken so far: `(steps, error)`.
pub open spec fn bres(dx: int, ady: int, i: nat) -> (int, int)
    decreases i,
{
    if i == 0 {
        (0, 0)
    } else {
        let prev = bres(dx, ady, (i - 1) as nat);
        let e = prev.1 + 2 * ady;
        if e > dx {
            (prev.0 + 1, e - 2 * dx)
        } else {
            (prev.0, e)
        }
    }
}

/// The `i`-th pixel that the line from `a` to `b` plots.
pub open spec fn line_point(a: Point, b: Point, i: int) -> (int, int) {
    let s = line_setup(a, b);
    let k = bres(s.3 - s.1, abs_int(s.4 - s.2), i as nat).0;
    let x = s.1 + i;
    let y = if s.4 > s.2 { s.2 + k } else { s.2 - k };
    if s.0 {
        (y, x)
    } else {
        (x, y)
    }
}

/// The first `n` pixels that the line from `a` to `b` plots.
pub open spec fn line_prefix(a: Point, b: Point, n: int) -> Set<(int, int)> {
    Set::new(|p: (int, int)| exists|i: int| 0 <= i < n && p == line_point(a, b, i))
}

/// Every pixel that the line from `a` to `b` plots: one for each position
/// along the major axis, endpoints included.
pub open spec fn line_pixels(a: Point, b: Point) -> Set<(int, int)> {
    line_prefix(a, b, line_setup(a, b).3 - line_setup(a, b).1 + 1)
}

proof fn lemma_bres(dx: int, ady: int, i: nat)
    requires
        0 <= ady <= dx,
        i <= dx,
    ensures
        bres(dx, ady, i).1 == 2 * ady * i - 2 * dx * bres(dx, ady, i).0,
        -dx <= bres(dx, ady, i).1 <= dx,
        0 <= bres(dx, ady, i).0 <= ady,
    decreases i,
{
    if i > 0 {
        let j = (i - 1) as nat;
        lemma_bres(dx, ady, j);
        let k = bres(dx, ady, j).0;
        let e = bres(dx, ady, j).1;
        if e + 2 * ady > dx {
            assert(k + 1 <= ady) by (nonlinear_arith)
                requires
                    e == 2 * ady * j - 2 * dx * k,
                    -dx <= e <= dx,
                    e + 2 * ady > dx,
                    0 <= ady <= dx,
                    j + 1 <= dx,
                    0 <= j,
            ;
            assert(bres(dx, ady, i) == (k + 1, e + 2 * ady - 2 * dx));
            assert(e + 2 * ady - 2 * dx == 2 * ady * i - 2 * dx * (k + 1)) by (nonlinear_arith)
                requires
                    e == 2 * ady * j - 2 * dx * k,
                    i == j + 1,
            ;
        } else {
            assert(bres(dx, ady, i) == (k, e + 2 * ady));
            assert(e + 2 * ady == 2 * ady * i - 2 * dx * k) by (nonlinear_arith)
                requires
                    e == 2 * ady * j - 2 * dx * k,
                    i == j + 1,
            ;
        }
    } else {
        assert(2 * ady * i - 2 * dx * 0 == 0) by (nonlinear_arith)
            requires
                i == 0,
        ;
    }
}

/// Reversing the endpoints of a line does not change the pixels it plots.
pub proof fn lemma_line_symmetric(a: Point, b: Point)
    ensures
        line_pixels(a, b) == line_pixels(b, a),
{
    assert(line_setup(a, b) == line_setup(b, a));
    assert forall|i: int| line_point(a, b, i) == line_point(b, a, i) by {}
    assert(line_pixels(a, b) =~= line_pixels(b, a));
}

impl RGBImage {
    /// Draws the line from `start` to `end`, both ends included, in `color`.
    pub fn line(&mut self, start: Point, end: Point, color: RGBColor)
        requires
            old(self).wf(),
            old(self).in_bounds(start.x as int, start.y as int),
            old(self).in_bounds(end.x as int, end.y as int),
        ensures
            final(self).wf(),
            final(self).width == old(self).width,
            final(self).height == old(self).height,
            final(self).grid() == paint(old(self).grid(), line_pixels(start, end), color),
    {
        let ghost g0 = self.grid();
        let mut x0: i32 = start.x as i32;
        let mut y0: i32 = start.y as i32;
        let mut x1: i32 = end.x as i32;
        let mut y1: i32 = end.y as i32;
        let adx = if x1 >= x0 { x1 - x0 } else { x0 - x1 };
        let ady0 = if y1 >= y0 { y1 - y0 } else { y0 - y1 };
        let steep = adx < ady0;
        if steep {
            let t = x0;
            x0 = y0;
            y0 = t;
            let t = x1;
            x1 = y1;
            y1 = t;
        }
        if x0 > x1 {
            let t = x0;
            x0 = x1;
            x1 = t;
            let t = y0;
            y0 = y1;
            y1 = t;
        }
        assert((steep, x0 as int, y0 as int, x1 as int, y1 as int) == line_setup(start, end));
        let dx = x1 - x0;
        let dy = y1 - y0;
        let ady = if dy >= 0 { dy } else { -dy };
        let derror2 = ady * 2;
        let mut error2: i32 = 0;
        let mut y = y0;
        let mut x = x0;
        proof {
            assert(line_prefix(start, end, 0) =~= Set::empty());
            let ge = paint(g0, Set::empty(), color);
            assert forall|yy: int| 0 <= yy < g0.len() implies ge[yy] =~= g0[yy] by {}
            assert(ge =~= g0);
        }
        while x <= x1
            invariant
                self.wf(),
                self.width == old(self).width,
                self.height == old(self).height,
                g0 == old(self).grid(),
                old(self).wf(),
                old(self).in_bounds(start.x as int, start.y as int),
                old(self).in_bounds(end.x as int, end.y as int),
                (steep, x0 as int, y0 as int, x1 as int, y1 as int) == line_setup(start, end),
                dx == x1 - x0,
                0 <= ady <= dx,
                ady == abs_int(y1 - y0),
                derror2 == 2 * ady,
                x0 <= x <= x1 + 1,
                error2 == bres(dx as int, ady as int, (x - x0) as nat).1,
                y == if y1 > y0 {
                    y0 + bres(dx as int, ady as int, (x - x0) as nat).0
                } else {
                    y0 - bres(dx as int, ady as int, (x - x0) as nat).0
                },
                self.grid() == paint(g0, line_prefix(start, end, x - x0), color),
            decreases x1 + 1 - x,
        {
            let ghost i: int = x - x0;
            proof {
                lemma_bres(dx as int, ady as int, i as nat);
                assert(line_point(start, end, i) == (if steep { (y as int, x as int) } else { (
                    x as int,
                    y as int,
                ) }));
            }
            let p = if steep {
                Point::from(y, x)
            } else {
                Point::from(x, y)
            };
            proof {
                lemma_grid_rect(old(self).pixels@, self.width as int, self.height as int);
                lemma_paint_insert(
                    g0,
                    self.width as int,
                    line_prefix(start, end, i),
                    p.x as int,
                    p.y as int,
                    color,
                );
                assert(line_prefix(start, end, i + 1) =~= line_prefix(start, end, i).insert(
                    line_point(start, end, i),
                ));
            }
            self.set_pixel(p, color);
            error2 = error2 + derror2;
            if error2 > dx {
                if y1 > y0 {
                    y = y + 1;
                } else {
                    y = y - 1;
                }
                error2 = error2 - dx * 2;
            }
            x = x + 1;
        }
        proof {
            assert(line_prefix(start, end, x - x0) =~= line_pixels(start, end));
        }
    }
}

} // verus!
