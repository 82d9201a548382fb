//! Depth-tested triangle filling.

use vstd::prelude::*;
use crate::grid::{grid_of, lemma_grid_rect, lemma_grid_set, lemma_index_in_range, paint, set_cell};
use crate::point::{barycentric, bary_of, inside, int2_of_i32, Barycentric, Point, Vec2, Vec3};
use crate::rgb_image::{RGBColor, RGBImage};
use crate::triangle::{bounding_box, clamped_box, covers, fill_pixels, lemma_covered_in_box};

verus! {

/// A depth as the fraction `num / den`, `den > 0`; depth grows toward the viewer.
#[derive(Clone, Copy, Debug, PartialEq, Eq, Structural)]
pub struct Depth {
    pub num: i64,
    pub den: i64,
}

impl Depth {
    pub open spec fn pair(&self) -> (int, int) {
        (self.num as int, self.den as int)
    }
}

/// The fraction `a.0 / a.1` is greater than `b.0 / b.1` (both denominators positive).
pub open spec fn nearer(a: (int, int), b: (int, int)) -> bool {
    a.0 * b.1 > b.0 * a.1
}

/// The depth that an empty buffer holds: `-1`, below every depth that a
/// triangle can have.
pub open spec fn far() -> (int, int) {
    (-1, 1)
}

/// A `width × height` grid of depths, stored row by row.
pub struct DepthBuffer {
    pub depths: Vec<Depth>,
    pub width: u16,
    pub height: u16,
}

impl DepthBuffer {
    pub open spec fn wf(&self) -> bool {
        &&& self.depths@.len() == self.width as int * self.height as int
        &&& forall|k: int| 0 <= k < self.depths@.len() ==> #[trigger] self.depths@[k].den > 0
    }

    /// The depths as rows: `grid()[y][x]` is the depth at `(x, y)`.
    pub open spec fn grid(&self) -> Seq<Seq<(int, int)>> {
        grid_of(
            self.depths@.map_values(|d: Depth| d.pair()),
            self.width as int,
            self.height as int,
        )
    }

    /// A buffer of the given size in which nothing has been drawn.
    pub fn new(width: u16, height: u16) -> (r: Self)
        ensures
            r.wf(),
            r.width == width,
            r.height == height,
            r.grid() == Seq::new(height as nat, |y: int| Seq::new(width as nat, |x: int| far())),
    {
        assert(width as int * height as int <= u32::MAX) by (nonlinear_arith)
            requires
                width <= u16::MAX,
                height <= u16::MAX,
        ;
        let n = (width as usize) * (height as usize);
        let depths = vec![Depth { num: -1, den: 1 }; n];
        let r = DepthBuffer { depths, width, height };
        proof {
            let g = Seq::new(height as nat, |y: int| Seq::new(width as nat, |x: int| far()));
            assert forall|y: int| 0 <= y < height implies r.grid()[y] =~= g[y] by {
                assert forall|x: int| 0 <= x < width implies r.grid()[y][x] == far() by {
                    lemma_index_in_range(width as int, height as int, x, y);
                }
            }
            assert(r.grid() =~= g);
        }
        r
    }

    /// The depth at `point`.
    pub fn get(&self, point: Point) -> (d: Depth)
        requires
            self.wf(),
            point.x < self.width,
            point.y < self.height,
        ensures
            d.pair() == self.grid()[point.y as int][point.x as int],
            d.den > 0,
    {
        let n = self.depths.len();
        proof {
            lemma_index_in_range(self.width as int, self.height as int, point.x as int, point.y as int);
        }
        self.depths[point.x as usize + point.y as usize * self.width as usize]
    }

    /// Stores `d` at `point`; every other depth is kept.
    pub fn set(&mut self, point: Point, d: Depth)
        requires
            old(self).wf(),
            point.x < old(self).width,
            point.y < old(self).height,
            d.den > 0,
        ensures
            final(self).wf(),
            final(self).width == old(self).width,
            final(self).height == old(self).height,
            final(self).grid() == set_cell(old(self).grid(), point.x as int, point.y as int, d.pair()),
    {
        let n = self.depths.len();
        let ghost w = self.width as int;
        let ghost h = self.height as int;
        proof {
            lemma_grid_set(
                self.depths@.map_values(|d: Depth| d.pair()),
                w,
                h,
                point.x as int,
                point.y as int,
                d.pair(),
            );
        }
        let i = point.x as usize + point.y as usize * self.width as usize;
        let ghost before = self.depths@;
        self.depths.set(i, d);
        proof {
            assert(self.depths@.map_values(|d: Depth| d.pair()) =~= before.map_values(
                |d: Depth| d.pair(),
            ).update(i as int, d.pair()));
        }
    }
}

/// The corners of a screen-space triangle without their depth.
pub open spec fn flat(pts: [Vec3<u16>; 3]) -> [Point; 3] {
    [
        Point { x: pts[0].x, y: pts[0].y },
        Point { x: pts[1].x, y: pts[1].y },
        Point { x: pts[2].x, y: pts[2].y },
    ]
}

pub open spec fn xy(p: Vec3<u16>) -> Vec2<int> {
    Vec2 { x: p.x as int, y: p.y as int }
}

/// The barycentric weights of pixel `(x, y)` against the triangle.
pub open spec fn weights_at(pts: [Vec3<u16>; 3], x: int, y: int) -> (int, int, int, int) {
    bary_of(xy(pts[0]), xy(pts[1]), xy(pts[2]), Vec2 { x, y })
}

/// The weights of pixel `(x, y)` as the rasterizer hands them to a shader.
pub open spec fn bary_at(pts: [Vec3<u16>; 3], x: int, y: int) -> Barycentric {
    let w = weights_at(pts, x, y);
    Barycentric { w0: w.0 as i128, w1: w.1 as i128, w2: w.2 as i128, d: w.3 as i128 }
}

/// The depth of the triangle at pixel `(x, y)`, interpolated from the depths
/// of its corners, as a fraction `(num, den)`.
pub open spec fn depth_at(pts: [Vec3<u16>; 3], x: int, y: int) -> (int, int) {
    let w = weights_at(pts, x, y);
    (w.0 * pts[0].z + w.1 * pts[1].z + w.2 * pts[2].z, w.3)
}

/// The triangle covers pixel `(x, y)` and is nearer there than the depth
/// stored in `zg`.
pub open spec fn visible(pts: [Vec3<u16>; 3], zg: Seq<Seq<(int, int)>>, x: int, y: int) -> bool {
    inside(weights_at(pts, x, y)) && nearer(depth_at(pts, x, y), zg[y][x])
}

/// The pixels of a `w × h` image at which the triangle passes the depth test.
pub open spec fn visible_pixels(pts: [Vec3<u16>; 3], zg: Seq<Seq<(int, int)>>, w: int, h: int) -> Set<
    (int, int),
> {
    Set::new(|p: (int, int)| 0 <= p.0 < w && 0 <= p.1 < h && visible(pts, zg, p.0, p.1))
}

/// The depths after the triangle is drawn over `zg`: each pixel at which it
/// passes the depth test takes its depth.
pub open spec fn depth_after(pts: [Vec3<u16>; 3], zg: Seq<Seq<(int, int)>>) -> Seq<Seq<(int, int)>> {
    Seq::new(
        zg.len(),
        |y: int|
            Seq::new(
                zg[y].len(),
                |x: int|
                    if visible(pts, zg, x, y) {
                        depth_at(pts, x, y)
                    } else {
                        zg[y][x]
                    },
            ),
    )
}

/// Pixel `(x2, y2)` comes before `(x, y)` in column-major order.
pub open spec fn done_before(x2: int, y2: int, x: int, y: int) -> bool {
    x2 < x || (x2 == x && y2 < y)
}

/// `depth_after` for the pixels that come before `(x, y)` alone.
pub open spec fn depth_progress(pts: [Vec3<u16>; 3], zg: Seq<Seq<(int, int)>>, x: int, y: int) -> Seq<
    Seq<(int, int)>,
> {
    Seq::new(
        zg.len(),
        |yy: int|
            Seq::new(
                zg[yy].len(),
                |xx: int|
                    if done_before(xx, yy, x, y) && visible(pts, zg, xx, yy) {
                        depth_at(pts, xx, yy)
                    } else {
                        zg[yy][xx]
                    },
            ),
    )
}

proof fn lemma_weights_small(pts: [Vec3<u16>; 3], x: int, y: int)
    requires
        0 <= x <= u16::MAX,
        0 <= y <= u16::MAX,
    ensures
        0 < weights_at(pts, x, y).3 <= 0x2_0000_0000,
        weights_at(pts, x, y).0 + weights_at(pts, x, y).1 + weights_at(pts, x, y).2 == weights_at(
            pts,
            x,
            y,
        ).3,
{
    let a = xy(pts[0]);
    let b = xy(pts[1]);
    let c = xy(pts[2]);
    let m: int = 0xffff;
    assert(-(m * m) <= (c.x - a.x) * (b.y - a.y) <= m * m) by (nonlinear_arith)
        requires
            -m <= c.x - a.x <= m,
            -m <= b.y - a.y <= m,
    ;
    assert(-(m * m) <= (b.x - a.x) * (c.y - a.y) <= m * m) by (nonlinear_arith)
        requires
            -m <= b.x - a.x <= m,
            -m <= c.y - a.y <= m,
    ;
    crate::point::lemma_bary_combination(a, b, c, Vec2 { x, y });
}

proof fn lemma_depth_small(w0: int, w1: int, w2: int, d: int, z0: int, z1: int, z2: int)
    requires
        w0 >= 0,
        w1 >= 0,
        w2 >= 0,
        w0 + w1 + w2 == d,
        d <= 0x2_0000_0000,
        0 <= z0 <= 0xffff,
        0 <= z1 <= 0xffff,
        0 <= z2 <= 0xffff,
    ensures
        0 <= w0 * z0 + w1 * z1 + w2 * z2 <= 0x2_0000_0000 * 0xffff,
{
    assert(0 <= w0 * z0 + w1 * z1 + w2 * z2 <= d * 0xffff) by (nonlinear_arith)
        requires
            w0 >= 0,
            w1 >= 0,
            w2 >= 0,
            w0 + w1 + w2 == d,
            0 <= z0 <= 0xffff,
            0 <= z1 <= 0xffff,
            0 <= z2 <= 0xffff,
    ;
}

impl RGBImage {
    /// Fills the triangle with a colour computed per pixel, behind a depth
    /// test: at each pixel that it covers, its interpolated depth is compared
    /// with the depth stored there, and only where it is strictly nearer is
    /// the depth stored and `shade` called with the pixel's barycentric
    /// weights, and its colour written.
    pub fn triangle_z_buffer_bary<F: Fn(Barycentric) -> RGBColor>(
        &mut self,
        pts: [Vec3<u16>; 3],
        z_buffer: &mut DepthBuffer,
        shade: &F,
    )
        requires
            old(self).wf(),
            old(z_buffer).wf(),
            old(z_buffer).width == old(self).width,
            old(z_buffer).height == old(self).height,
            forall|b: Barycentric| inside(b.weights()) ==> #[trigger] shade.requires((b,)),
        ensures
            final(self).wf(),
            final(self).width == old(self).width,
            final(self).height == old(self).height,
            final(z_buffer).wf(),
            final(z_buffer).width == old(z_buffer).width,
            final(z_buffer).height == old(z_buffer).height,
            final(z_buffer).grid() == depth_after(pts, old(z_buffer).grid()),
            forall|x: int, y: int|
                old(self).in_bounds(x, y) ==> if visible(pts, old(z_buffer).grid(), x, y) {
                    shade.ensures((bary_at(pts, x, y),), #[trigger] final(self).grid()[y][x])
                } else {
                    final(self).grid()[y][x] == old(self).grid()[y][x]
                },
    {
        let ghost g0 = self.grid();
        let ghost z0 = z_buffer.grid();
        let w = self.width;
        let h = self.height;
        proof {
            lemma_grid_rect(self.pixels@, w as int, h as int);
            lemma_grid_rect(
                z_buffer.depths@.map_values(|d: Depth| d.pair()),
                w as int,
                h as int,
            );
        }
        if w == 0 || h == 0 {
            proof {
                assert forall|yy: int| 0 <= yy < h implies depth_after(pts, z0)[yy] =~= z0[yy] by {}
                assert(depth_after(pts, z0) =~= z0);
            }
            return ;
        }
        let ghost corners = flat(pts);
        let (min_x, min_y, max_x, max_y) = bounding_box(
            [Point { x: pts[0].x, y: pts[0].y }, Point { x: pts[1].x, y: pts[1].y }, Point {
                x: pts[2].x,
                y: pts[2].y,
            }],
            w,
            h,
        );
        let tri = [
            Vec2 { x: pts[0].x as i32, y: pts[0].y as i32 },
            Vec2 { x: pts[1].x as i32, y: pts[1].y as i32 },
            Vec2 { x: pts[2].x as i32, y: pts[2].y as i32 },
        ];
        let z0x = pts[0].z as i128;
        let z1x = pts[1].z as i128;
        let z2x = pts[2].z as i128;
        proof {
            assert forall|x: int, y: int|
                0 <= x < w && 0 <= y < h && inside(weights_at(pts, x, y)) implies min_x <= x
                <= max_x && min_y <= y <= max_y by {
                assert(fill_pixels(corners, w as int, h as int).contains((x, y)));
                lemma_covered_in_box(corners, w as int, h as int, x, y);
            }
            assert forall|yy: int| 0 <= yy < h implies depth_progress(pts, z0, min_x as int, 0)[yy]
                =~= z0[yy] by {}
            assert(depth_progress(pts, z0, min_x as int, 0) =~= z0);
        }
        let mut x = min_x;
        while x <= max_x
            invariant
                self.wf(),
                self.width == w,
                self.height == h,
                z_buffer.wf(),
                z_buffer.width == w,
                z_buffer.height == h,
                g0 == old(self).grid(),
                z0 == old(z_buffer).grid(),
                old(self).width == w,
                old(self).height == h,
                old(self).wf(),
                old(z_buffer).wf(),
                old(z_buffer).width == w,
                old(z_buffer).height == h,
                forall|b: Barycentric| inside(b.weights()) ==> #[trigger] shade.requires((b,)),
                w > 0,
                h > 0,
                min_x <= x <= max_x + 1,
                max_x < w,
                max_y < h,
                min_y <= max_y,
                forall|xx: int, yy: int|
                    0 <= xx < w && 0 <= yy < h && inside(#[trigger] weights_at(pts, xx, yy))
                        ==> min_x <= xx <= max_x && min_y <= yy <= max_y,
                int2_of_i32(tri[0]) == xy(pts[0]),
                int2_of_i32(tri[1]) == xy(pts[1]),
                int2_of_i32(tri[2]) == xy(pts[2]),
                z0x == pts[0].z && z1x == pts[1].z && z2x == pts[2].z,
                z_buffer.grid() == depth_progress(pts, z0, x as int, 0),
                forall|xx: int, yy: int|
                    0 <= xx < w && 0 <= yy < h ==> if done_before(xx, yy, x as int, 0) && visible(
                        pts,
                        z0,
                        xx,
                        yy,
                    ) {
                        shade.ensures((bary_at(pts, xx, yy),), #[trigger] self.grid()[yy][xx])
                    } else {
                        self.grid()[yy][xx] == g0[yy][xx]
                    },
            decreases max_x + 1 - x,
        {
            proof {
                assert forall|yy: int| 0 <= yy < h implies depth_progress(pts, z0, x as int, 0)[yy]
                    =~= depth_progress(pts, z0, x as int, min_y as int)[yy] by {}
                assert(depth_progress(pts, z0, x as int, 0) =~= depth_progress(
                    pts,
                    z0,
                    x as int,
                    min_y as int,
                ));
            }
            let mut y = min_y;
            while y <= max_y
                invariant
                    self.wf(),
                    self.width == w,
                    self.height == h,
                    z_buffer.wf(),
                    z_buffer.width == w,
                    z_buffer.height == h,
                    g0 == old(self).grid(),
                    z0 == old(z_buffer).grid(),
                    old(self).width == w,
                    old(self).height == h,
                    old(self).wf(),
                    old(z_buffer).wf(),
                    old(z_buffer).width == w,
                    old(z_buffer).height == h,
                    forall|b: Barycentric| inside(b.weights()) ==> #[trigger] shade.requires((b,)),
                    min_x <= x <= max_x,
                    min_y <= y <= max_y + 1,
                    max_x < w,
                    max_y < h,
                    forall|xx: int, yy: int|
                        0 <= xx < w && 0 <= yy < h && inside(#[trigger] weights_at(pts, xx, yy))
                            ==> min_x <= xx <= max_x && min_y <= yy <= max_y,
                    int2_of_i32(tri[0]) == xy(pts[0]),
                    int2_of_i32(tri[1]) == xy(pts[1]),
                    int2_of_i32(tri[2]) == xy(pts[2]),
                    z0x == pts[0].z && z1x == pts[1].z && z2x == pts[2].z,
                    z_buffer.grid() == depth_progress(pts, z0, x as int, y as int),
                    forall|xx: int, yy: int|
                        0 <= xx < w && 0 <= yy < h ==> if done_before(xx, yy, x as int, y as int)
                            && visible(pts, z0, xx, yy) {
                            shade.ensures((bary_at(pts, xx, yy),), #[trigger] self.grid()[yy][xx])
                        } else {
                            self.grid()[yy][xx] == g0[yy][xx]
                        },
                decreases max_y + 1 - y,
            {
                let bc = barycentric(tri, Vec2 { x: x as i32, y: y as i32 });
                let ghost zg = z_buffer.grid();
                let ghost gg = self.grid();
                if bc.w0 >= 0 && bc.w1 >= 0 && bc.w2 >= 0 {
                    proof {
                        lemma_weights_small(pts, x as int, y as int);
                        lemma_depth_small(
                            bc.w0 as int,
                            bc.w1 as int,
                            bc.w2 as int,
                            bc.d as int,
                            pts[0].z as int,
                            pts[1].z as int,
                            pts[2].z as int,
                        );
                        assert(bc.w0 * z0x <= bc.d * 0xffff) by (nonlinear_arith)
                            requires
                                0 <= bc.w0 <= bc.d,
                                0 <= z0x <= 0xffff,
                        ;
                        assert(bc.w1 * z1x <= bc.d * 0xffff) by (nonlinear_arith)
                            requires
                                0 <= bc.w1 <= bc.d,
                                0 <= z1x <= 0xffff,
                        ;
                        assert(bc.w2 * z2x <= bc.d * 0xffff) by (nonlinear_arith)
                            requires
                                0 <= bc.w2 <= bc.d,
                                0 <= z2x <= 0xffff,
                        ;
                        assert(0 <= bc.w0 * z0x && 0 <= bc.w1 * z1x && 0 <= bc.w2 * z2x)
                            by (nonlinear_arith)
                            requires
                                0 <= bc.w0,
                                0 <= bc.w1,
                                0 <= bc.w2,
                                0 <= z0x,
                                0 <= z1x,
                                0 <= z2x,
                        ;
                    }
                    let num = bc.w0 * z0x + bc.w1 * z1x + bc.w2 * z2x;
                    let here = Point { x, y };
                    let cur = z_buffer.get(here);
                    proof {
                        assert(-0x8000_0000_0000_0000 <= cur.num <= 0x7fff_ffff_ffff_ffff);
                        assert(-0x100_0000_0000_0000_0000_0000_0000_0000 <= num * (cur.den as i128)
                            <= 0x100_0000_0000_0000_0000_0000_0000_0000) by (nonlinear_arith)
                            requires
                                0 <= num <= 0x2_0000_0000 * 0xffff,
                                0 < cur.den <= 0x7fff_ffff_ffff_ffff,
                        ;
                        assert(-0x100_0000_0000_0000_0000_0000_0000_0000 <= (cur.num as i128) * bc.d
                            <= 0x100_0000_0000_0000_0000_0000_0000_0000) by (nonlinear_arith)
                            requires
                                -0x8000_0000_0000_0000 <= cur.num <= 0x7fff_ffff_ffff_ffff,
                                0 < bc.d <= 0x2_0000_0000,
                        ;
                        assert(zg[y as int][x as int] == z0[y as int][x as int]);
                        assert(depth_at(pts, x as int, y as int) == (num as int, bc.d as int));
                    }
                    if num * (cur.den as i128) > (cur.num as i128) * bc.d {
                        let c = shade(bc);
                        z_buffer.set(here, Depth { num: num as i64, den: bc.d as i64 });
                        self.set_pixel(here, c);
                        proof {
                            assert(bc == bary_at(pts, x as int, y as int));
                            assert(z_buffer.grid() =~= depth_progress(pts, z0, x as int, y + 1)) by {
                                assert forall|yy: int| 0 <= yy < h implies z_buffer.grid()[yy]
                                    =~= depth_progress(pts, z0, x as int, y + 1)[yy] by {}
                            }
                        }
                    } else {
                        proof {
                            assert(z_buffer.grid() =~= depth_progress(pts, z0, x as int, y + 1)) by {
                                assert forall|yy: int| 0 <= yy < h implies z_buffer.grid()[yy]
                                    =~= depth_progress(pts, z0, x as int, y + 1)[yy] by {}
                            }
                        }
                    }
                } else {
                    proof {
                        assert(z_buffer.grid() =~= depth_progress(pts, z0, x as int, y + 1)) by {
                            assert forall|yy: int| 0 <= yy < h implies z_buffer.grid()[yy]
                                =~= depth_progress(pts, z0, x as int, y + 1)[yy] by {}
                        }
                    }
                }
                y = y + 1;
            }
            proof {
                assert forall|yy: int| 0 <= yy < h implies depth_progress(pts, z0, x as int, y as int)[yy]
                    =~= depth_progress(pts, z0, x + 1, 0)[yy] by {}
                assert(depth_progress(pts, z0, x as int, y as int) =~= depth_progress(
                    pts,
                    z0,
                    x + 1,
                    0,
                ));
            }
            x = x + 1;
        }
        proof {
            assert forall|yy: int| 0 <= yy < h implies depth_progress(pts, z0, x as int, 0)[yy]
                =~= depth_after(pts, z0)[yy] by {}
            assert(depth_progress(pts, z0, x as int, 0) =~= depth_after(pts, z0));
        }
    }
}

impl RGBImage {
    /// Fills the triangle with `color` behind a depth test: each pixel that
    /// it covers and at which it is strictly nearer than the stored depth
    /// takes `color`, and its depth is stored.
    pub fn triangle_z_buffer(&mut self, pts: [Vec3<u16>; 3], z_buffer: &mut DepthBuffer, color: RGBColor)
        requires
            old(self).wf(),
            old(z_buffer).wf(),
            old(z_buffer).width == old(self).width,
            old(z_buffer).height == old(self).height,
        ensures
            final(self).wf(),
            final(self).width == old(self).width,
            final(self).height == old(self).height,
            final(z_buffer).wf(),
            final(z_buffer).width == old(z_buffer).width,
            final(z_buffer).height == old(z_buffer).height,
            final(z_buffer).grid() == depth_after(pts, old(z_buffer).grid()),
            final(self).grid() == paint(
                old(self).grid(),
                visible_pixels(pts, old(z_buffer).grid(), old(self).width as int, old(self).height as int),
                color,
            ),
    {
        let ghost g0 = self.grid();
        let ghost z0 = z_buffer.grid();
        let ghost w = self.width as int;
        let ghost h = self.height as int;
        let shade = |b: Barycentric| -> (c: RGBColor)
            ensures
                c == color,
            { color };
        self.triangle_z_buffer_bary(pts, z_buffer, &shade);
        proof {
            let g1 = paint(g0, visible_pixels(pts, z0, w, h), color);
            assert forall|yy: int| 0 <= yy < h implies self.grid()[yy] =~= g1[yy] by {
                assert forall|xx: int| 0 <= xx < w implies self.grid()[yy][xx] == g1[yy][xx] by {
                    assert(old(self).in_bounds(xx, yy));
                }
            }
            assert(self.grid() =~= g1);
        }
    }
}

/// The depths of a `w × h` buffer in which nothing has been drawn.
pub open spec fn empty_depths(w: int, h: int) -> Seq<Seq<(int, int)>> {
    Seq::new(h as nat, |y: int| Seq::new(w as nat, |x: int| far()))
}

proof fn lemma_depth_nonneg(pts: [Vec3<u16>; 3], x: int, y: int)
    requires
        inside(weights_at(pts, x, y)),
    ensures
        depth_at(pts, x, y).0 >= 0,
        depth_at(pts, x, y).1 > 0,
{
    let w = weights_at(pts, x, y);
    crate::point::lemma_bary_combination(xy(pts[0]), xy(pts[1]), xy(pts[2]), Vec2 { x, y });
    let (z0, z1, z2) = (pts[0].z as int, pts[1].z as int, pts[2].z as int);
    assert(w.0 * z0 + w.1 * z1 + w.2 * z2 >= 0) by (nonlinear_arith)
        requires
            w.0 >= 0,
            w.1 >= 0,
            w.2 >= 0,
            z0 >= 0,
            z1 >= 0,
            z2 >= 0,
    ;
}

/// Whichever of two triangles is drawn first into an empty depth buffer, a
/// pixel that both cover, at which their depths differ, ends up in the
/// colour of the one that is nearer there.
pub proof fn lemma_nearer_triangle_wins(
    t1: [Vec3<u16>; 3],
    c1: RGBColor,
    t2: [Vec3<u16>; 3],
    c2: RGBColor,
    g: Seq<Seq<RGBColor>>,
    w: int,
    h: int,
    x: int,
    y: int,
)
    requires
        g.len() == h,
        forall|yy: int| 0 <= yy < h ==> #[trigger] g[yy].len() == w,
        0 <= x < w,
        0 <= y < h,
        inside(weights_at(t1, x, y)),
        inside(weights_at(t2, x, y)),
        depth_at(t1, x, y).0 * depth_at(t2, x, y).1 != depth_at(t2, x, y).0 * depth_at(t1, x, y).1,
    ensures
        ({
            let z0 = empty_depths(w, h);
            let near = if nearer(depth_at(t1, x, y), depth_at(t2, x, y)) {
                c1
            } else {
                c2
            };
            let first_then_second = paint(
                paint(g, visible_pixels(t1, z0, w, h), c1),
                visible_pixels(t2, depth_after(t1, z0), w, h),
                c2,
            );
            let second_then_first = paint(
                paint(g, visible_pixels(t2, z0, w, h), c2),
                visible_pixels(t1, depth_after(t2, z0), w, h),
                c1,
            );
            first_then_second[y][x] == near && second_then_first[y][x] == near
        }),
{
    lemma_depth_nonneg(t1, x, y);
    lemma_depth_nonneg(t2, x, y);
    let z0 = empty_depths(w, h);
    assert(visible(t1, z0, x, y));
    assert(visible(t2, z0, x, y));
    assert(depth_after(t1, z0)[y][x] == depth_at(t1, x, y));
    assert(depth_after(t2, z0)[y][x] == depth_at(t2, x, y));
}

} // verus!
