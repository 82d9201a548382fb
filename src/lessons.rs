//! The named lessons: an ordered list of render operations, and those of
//! them that draw fixed geometry.

use vstd::prelude::*;
use vstd::string::StringSliceAdditionalSpecFns;
use crate::grid::{flip_rows, paint, set_cell};
use crate::line::line_pixels;
use crate::point::Point;
use crate::rgb_image::{rgb, uniform, RGBColor, RGBImage};
use crate::triangle::{fill_pixels, outline_pixels, scanline_pixels, sorted_outline};

verus! {

/// The render operation behind a lesson.
#[derive(Clone, Copy, Debug, PartialEq, Eq, Structural)]
pub enum Renderer {
    Pixel,
    Bresenham,
    Wireframe,
    Triangles,
    ColorfulWireframe,
    LightedWireframe,
    ZBuffer,
    Textured,
}

/// A lesson: a name to show, and the operation that renders it.
#[derive(Clone, Copy)]
pub struct Lesson {
    pub name: &'static str,
    pub renderer: Renderer,
}

impl Lesson {
    /// Whether the two lessons have the same name.
    pub fn same(&self, other: &Self) -> (r: bool)
        ensures
            r == (self.name@ == other.name@),
    {
        let a = self.name.as_bytes();
        let b = other.name.as_bytes();
        proof {
            vstd::utf8::encode_utf8_decode_utf8(self.name@);
            vstd::utf8::encode_utf8_decode_utf8(other.name@);
        }
        if a.len() != b.len() {
            return false;
        }
        let mut i: usize = 0;
        while i < a.len()
            invariant
                a@ == self.name.spec_bytes(),
                b@ == other.name.spec_bytes(),
                a@.len() == b@.len(),
                0 <= i <= a@.len(),
                forall|k: int| 0 <= k < i ==> a@[k] == b@[k],
            decreases a@.len() - i,
        {
            if a[i] != b[i] {
                return false;
            }
            i = i + 1;
        }
        proof {
            assert(a@ =~= b@);
        }
        true
    }
}

/// The lessons in the order in which they are offered.
pub fn lessons() -> (r: [Lesson; 8])
    ensures
        r[0].name@ == "Pixel"@ && r[0].renderer == Renderer::Pixel,
        r[1].name@ == "Bresenham"@ && r[1].renderer == Renderer::Bresenham,
        r[2].name@ == "Wireframe"@ && r[2].renderer == Renderer::Wireframe,
        r[3].name@ == "Triangles"@ && r[3].renderer == Renderer::Triangles,
        r[4].name@ == "Colorful wireframe"@ && r[4].renderer == Renderer::ColorfulWireframe,
        r[5].name@ == "Lighted Wireframe"@ && r[5].renderer == Renderer::LightedWireframe,
        r[6].name@ == "Lighted Wireframe (z buffer)"@ && r[6].renderer == Renderer::ZBuffer,
        r[7].name@ == "Textured Wireframe"@ && r[7].renderer == Renderer::Textured,
{
    [
        Lesson { name: "Pixel", renderer: Renderer::Pixel },
        Lesson { name: "Bresenham", renderer: Renderer::Bresenham },
        Lesson { name: "Wireframe", renderer: Renderer::Wireframe },
        Lesson { name: "Triangles", renderer: Renderer::Triangles },
        Lesson { name: "Colorful wireframe", renderer: Renderer::ColorfulWireframe },
        Lesson { name: "Lighted Wireframe", renderer: Renderer::LightedWireframe },
        Lesson { name: "Lighted Wireframe (z buffer)", renderer: Renderer::ZBuffer },
        Lesson { name: "Textured Wireframe", renderer: Renderer::Textured },
    ]
}

pub open spec fn pt(x: u16, y: u16) -> Point {
    Point { x, y }
}

pub open spec fn tri(a: Point, b: Point, c: Point) -> [Point; 3] {
    [a, b, c]
}

/// The triangle moved by `(dx, dy)`.
pub open spec fn shifted(t: [Point; 3], dx: int, dy: int) -> [Point; 3] {
    [
        Point { x: (t[0].x + dx) as u16, y: (t[0].y + dy) as u16 },
        Point { x: (t[1].x + dx) as u16, y: (t[1].y + dy) as u16 },
        Point { x: (t[2].x + dx) as u16, y: (t[2].y + dy) as u16 },
    ]
}

fn shift_all(t: [Point; 3], dx: i32, dy: i32) -> (r: [Point; 3])
    requires
        forall|k: int| 0 <= k < 3 ==> 0 <= #[trigger] t[k].x + dx <= u16::MAX && 0 <= t[k].y + dy <= u16::MAX,
    ensures
        r == shifted(t, dx as int, dy as int),
{
    let r = [t[0].shift(dx, dy), t[1].shift(dx, dy), t[2].shift(dx, dy)];
    assert(r =~= shifted(t, dx as int, dy as int));
    r
}

pub open spec fn triangle_a() -> [Point; 3] {
    tri(pt(10, 70), pt(50, 160), pt(70, 80))
}

pub open spec fn triangle_b() -> [Point; 3] {
    tri(pt(180, 50), pt(150, 1), pt(70, 180))
}

pub open spec fn triangle_c() -> [Point; 3] {
    tri(pt(180, 150), pt(120, 160), pt(130, 180))
}

pub open spec fn triangle_d() -> [Point; 3] {
    tri(pt(10, 10), pt(100, 30), pt(190, 160))
}

pub open spec fn red() -> RGBColor {
    rgb(255, 0, 0)
}

pub open spec fn green() -> RGBColor {
    rgb(0, 255, 0)
}

pub open spec fn white() -> RGBColor {
    rgb(255, 255, 255)
}

pub open spec fn black() -> RGBColor {
    rgb(0, 0, 0)
}

/// A single red pixel at `(10, 80)` on a black 100 × 100 image.
pub fn lesson0() -> (r: RGBImage)
    ensures
        r.wf(),
        r.width == 100 && r.height == 100,
        r.grid() == set_cell(uniform(100, 100, black()), 10, 80, red()),
{
    let mut image = RGBImage::new(100, 100, RGBColor::black());
    image.set_pixel(Point { x: 10, y: 80 }, RGBColor::red());
    image
}

/// Three lines on a black 100 × 100 image.
pub fn lesson1() -> (r: RGBImage)
    ensures
        r.wf(),
        r.width == 100 && r.height == 100,
        r.grid() == paint(
            paint(
                paint(uniform(100, 100, black()), line_pixels(pt(13, 20), pt(80, 40)), white()),
                line_pixels(pt(20, 13), pt(40, 80)),
                red(),
            ),
            line_pixels(pt(40, 80), pt(13, 20)),
            green(),
        ),
{
    let mut image = RGBImage::new(100, 100, RGBColor::black());
    image.line(Point { x: 13, y: 20 }, Point { x: 80, y: 40 }, RGBColor::white());
    image.line(Point { x: 20, y: 13 }, Point { x: 40, y: 80 }, RGBColor::red());
    image.line(Point { x: 40, y: 80 }, Point { x: 13, y: 20 }, RGBColor::green());
    image
}

/// The triangles scene before its final flip: three outlines, the same
/// three outlined by `y` order 300 pixels to the right, scanline-filled 300
/// pixels up, and one barycentric fill up and to the right.
pub open spec fn triangles_scene() -> Seq<Seq<RGBColor>> {
    let g0 = uniform(640, 640, black());
    let a = triangle_a();
    let b = triangle_b();
    let c = triangle_c();
    let g1 = paint(
        paint(
            paint(g0, outline_pixels(a[0], a[1], a[2]), red()),
            outline_pixels(b[0], b[1], b[2]),
            white(),
        ),
        outline_pixels(c[0], c[1], c[2]),
        green(),
    );
    let g2 = sorted_outline(
        sorted_outline(sorted_outline(g1, shifted(a, 300, 0)), shifted(b, 300, 0)),
        shifted(c, 300, 0),
    );
    let g3 = paint(
        paint(
            paint(g2, scanline_pixels(shifted(a, 0, 300)), red()),
            scanline_pixels(shifted(b, 0, 300)),
            white(),
        ),
        scanline_pixels(shifted(c, 0, 300)),
        green(),
    );
    paint(g3, fill_pixels(shifted(triangle_d(), 300, 300), 640, 640), red())
}

/// Outlined and filled triangles on a black 640 × 640 image, flipped to a
/// top-left origin.
pub fn lesson2() -> (r: RGBImage)
    ensures
        r.wf(),
        r.width == 640 && r.height == 640,
        r.grid() == flip_rows(triangles_scene()),
{
    let mut image = RGBImage::new(640, 640, RGBColor::black());
    let t0 = [Point { x: 10, y: 70 }, Point { x: 50, y: 160 }, Point { x: 70, y: 80 }];
    let t1 = [Point { x: 180, y: 50 }, Point { x: 150, y: 1 }, Point { x: 70, y: 180 }];
    let t2 = [Point { x: 180, y: 150 }, Point { x: 120, y: 160 }, Point { x: 130, y: 180 }];
    assert(t0 =~= triangle_a());
    assert(t1 =~= triangle_b());
    assert(t2 =~= triangle_c());

    image.triangle_v(t0, RGBColor::red());
    image.triangle_v(t1, RGBColor::white());
    image.triangle_v(t2, RGBColor::green());

    image.triangle_v_sorted(shift_all(t0, 300, 0));
    image.triangle_v_sorted(shift_all(t1, 300, 0));
    image.triangle_v_sorted(shift_all(t2, 300, 0));

    image.triangle_filed(shift_all(t0, 0, 300), RGBColor::red());
    image.triangle_filed(shift_all(t1, 0, 300), RGBColor::white());
    image.triangle_filed(shift_all(t2, 0, 300), RGBColor::green());

    let pts = [Point { x: 10, y: 10 }, Point { x: 100, y: 30 }, Point { x: 190, y: 160 }];
    assert(pts =~= triangle_d());
    image.triangle_v2(shift_all(pts, 300, 300), RGBColor::red());

    image.flip_vertically();
    image
}

} // verus!
