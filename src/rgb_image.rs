//! Colours and the colour framebuffer.

use vstd::prelude::*;
use crate::grid::{
    flip_rows, grid_of, is_rect, lemma_grid_set, lemma_index_in_range, set_cell,
};
use crate::point::Point;

verus! {

/// A 24-bit colour; the channels are declared in the order in which the
/// image encoding stores them.
#[derive(Clone, Copy, Debug, PartialEq, Eq, Structural)]
pub struct RGBColor {
    pub b: u8,
    pub g: u8,
    pub r: u8,
}

/// The colour with the given red, green and blue channels.
pub open spec fn rgb(r: u8, g: u8, b: u8) -> RGBColor {
    RGBColor { b, g, r }
}

impl RGBColor {
    pub fn new(r: u8, g: u8, b: u8) -> (c: RGBColor)
        ensures
            c == rgb(r, g, b),
    {
        RGBColor { b, g, r }
    }

    pub fn white() -> (c: RGBColor)
        ensures
            c == rgb(255, 255, 255),
    {
        RGBColor::new(255, 255, 255)
    }

    pub fn black() -> (c: RGBColor)
        ensures
            c == rgb(0, 0, 0),
    {
        RGBColor::new(0, 0, 0)
    }

    pub fn red() -> (c: RGBColor)
        ensures
            c == rgb(255, 0, 0),
    {
        RGBColor::new(255, 0, 0)
    }

    pub fn green() -> (c: RGBColor)
        ensures
            c == rgb(0, 255, 0),
    {
        RGBColor::new(0, 255, 0)
    }

    pub fn blue() -> (c: RGBColor)
        ensures
            c == rgb(0, 0, 255),
    {
        RGBColor::new(0, 0, 255)
    }

    /// A colour drawn from the generator: blue, then green, then red, each
    /// one byte of the generator's sequence.
    pub fn random(rng: &mut Lcg) -> (c: RGBColor)
        ensures
            c == rgb(
                byte_of(lcg_step(lcg_step(lcg_step(old(rng).state)))),
                byte_of(lcg_step(lcg_step(old(rng).state))),
                byte_of(lcg_step(old(rng).state)),
            ),
            final(rng).state == lcg_step(lcg_step(lcg_step(old(rng).state))),
    {
        let b = rng.random_byte();
        let g = rng.random_byte();
        let r = rng.random_byte();
        RGBColor { b, g, r }
    }
}

/// One step of the Park-Miller (Lehmer) generator.
pub open spec fn lcg_step(state: u32) -> u32 {
    ((state as int * 48271) % 0x7fff_ffff) as u32
}

/// The byte that a generator state yields.
pub open spec fn byte_of(state: u32) -> u8 {
    (state % 255) as u8
}

/// One step of the Park-Miller (Lehmer) generator.
pub fn lcg_parkmiller(state: u32) -> (r: u32)
    ensures
        r == lcg_step(state),
{
    ((state as u64) * 48271 % 0x7fff_ffff) as u32
}

/// A pseudo-random generator with explicit state, so that a fixed seed gives
/// a fixed sequence of colours.
pub struct Lcg {
    pub state: u32,
}

impl Lcg {
    pub fn new(seed: u32) -> (r: Lcg)
        ensures
            r.state == seed,
    {
        Lcg { state: seed }
    }

    /// Advances the generator and returns the byte of its new state.
    pub fn random_byte(&mut self) -> (r: u8)
        ensures
            final(self).state == lcg_step(old(self).state),
            r == byte_of(final(self).state),
    {
        self.state = lcg_parkmiller(self.state);
        (self.state % 255) as u8
    }
}


/// The `w × h` grid with every cell `c`.
pub open spec fn uniform(w: int, h: int, c: RGBColor) -> Seq<Seq<RGBColor>> {
    Seq::new(h as nat, |y: int| Seq::new(w as nat, |x: int| c))
}

/// A `width × height` grid of colours, stored row by row.
pub struct RGBImage {
    pub pixels: Vec<RGBColor>,
    pub width: u16,
    pub height: u16,
}

impl RGBImage {
    /// The buffer holds exactly one colour per pixel.
    pub open spec fn wf(&self) -> bool {
        self.pixels@.len() == self.width as int * self.height as int
    }

    /// The pixels as rows: `grid()[y][x]` is the colour at `(x, y)`.
    pub open spec fn grid(&self) -> Seq<Seq<RGBColor>> {
        grid_of(self.pixels@, self.width as int, self.height as int)
    }

    /// Whether `(x, y)` is a pixel of the image.
    pub open spec fn in_bounds(&self, x: int, y: int) -> bool {
        0 <= x < self.width && 0 <= y < self.height
    }

    /// An image of the given size with every pixel set to `color`.
    pub fn new(width: u16, height: u16, color: RGBColor) -> (r: Self)
        ensures
            r.wf(),
            r.width == width,
            r.height == height,
            r.grid() == uniform(width as int, height as int, color),
    {
        assert(width as int * height as int <= u32::MAX) by (nonlinear_arith)
            requires
                width <= u16::MAX,
                height <= u16::MAX,
        ;
        let n = (width as usize) * (height as usize);
        let pixels = vec![color; n];
        let r = RGBImage { pixels, width, height };
        proof {
            let g = Seq::new(height as nat, |y: int| Seq::new(width as nat, |x: int| color));
            assert forall|y: int| 0 <= y < height implies r.grid()[y] =~= g[y] by {
                assert forall|x: int| 0 <= x < width implies r.grid()[y][x] == color by {
                    lemma_index_in_range(width as int, height as int, x, y);
                }
            }
            assert(r.grid() =~= g);
        }
        r
    }

    /// The colour at `point`.
    pub fn get_pixel(&self, point: Point) -> (c: RGBColor)
        requires
            self.wf(),
            self.in_bounds(point.x as int, point.y as int),
        ensures
            c == self.grid()[point.y as int][point.x as int],
    {
        let n = self.pixels.len();
        proof {
            lemma_index_in_range(self.width as int, self.height as int, point.x as int, point.y as int);
        }
        self.pixels[point.x as usize + point.y as usize * self.width as usize]
    }

    /// Writes `color` at `point`; every other pixel keeps its colour.
    pub fn set_pixel(&mut self, point: Point, color: RGBColor)
        requires
            old(self).wf(),
            old(self).in_bounds(point.x as int, point.y as int),
        ensures
            final(self).wf(),
            final(self).width == old(self).width,
            final(self).height == old(self).height,
            final(self).grid() == set_cell(old(self).grid(), point.x as int, point.y as int, color),
    {
        let n = self.pixels.len();
        proof {
            lemma_grid_set(
                self.pixels@,
                self.width as int,
                self.height as int,
                point.x as int,
                point.y as int,
                color,
            );
        }
        let i = point.x as usize + point.y as usize * self.width as usize;
        self.pixels.set(i, color);
    }

    /// Swaps row `y` with row `height - 1 - y` for every `y` in the lower half,
    /// turning a bottom-left origin into a top-left one and back.
    pub fn flip_vertically(&mut self)
        requires
            old(self).wf(),
        ensures
            final(self).wf(),
            final(self).width == old(self).width,
            final(self).height == old(self).height,
            final(self).grid() == flip_rows(old(self).grid()),
    {
        let w = self.width;
        let h = self.height;
        let ghost g0 = self.grid();
        proof {
            let g1 = flip_progress(g0, 0, 0);
            assert forall|yy: int| 0 <= yy < h implies g0[yy] =~= g1[yy] by {}
            assert(g0 =~= g1);
        }
        let mut y: u16 = 0;
        while y < h / 2
            invariant
                self.wf(),
                self.width == w,
                self.height == h,
                g0.len() == h,
                is_rect(g0, w as int),
                y <= h / 2,
                self.grid() == flip_progress(g0, y as int, 0),
            decreases h / 2 - y,
        {
            let mut x: u16 = 0;
            while x < w
                invariant
                    self.wf(),
                    self.width == w,
                    self.height == h,
                    g0.len() == h,
                    is_rect(g0, w as int),
                    y < h / 2,
                    x <= w,
                    self.grid() == flip_progress(g0, y as int, x as int),
                decreases w - x,
            {
                let top = Point { x, y };
                let bottom = Point { x, y: h - 1 - y };
                let a = self.get_pixel(top);
                let b = self.get_pixel(bottom);
                self.set_pixel(top, b);
                self.set_pixel(bottom, a);
                proof {
                    let g1 = flip_progress(g0, y as int, x + 1);
                    assert forall|yy: int| 0 <= yy < h implies self.grid()[yy] =~= g1[yy] by {}
                    assert(self.grid() =~= g1);
                }
                x = x + 1;
            }
            proof {
                let g1 = flip_progress(g0, y + 1, 0);
                assert forall|yy: int| 0 <= yy < h implies self.grid()[yy] =~= g1[yy] by {}
                assert(self.grid() =~= g1);
            }
            y = y + 1;
        }
        proof {
            let g1 = flip_rows(g0);
            assert forall|yy: int| 0 <= yy < h implies self.grid()[yy] =~= g1[yy] by {}
            assert(self.grid() =~= g1);
        }
    }
}

/// The grid part-way through a vertical flip: the first `y` rows and the
/// last `y` rows are swapped, and of the pair of rows `y` and `len - 1 - y`
/// the columns left of `x`.
pub open spec fn flip_progress<T>(g: Seq<Seq<T>>, y: int, x: int) -> Seq<Seq<T>> {
    Seq::new(
        g.len(),
        |yy: int|
            Seq::new(
                g[yy].len(),
                |xx: int|
                    if yy < y || yy > g.len() - 1 - y || ((yy == y || yy == g.len() - 1 - y)
                        && xx < x) {
                        g[g.len() - 1 - yy][xx]
                    } else {
                        g[yy][xx]
                    },
            ),
    )
}

} // verus!
