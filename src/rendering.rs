//! Drawing a mesh whose vertices are already projected to screen pixels:
//! every face is looked up through its index triples and drawn, as a
//! wireframe, filled in a colour of its own, or filled behind a depth test.

use vstd::prelude::*;
use crate::grid::{lemma_paint_union, paint};
use crate::line::line_pixels;
use crate::point::{Point, Vec3};
use crate::rgb_image::{byte_of, lcg_step, rgb, Lcg, RGBColor, RGBImage};
use crate::triangle::scanline_pixels;
use crate::zbuffer::{depth_after, empty_depths, visible_pixels, DepthBuffer};
use crate::wireframe::Face;

verus! {

/// Every face refers to projected vertices, each of them a pixel of `img`.
pub open spec fn mesh_on_screen(img: RGBImage, faces: Seq<[Face; 3]>, screen: Seq<Point>) -> bool {
    forall|i: int, k: int|
        0 <= i < faces.len() && 0 <= k < 3 ==> {
            let v = (#[trigger] faces[i][k]).vertex_index as int;
            &&& v < screen.len()
            &&& img.in_bounds(screen[v].x as int, screen[v].y as int)
        }
}

/// The screen position of corner `k` of face `f`.
pub open spec fn corner_point(screen: Seq<Point>, f: [Face; 3], k: int) -> Point {
    screen[f[k].vertex_index as int]
}

/// The pixels of edge `j` of face `f`: from corner `j` to corner `j + 1`
/// (modulo 3).
pub open spec fn edge_pixels(screen: Seq<Point>, f: [Face; 3], j: int) -> Set<(int, int)> {
    line_pixels(corner_point(screen, f, j), corner_point(screen, f, (j + 1) % 3))
}

/// The pixels of the edges drawn before edge `j` of face `i`.
pub open spec fn frame_prefix(faces: Seq<[Face; 3]>, screen: Seq<Point>, i: int, j: int) -> Set<
    (int, int),
> {
    Set::new(
        |p: (int, int)|
            exists|a: int, b: int|
                0 <= a < faces.len() && 0 <= b < 3 && (a < i || (a == i && b < j))
                    && #[trigger] edge_pixels(screen, faces[a], b).contains(p),
    )
}

/// The pixels of every edge of every face.
pub open spec fn frame_pixels(faces: Seq<[Face; 3]>, screen: Seq<Point>) -> Set<(int, int)> {
    frame_prefix(faces, screen, faces.len() as int, 0)
}

/// The colour that a generator in `state` draws next.
pub open spec fn color_from(state: u32) -> RGBColor {
    rgb(
        byte_of(lcg_step(lcg_step(lcg_step(state)))),
        byte_of(lcg_step(lcg_step(state))),
        byte_of(lcg_step(state)),
    )
}

/// The generator state after a colour is drawn for each of `n` faces.
pub open spec fn state_after_faces(state: u32, n: nat) -> u32
    decreases n,
{
    if n == 0 {
        state
    } else {
        let s = state_after_faces(state, (n - 1) as nat);
        lcg_step(lcg_step(lcg_step(s)))
    }
}

/// The screen corners of a face.
pub open spec fn face_triangle(screen: Seq<Point>, f: [Face; 3]) -> [Point; 3] {
    [
        screen[f[0].vertex_index as int],
        screen[f[1].vertex_index as int],
        screen[f[2].vertex_index as int],
    ]
}

/// The grid after the first `n` faces are scanline-filled over `g`, each in
/// the next colour of a generator that starts in `state`.
pub open spec fn random_fill(
    g: Seq<Seq<RGBColor>>,
    faces: Seq<[Face; 3]>,
    screen: Seq<Point>,
    state: u32,
    n: nat,
) -> Seq<Seq<RGBColor>>
    decreases n,
{
    if n == 0 {
        g
    } else {
        paint(
            random_fill(g, faces, screen, state, (n - 1) as nat),
            scanline_pixels(face_triangle(screen, faces[n - 1])),
            color_from(state_after_faces(state, (n - 1) as nat)),
        )
    }
}

/// Every face that has a shade refers to projected vertices, each of them a
/// pixel of `img`.
pub open spec fn shaded_on_screen(
    img: RGBImage,
    faces: Seq<[Face; 3]>,
    screen: Seq<Point>,
    shades: Seq<Option<RGBColor>>,
) -> bool {
    forall|i: int, k: int|
        0 <= i < faces.len() && 0 <= k < 3 && shades[i] is Some ==> {
            let v = (#[trigger] faces[i][k]).vertex_index as int;
            &&& v < screen.len()
            &&& img.in_bounds(screen[v].x as int, screen[v].y as int)
        }
}

/// The grid after the first `n` faces are scanline-filled over `g`, each in
/// its shade; a face without a shade is skipped.
pub open spec fn shaded_fill(
    g: Seq<Seq<RGBColor>>,
    faces: Seq<[Face; 3]>,
    screen: Seq<Point>,
    shades: Seq<Option<RGBColor>>,
    n: nat,
) -> Seq<Seq<RGBColor>>
    decreases n,
{
    if n == 0 {
        g
    } else {
        let prev = shaded_fill(g, faces, screen, shades, (n - 1) as nat);
        match shades[n - 1] {
            Some(c) => paint(prev, scanline_pixels(face_triangle(screen, faces[n - 1])), c),
            None => prev,
        }
    }
}

/// The screen corners, with depth, of a face.
pub open spec fn face_triangle_3d(screen: Seq<Vec3<u16>>, f: [Face; 3]) -> [Vec3<u16>; 3] {
    [
        screen[f[0].vertex_index as int],
        screen[f[1].vertex_index as int],
        screen[f[2].vertex_index as int],
    ]
}

/// The colours and depths after the first `n` faces are drawn over `(g, z)`
/// with the depth test, each in its shade, in a `w × h` image; a face
/// without a shade is skipped.
pub open spec fn depth_fill(
    g: Seq<Seq<RGBColor>>,
    z: Seq<Seq<(int, int)>>,
    faces: Seq<[Face; 3]>,
    screen: Seq<Vec3<u16>>,
    shades: Seq<Option<RGBColor>>,
    w: int,
    h: int,
    n: nat,
) -> (Seq<Seq<RGBColor>>, Seq<Seq<(int, int)>>)
    decreases n,
{
    if n == 0 {
        (g, z)
    } else {
        let prev = depth_fill(g, z, faces, screen, shades, w, h, (n - 1) as nat);
        let t = face_triangle_3d(screen, faces[n - 1]);
        match shades[n - 1] {
            Some(c) => (paint(prev.0, visible_pixels(t, prev.1, w, h), c), depth_after(t, prev.1)),
            None => prev,
        }
    }
}

impl RGBImage {
    /// Draws the edges of every face in `color`; `screen` holds the projected
    /// position of each vertex.
    pub fn render_frame(&mut self, faces: &Vec<[Face; 3]>, screen: &Vec<Point>, color: RGBColor)
        requires
            old(self).wf(),
            mesh_on_screen(*old(self), faces@, screen@),
        ensures
            final(self).wf(),
            final(self).width == old(self).width,
            final(self).height == old(self).height,
            final(self).grid() == paint(old(self).grid(), frame_pixels(faces@, screen@), color),
    {
        let ghost g0 = self.grid();
        proof {
            assert forall|yy: int| 0 <= yy < g0.len() implies paint(g0, Set::empty(), color)[yy]
                =~= g0[yy] by {}
            assert(paint(g0, Set::empty(), color) =~= g0);
            assert(frame_prefix(faces@, screen@, 0, 0) =~= Set::empty());
        }
        let mut i: usize = 0;
        while i < faces.len()
            invariant
                self.wf(),
                self.width == old(self).width,
                self.height == old(self).height,
                g0 == old(self).grid(),
                mesh_on_screen(*old(self), faces@, screen@),
                0 <= i <= faces@.len(),
                self.grid() == paint(g0, frame_prefix(faces@, screen@, i as int, 0), color),
            decreases faces@.len() - i,
        {
            let face = faces[i];
            let mut j: usize = 0;
            while j < 3
                invariant
                    self.wf(),
                    self.width == old(self).width,
                    self.height == old(self).height,
                    g0 == old(self).grid(),
                    mesh_on_screen(*old(self), faces@, screen@),
                    0 <= i < faces@.len(),
                    face == faces@[i as int],
                    0 <= j <= 3,
                    self.grid() == paint(g0, frame_prefix(faces@, screen@, i as int, j as int), color),
                decreases 3 - j,
            {
                let next = if j == 2 {
                    0
                } else {
                    j + 1
                };
                proof {
                    assert(faces@[i as int][j as int].vertex_index < screen@.len());
                    assert(faces@[i as int][next as int].vertex_index < screen@.len());
                }
                let a = screen[face[j].vertex_index];
                let b = screen[face[next].vertex_index];
                proof {
                    assert(old(self).in_bounds(a.x as int, a.y as int));
                    assert(old(self).in_bounds(b.x as int, b.y as int));
                }
                self.line(a, b, color);
                proof {
                    let s = frame_prefix(faces@, screen@, i as int, j as int);
                    let e = edge_pixels(screen@, face, j as int);
                    assert(e == line_pixels(a, b));
                    lemma_paint_union(g0, s, e, color);
                    assert(frame_prefix(faces@, screen@, i as int, j + 1) =~= s.union(e)) by {
                        assert forall|p: (int, int)| #![auto]
                            frame_prefix(faces@, screen@, i as int, j + 1).contains(p) implies s.union(
                            e,
                        ).contains(p) by {
                            let (a2, b2) = choose|a2: int, b2: int|
                                0 <= a2 < faces@.len() && 0 <= b2 < 3 && (a2 < i || (a2 == i && b2
                                    < j + 1)) && #[trigger] edge_pixels(screen@, faces@[a2], b2).contains(p);
                            if !(a2 == i && b2 == j) {
                                assert(s.contains(p));
                            }
                        }
                    }
                }
                j = j + 1;
            }
            proof {
                assert(frame_prefix(faces@, screen@, i as int, 3) =~= frame_prefix(
                    faces@,
                    screen@,
                    i + 1,
                    0,
                ));
            }
            i = i + 1;
        }
    }

    /// Scanline-fills one face in the next colour of the generator.
    fn fill_face(&mut self, face: [Face; 3], screen: &Vec<Point>, rng: &mut Lcg)
        requires
            old(self).wf(),
            face[0].vertex_index < screen@.len(),
            face[1].vertex_index < screen@.len(),
            face[2].vertex_index < screen@.len(),
            old(self).in_bounds(
                screen@[face[0].vertex_index as int].x as int,
                screen@[face[0].vertex_index as int].y as int,
            ),
            old(self).in_bounds(
                screen@[face[1].vertex_index as int].x as int,
                screen@[face[1].vertex_index as int].y as int,
            ),
            old(self).in_bounds(
                screen@[face[2].vertex_index as int].x as int,
                screen@[face[2].vertex_index as int].y as int,
            ),
        ensures
            final(self).wf(),
            final(self).width == old(self).width,
            final(self).height == old(self).height,
            final(self).grid() == paint(
                old(self).grid(),
                scanline_pixels(face_triangle(screen@, face)),
                color_from(old(rng).state),
            ),
            final(rng).state == lcg_step(lcg_step(lcg_step(old(rng).state))),
    {
        let pts = [
            screen[face[0].vertex_index],
            screen[face[1].vertex_index],
            screen[face[2].vertex_index],
        ];
        assert(pts == face_triangle(screen@, face));
        let c = RGBColor::random(rng);
        self.triangle_filed(pts, c);
    }

    /// Scanline-fills every face, each in the next colour that the generator
    /// draws; `screen` holds the projected position of each vertex.
    pub fn render_random(&mut self, faces: &Vec<[Face; 3]>, screen: &Vec<Point>, rng: &mut Lcg)
        requires
            old(self).wf(),
            mesh_on_screen(*old(self), faces@, screen@),
        ensures
            final(self).wf(),
            final(self).width == old(self).width,
            final(self).height == old(self).height,
            final(self).grid() == random_fill(
                old(self).grid(),
                faces@,
                screen@,
                old(rng).state,
                faces@.len(),
            ),
            final(rng).state == state_after_faces(old(rng).state, faces@.len()),
    {
        let ghost g0 = self.grid();
        let ghost s0 = rng.state;
        let mut i: usize = 0;
        while i < faces.len()
            invariant
                self.wf(),
                self.width == old(self).width,
                self.height == old(self).height,
                g0 == old(self).grid(),
                s0 == old(rng).state,
                mesh_on_screen(*old(self), faces@, screen@),
                0 <= i <= faces@.len(),
                rng.state == state_after_faces(s0, i as nat),
                self.grid() == random_fill(g0, faces@, screen@, s0, i as nat),
            decreases faces@.len() - i,
        {
            let face = faces[i];
            self.fill_face(face, screen, rng);
            i = i + 1;
        }
    }

    /// Scanline-fills every face that has a shade in that shade;
    /// `screen` holds the projected position of each vertex.
    pub fn render_light(
        &mut self,
        faces: &Vec<[Face; 3]>,
        screen: &Vec<Point>,
        shades: &Vec<Option<RGBColor>>,
    )
        requires
            old(self).wf(),
            shades@.len() == faces@.len(),
            shaded_on_screen(*old(self), faces@, screen@, shades@),
        ensures
            final(self).wf(),
            final(self).width == old(self).width,
            final(self).height == old(self).height,
            final(self).grid() == shaded_fill(
                old(self).grid(),
                faces@,
                screen@,
                shades@,
                faces@.len(),
            ),
    {
        let ghost g0 = self.grid();
        let mut i: usize = 0;
        while i < faces.len()
            invariant
                self.wf(),
                self.width == old(self).width,
                self.height == old(self).height,
                g0 == old(self).grid(),
                shades@.len() == faces@.len(),
                shaded_on_screen(*old(self), faces@, screen@, shades@),
                0 <= i <= faces@.len(),
                self.grid() == shaded_fill(g0, faces@, screen@, shades@, i as nat),
            decreases faces@.len() - i,
        {
            if let Some(c) = shades[i] {
                let face = faces[i];
                let pts = [
                    screen[face[0].vertex_index],
                    screen[face[1].vertex_index],
                    screen[face[2].vertex_index],
                ];
                assert(pts == face_triangle(screen@, face));
                self.triangle_filed(pts, c);
            }
            i = i + 1;
        }
    }

    /// Draws every face that has a shade with the depth test, in that shade,
    /// into a fresh depth buffer; `screen` holds the projected position and
    /// depth of each vertex.
    pub fn render_z_buffer(
        &mut self,
        faces: &Vec<[Face; 3]>,
        screen: &Vec<Vec3<u16>>,
        shades: &Vec<Option<RGBColor>>,
    )
        requires
            old(self).wf(),
            shades@.len() == faces@.len(),
            forall|i: int, k: int|
                0 <= i < faces@.len() && 0 <= k < 3 && shades@[i] is Some ==> (#[trigger] faces@[i][k]).vertex_index
                    < screen@.len(),
        ensures
            final(self).wf(),
            final(self).width == old(self).width,
            final(self).height == old(self).height,
            final(self).grid() == depth_fill(
                old(self).grid(),
                empty_depths(old(self).width as int, old(self).height as int),
                faces@,
                screen@,
                shades@,
                old(self).width as int,
                old(self).height as int,
                faces@.len(),
            ).0,
    {
        let ghost g0 = self.grid();
        let ghost w = self.width as int;
        let ghost h = self.height as int;
        let mut z_buffer = DepthBuffer::new(self.width, self.height);
        let ghost z0 = z_buffer.grid();
        let mut i: usize = 0;
        while i < faces.len()
            invariant
                self.wf(),
                self.width == old(self).width,
                self.height == old(self).height,
                w == self.width,
                h == self.height,
                z_buffer.wf(),
                z_buffer.width == self.width,
                z_buffer.height == self.height,
                g0 == old(self).grid(),
                z0 == empty_depths(w, h),
                shades@.len() == faces@.len(),
                forall|i: int, k: int|
                    0 <= i < faces@.len() && 0 <= k < 3 && shades@[i] is Some ==> (#[trigger] faces@[i][k]).vertex_index
                        < screen@.len(),
                0 <= i <= faces@.len(),
                (self.grid(), z_buffer.grid()) == depth_fill(
                    g0,
                    z0,
                    faces@,
                    screen@,
                    shades@,
                    w,
                    h,
                    i as nat,
                ),
            decreases faces@.len() - i,
        {
            if let Some(c) = shades[i] {
                let face = faces[i];
                let pts = [
                    screen[face[0].vertex_index],
                    screen[face[1].vertex_index],
                    screen[face[2].vertex_index],
                ];
                assert(pts == face_triangle_3d(screen@, face));
                self.triangle_z_buffer(pts, &mut z_buffer, c);
            }
            i = i + 1;
        }
    }
}

} // verus!
