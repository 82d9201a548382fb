use std::cell::Cell;
use std::collections::HashSet;
use tiny_renderer::point::{barycentric, cross, diff, Barycentric, Point, Vec2, Vec3};
use tiny_renderer::rgb_image::{lcg_parkmiller, Lcg, RGBColor, RGBImage};
use tiny_renderer::triangle::sort_points;
use tiny_renderer::wireframe::Face;
use tiny_renderer::zbuffer::{Depth, DepthBuffer};

fn p(x: u16, y: u16) -> Point {
    Point { x, y }
}

fn painted(img: &RGBImage, background: RGBColor) -> HashSet<(u16, u16)> {
    let mut s = HashSet::new();
    for y in 0..img.height {
        for x in 0..img.width {
            if img.pixels[x as usize + y as usize * img.width as usize] != background {
                s.insert((x, y));
            }
        }
    }
    s
}

fn numbered(w: u16, h: u16) -> RGBImage {
    let mut img = RGBImage::new(w, h, RGBColor::black());
    for y in 0..h {
        for x in 0..w {
            img.set_pixel(p(x, y), RGBColor::new(x as u8, y as u8, 7));
        }
    }
    img
}

#[test]
fn set_pixel_then_read() {
    let mut img = RGBImage::new(4, 3, RGBColor::black());
    img.set_pixel(p(2, 1), RGBColor::red());
    assert_eq!(img.get_pixel(p(2, 1)), RGBColor::red());
    assert_eq!(img.pixels[2 + 1 * 4], RGBColor::red());
    for y in 0..3 {
        for x in 0..4 {
            if (x, y) != (2, 1) {
                assert_eq!(img.get_pixel(p(x, y)), RGBColor::black());
            }
        }
    }
    img.set_pixel(p(3, 2), RGBColor::blue());
    assert_eq!(img.pixels[11], RGBColor::blue());
    assert_eq!(img.get_pixel(p(2, 1)), RGBColor::red());
}

#[test]
fn flip_twice_restores_the_grid() {
    for (w, h) in [(3u16, 5u16), (4, 4), (1, 1), (2, 0)] {
        let before = numbered(w, h);
        let mut img = numbered(w, h);
        img.flip_vertically();
        img.flip_vertically();
        assert_eq!(img.pixels, before.pixels);
    }
}

#[test]
fn flip_swaps_rows_and_keeps_the_middle_one() {
    let before = numbered(3, 5);
    let mut img = numbered(3, 5);
    img.flip_vertically();
    for y in 0..5 {
        for x in 0..3 {
            assert_eq!(img.get_pixel(p(x, y)), before.get_pixel(p(x, 4 - y)));
        }
    }
    for x in 0..3 {
        assert_eq!(img.get_pixel(p(x, 2)), before.get_pixel(p(x, 2)));
    }
}

#[test]
fn line_plots_bresenham_pixels() {
    let mut img = RGBImage::new(5, 3, RGBColor::black());
    img.line(p(0, 0), p(4, 2), RGBColor::white());
    let expected: HashSet<(u16, u16)> = [(0, 0), (1, 0), (2, 1), (3, 1), (4, 2)].into_iter().collect();
    assert_eq!(painted(&img, RGBColor::black()), expected);
}

#[test]
fn steep_line_plots_one_pixel_per_row() {
    let mut img = RGBImage::new(3, 6, RGBColor::black());
    img.line(p(0, 0), p(2, 5), RGBColor::white());
    let s = painted(&img, RGBColor::black());
    assert_eq!(s.len(), 6);
    for y in 0..6 {
        assert_eq!(s.iter().filter(|q| q.1 == y).count(), 1);
    }
    assert!(s.contains(&(0, 0)) && s.contains(&(2, 5)));
}

#[test]
fn line_is_symmetric_in_its_endpoints() {
    let pairs = [
        (p(13, 20), p(80, 40)),
        (p(20, 13), p(40, 80)),
        (p(0, 99), p(99, 0)),
        (p(5, 5), p(5, 60)),
        (p(70, 3), p(3, 70)),
        (p(42, 42), p(42, 42)),
    ];
    for (a, b) in pairs {
        let mut one = RGBImage::new(100, 100, RGBColor::black());
        let mut two = RGBImage::new(100, 100, RGBColor::black());
        one.line(a, b, RGBColor::white());
        two.line(b, a, RGBColor::white());
        assert_eq!(one.pixels, two.pixels);
    }
}

#[test]
fn single_point_line() {
    let mut img = RGBImage::new(4, 4, RGBColor::black());
    img.line(p(3, 3), p(3, 3), RGBColor::green());
    let expected: HashSet<(u16, u16)> = [(3, 3)].into_iter().collect();
    assert_eq!(painted(&img, RGBColor::black()), expected);
}

#[test]
fn outline_covers_the_three_edges() {
    let mut img = RGBImage::new(20, 20, RGBColor::black());
    img.triangle_v([p(1, 1), p(15, 3), p(7, 18)], RGBColor::red());
    let mut edges = RGBImage::new(20, 20, RGBColor::black());
    edges.line(p(1, 1), p(15, 3), RGBColor::red());
    edges.line(p(15, 3), p(7, 18), RGBColor::red());
    edges.line(p(7, 18), p(1, 1), RGBColor::red());
    assert_eq!(img.pixels, edges.pixels);
}

#[test]
fn sorted_outline_colours_the_long_edge_red() {
    let mut img = RGBImage::new(20, 20, RGBColor::black());
    img.triangle_v_sorted([p(7, 18), p(1, 1), p(15, 3)]);
    assert_eq!(img.get_pixel(p(1, 1)), RGBColor::red());
    assert_eq!(img.get_pixel(p(7, 18)), RGBColor::red());
    assert_eq!(img.get_pixel(p(15, 3)), RGBColor::green());
}

#[test]
fn sort_points_is_stable() {
    let (a, b, c) = sort_points([p(5, 2), p(1, 2), p(0, 1)]);
    assert_eq!((a, b, c), (p(0, 1), p(5, 2), p(1, 2)));
}

#[test]
fn scanline_fill_exact_pixels() {
    let mut img = RGBImage::new(8, 8, RGBColor::black());
    img.triangle_filed([p(1, 1), p(5, 2), p(3, 4)], RGBColor::white());
    let expected: HashSet<(u16, u16)> = [(1, 1), (1, 2), (2, 2), (2, 3), (3, 2), (3, 3), (4, 3), (5, 3)]
        .into_iter()
        .collect();
    assert_eq!(painted(&img, RGBColor::black()), expected);
}

#[test]
fn barycentric_fill_exact_pixels() {
    let mut img = RGBImage::new(8, 8, RGBColor::black());
    img.triangle_v2([p(1, 1), p(5, 2), p(3, 4)], RGBColor::white());
    let expected: HashSet<(u16, u16)> = [(1, 1), (2, 2), (3, 2), (3, 3), (3, 4), (4, 2), (4, 3), (5, 2)]
        .into_iter()
        .collect();
    assert_eq!(painted(&img, RGBColor::black()), expected);
}

#[test]
fn scanline_and_barycentric_fills_agree_inside() {
    let tri = [p(10, 10), p(50, 20), p(30, 45)];
    let mut scan = RGBImage::new(64, 64, RGBColor::black());
    let mut bary = RGBImage::new(64, 64, RGBColor::black());
    scan.triangle_filed(tri, RGBColor::white());
    bary.triangle_v2(tri, RGBColor::white());
    let s = painted(&scan, RGBColor::black());
    let f = painted(&bary, RGBColor::black());
    let around = |q: (u16, u16)| {
        let mut v = Vec::new();
        for dx in -1i32..=1 {
            for dy in -1i32..=1 {
                v.push(((q.0 as i32 + dx) as u16, (q.1 as i32 + dy) as u16));
            }
        }
        v
    };
    for q in &f {
        if around(*q).iter().all(|n| f.contains(n)) {
            assert!(s.contains(q), "interior pixel {:?} missing", q);
        }
    }
    for q in s.symmetric_difference(&f) {
        let n = around(*q);
        assert!(n.iter().any(|m| f.contains(m)) && n.iter().any(|m| !f.contains(m)), "{:?}", q);
    }
}

#[test]
fn barycentric_fill_clamps_to_the_image() {
    let mut img = RGBImage::new(10, 10, RGBColor::black());
    img.triangle_v2([p(5, 5), p(40, 5), p(5, 40)], RGBColor::white());
    let s = painted(&img, RGBColor::black());
    assert!(s.contains(&(9, 9)) && s.contains(&(5, 5)) && s.contains(&(9, 5)));
    assert!(!s.contains(&(4, 5)));
    let mut empty = RGBImage::new(0, 0, RGBColor::black());
    empty.triangle_v2([p(5, 5), p(40, 5), p(5, 40)], RGBColor::white());
    assert!(empty.pixels.is_empty());
}

#[test]
fn degenerate_triangles_fill_nothing() {
    for tri in [[p(0, 0), p(5, 5), p(10, 10)], [p(3, 3), p(3, 3), p(3, 3)], [p(1, 4), p(6, 4), p(9, 4)]] {
        let mut img = RGBImage::new(16, 16, RGBColor::black());
        img.triangle_v2(tri, RGBColor::white());
        assert!(painted(&img, RGBColor::black()).is_empty());
        let mut z = DepthBuffer::new(16, 16);
        let flat = tri.map(|q| Vec3 { x: q.x, y: q.y, z: 5 });
        img.triangle_z_buffer(flat, &mut z, RGBColor::white());
        assert!(painted(&img, RGBColor::black()).is_empty());
    }
}

#[test]
fn barycentric_weights_are_exact() {
    let pts = [Vec2 { x: 0, y: 0 }, Vec2 { x: 4, y: 0 }, Vec2 { x: 0, y: 4 }];
    assert_eq!(
        barycentric(pts, Vec2 { x: 1, y: 1 }),
        Barycentric { w0: 8, w1: 4, w2: 4, d: 16 }
    );
    assert_eq!(
        barycentric(pts, Vec2 { x: 5, y: 0 }),
        Barycentric { w0: -4, w1: 20, w2: 0, d: 16 }
    );
    let line = [Vec2 { x: 0, y: 0 }, Vec2 { x: 1, y: 1 }, Vec2 { x: 2, y: 2 }];
    assert_eq!(
        barycentric(line, Vec2 { x: 1, y: 1 }),
        Barycentric { w0: -1, w1: 1, w2: 1, d: 1 }
    );
    let far = [
        Vec2 { x: i32::MIN, y: i32::MIN },
        Vec2 { x: i32::MAX, y: i32::MIN },
        Vec2 { x: i32::MIN, y: i32::MAX },
    ];
    let b = barycentric(far, Vec2 { x: 0, y: 0 });
    assert_eq!(b.w0 + b.w1 + b.w2, b.d);
}

#[test]
fn cross_and_diff() {
    let a = Vec3 { x: 1i64, y: 0, z: 0 };
    let b = Vec3 { x: 0i64, y: 1, z: 0 };
    assert_eq!(cross(a, b), Vec3 { x: 0i128, y: 0, z: 1 });
    assert_eq!(
        diff(Vec3 { x: 5, y: -3, z: i32::MIN }, Vec3 { x: 2, y: 4, z: 1 }),
        Vec3 { x: 3i64, y: -7, z: i32::MIN as i64 - 1 }
    );
}

#[test]
fn point_conversions() {
    assert_eq!(Vec2::<u16>::from(3, 65535), p(3, 65535));
    assert_eq!(p(10, 20).shift(300, -20), p(310, 0));
    assert_eq!(p(10, 20).as_i32(), Vec2 { x: 10i32, y: 20i32 });
    assert_eq!(Vec3 { x: 1u16, y: 2, z: 3 }.as_i32(), Vec3 { x: 1i32, y: 2, z: 3 });
}

fn flat_triangle(a: Point, b: Point, c: Point, z: u16) -> [Vec3<u16>; 3] {
    [Vec3 { x: a.x, y: a.y, z }, Vec3 { x: b.x, y: b.y, z }, Vec3 { x: c.x, y: c.y, z }]
}

#[test]
fn nearer_triangle_wins_in_either_order() {
    let back = flat_triangle(p(2, 2), p(28, 4), p(10, 28), 10);
    let front = flat_triangle(p(5, 20), p(25, 10), p(28, 28), 200);
    let mut img1 = RGBImage::new(32, 32, RGBColor::black());
    let mut z1 = DepthBuffer::new(32, 32);
    img1.triangle_z_buffer(back, &mut z1, RGBColor::red());
    img1.triangle_z_buffer(front, &mut z1, RGBColor::blue());
    let mut img2 = RGBImage::new(32, 32, RGBColor::black());
    let mut z2 = DepthBuffer::new(32, 32);
    img2.triangle_z_buffer(front, &mut z2, RGBColor::blue());
    img2.triangle_z_buffer(back, &mut z2, RGBColor::red());
    assert_eq!(img1.pixels, img2.pixels);
    let mut only_front = RGBImage::new(32, 32, RGBColor::black());
    only_front.triangle_v2([p(5, 20), p(25, 10), p(28, 28)], RGBColor::blue());
    let mut only_back = RGBImage::new(32, 32, RGBColor::black());
    only_back.triangle_v2([p(2, 2), p(28, 4), p(10, 28)], RGBColor::red());
    let f = painted(&only_front, RGBColor::black());
    let b = painted(&only_back, RGBColor::black());
    let both: Vec<_> = f.intersection(&b).collect();
    assert!(!both.is_empty());
    for q in both {
        assert_eq!(img1.get_pixel(p(q.0, q.1)), RGBColor::blue());
    }
    let d = z1.get(p(12, 12));
    assert_eq!(d.num, 10 * d.den);
    let d = z1.get(p(20, 20));
    assert_eq!(d.num, 200 * d.den);
}

#[test]
fn depth_buffer_starts_empty_and_stores() {
    let mut z = DepthBuffer::new(3, 2);
    assert_eq!(z.depths.len(), 6);
    assert_eq!(z.get(p(2, 1)), Depth { num: -1, den: 1 });
    z.set(p(2, 1), Depth { num: 7, den: 2 });
    assert_eq!(z.get(p(2, 1)), Depth { num: 7, den: 2 });
    assert_eq!(z.get(p(1, 1)), Depth { num: -1, den: 1 });
}

#[test]
fn occluded_pixels_are_never_shaded() {
    let front = flat_triangle(p(0, 0), p(31, 0), p(0, 31), 100);
    let back = flat_triangle(p(2, 2), p(10, 2), p(2, 10), 50);
    let mut img = RGBImage::new(32, 32, RGBColor::black());
    let mut z = DepthBuffer::new(32, 32);
    img.triangle_z_buffer(front, &mut z, RGBColor::green());
    let calls = Cell::new(0u32);
    let shade = |b: Barycentric| {
        assert!(b.w0 >= 0 && b.w1 >= 0 && b.w2 >= 0);
        calls.set(calls.get() + 1);
        RGBColor::red()
    };
    img.triangle_z_buffer_bary(back, &mut z, &shade);
    assert_eq!(calls.get(), 0);
    assert_eq!(img.get_pixel(p(3, 3)), RGBColor::green());
}

#[test]
fn shader_receives_weights_of_each_visible_pixel() {
    let tri = flat_triangle(p(0, 0), p(8, 0), p(0, 8), 3);
    let mut img = RGBImage::new(10, 10, RGBColor::black());
    let mut z = DepthBuffer::new(10, 10);
    let shade = |b: Barycentric| RGBColor::new((b.w1 * 255 / b.d) as u8, (b.w2 * 255 / b.d) as u8, 1);
    img.triangle_z_buffer_bary(tri, &mut z, &shade);
    assert_eq!(img.get_pixel(p(0, 0)), RGBColor::new(0, 0, 1));
    assert_eq!(img.get_pixel(p(8, 0)), RGBColor::new(255, 0, 1));
    assert_eq!(img.get_pixel(p(4, 4)), RGBColor::new(127, 127, 1));
    assert_eq!(img.get_pixel(p(9, 9)), RGBColor::black());
    assert_eq!(z.get(p(4, 4)), Depth { num: 3 * 64, den: 64 });
}

#[test]
fn random_colours_follow_the_generator() {
    assert_eq!(lcg_parkmiller(13), 627523);
    assert_eq!(lcg_parkmiller(0), 0);
    assert_eq!(lcg_parkmiller(0x7fff_fffe), 2147435376);
    let mut rng = Lcg::new(13);
    let c = RGBColor::random(&mut rng);
    assert_eq!(c, RGBColor { b: 223, g: 125, r: 59 });
    assert_eq!(rng.state, 1755747989);
    let mut again = Lcg::new(13);
    assert_eq!(RGBColor::random(&mut again), c);
}

#[test]
fn wireframe_draws_every_edge_of_every_face() {
    let corner = |v: usize| Face {
        vertex_index: v,
        texture_index: 0,
        norm_index: 0,
    };
    let screen = vec![p(1, 1), p(20, 3), p(9, 25), p(28, 28), p(63, 63)];
    let faces = vec![[corner(0), corner(1), corner(2)], [corner(1), corner(3), corner(2)]];
    let mut img = RGBImage::new(30, 30, RGBColor::black());
    img.render_frame(&faces, &screen, RGBColor::white());
    let mut expected = RGBImage::new(30, 30, RGBColor::black());
    for f in &faces {
        for j in 0..3 {
            expected.line(screen[f[j].vertex_index], screen[f[(j + 1) % 3].vertex_index], RGBColor::white());
        }
    }
    assert_eq!(img.pixels, expected.pixels);
    assert_eq!(img.get_pixel(p(28, 28)), RGBColor::white());
}

#[test]
fn random_fill_gives_each_face_the_next_colour() {
    let corner = |v: usize| Face {
        vertex_index: v,
        texture_index: 0,
        norm_index: 0,
    };
    let screen = vec![p(1, 1), p(20, 3), p(9, 25), p(28, 28)];
    let faces = vec![[corner(0), corner(1), corner(2)], [corner(1), corner(3), corner(2)]];
    let mut img = RGBImage::new(30, 30, RGBColor::black());
    let mut rng = Lcg::new(13);
    img.render_random(&faces, &screen, &mut rng);
    let mut expected = RGBImage::new(30, 30, RGBColor::black());
    let mut rng2 = Lcg::new(13);
    let first = RGBColor::random(&mut rng2);
    expected.triangle_filed([p(1, 1), p(20, 3), p(9, 25)], first);
    let second = RGBColor::random(&mut rng2);
    expected.triangle_filed([p(20, 3), p(28, 28), p(9, 25)], second);
    assert_eq!(img.pixels, expected.pixels);
    assert_eq!(rng.state, rng2.state);
    assert_eq!(first, RGBColor { b: 223, g: 125, r: 59 });
    assert_ne!(first, second);
}

#[test]
fn lit_faces_are_filled_in_their_shade() {
    let corner = |v: usize| Face {
        vertex_index: v,
        texture_index: 0,
        norm_index: 0,
    };
    let screen = vec![p(1, 1), p(20, 3), p(9, 25), p(28, 28), p(500, 500)];
    let faces = vec![
        [corner(0), corner(1), corner(2)],
        [corner(1), corner(4), corner(2)],
        [corner(1), corner(3), corner(2)],
    ];
    let grey = RGBColor::new(90, 90, 90);
    let shades = vec![Some(RGBColor::white()), None, Some(grey)];
    let mut img = RGBImage::new(30, 30, RGBColor::black());
    img.render_light(&faces, &screen, &shades);
    let mut expected = RGBImage::new(30, 30, RGBColor::black());
    expected.triangle_filed([p(1, 1), p(20, 3), p(9, 25)], RGBColor::white());
    expected.triangle_filed([p(20, 3), p(28, 28), p(9, 25)], grey);
    assert_eq!(img.pixels, expected.pixels);
}

#[test]
fn depth_rendering_keeps_the_nearest_face() {
    let corner = |v: usize| Face {
        vertex_index: v,
        texture_index: 0,
        norm_index: 0,
    };
    let screen = vec![
        Vec3 { x: 2u16, y: 2, z: 10 },
        Vec3 { x: 28, y: 4, z: 10 },
        Vec3 { x: 10, y: 28, z: 10 },
        Vec3 { x: 5, y: 20, z: 200 },
        Vec3 { x: 25, y: 10, z: 200 },
        Vec3 { x: 28, y: 28, z: 200 },
    ];
    let front_first = vec![
        [corner(3), corner(4), corner(5)],
        [corner(0), corner(1), corner(2)],
    ];
    let back_first = vec![front_first[1], front_first[0]];
    let shades_ff = vec![Some(RGBColor::blue()), Some(RGBColor::red())];
    let shades_bf = vec![Some(RGBColor::red()), Some(RGBColor::blue())];
    let mut a = RGBImage::new(32, 32, RGBColor::black());
    a.render_z_buffer(&front_first, &screen, &shades_ff);
    let mut b = RGBImage::new(32, 32, RGBColor::black());
    b.render_z_buffer(&back_first, &screen, &shades_bf);
    assert_eq!(a.pixels, b.pixels);
    assert_eq!(a.get_pixel(p(20, 20)), RGBColor::blue());
    assert_eq!(a.get_pixel(p(12, 12)), RGBColor::red());
    let mut c = RGBImage::new(32, 32, RGBColor::black());
    c.render_z_buffer(&front_first, &screen, &vec![None, Some(RGBColor::red())]);
    assert_eq!(c.get_pixel(p(20, 20)), RGBColor::black());
}
