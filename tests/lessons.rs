use tiny_renderer::lessons::{lesson0, lesson1, lesson2, lessons, Lesson, Renderer};
use tiny_renderer::point::Point;
use tiny_renderer::rgb_image::RGBColor;

#[test]
fn lessons_are_listed_in_order() {
    let names: Vec<&str> = lessons().iter().map(|l| l.name).collect();
    assert_eq!(
        names,
        vec![
            "Pixel",
            "Bresenham",
            "Wireframe",
            "Triangles",
            "Colorful wireframe",
            "Lighted Wireframe",
            "Lighted Wireframe (z buffer)",
            "Textured Wireframe",
        ]
    );
    assert_eq!(lessons()[6].renderer, Renderer::ZBuffer);
    assert_eq!(lessons()[0].renderer, Renderer::Pixel);
}

#[test]
fn lessons_compare_by_name() {
    let all = lessons();
    assert!(all[3].same(&all[3]));
    assert!(!all[3].same(&all[4]));
    let renamed = Lesson {
        name: "Triangles",
        renderer: Renderer::Pixel,
    };
    assert!(all[3].same(&renamed));
    let prefix = Lesson {
        name: "Lighted Wireframe",
        renderer: Renderer::ZBuffer,
    };
    assert!(!all[6].same(&prefix));
}

#[test]
fn pixel_lesson_draws_one_red_pixel() {
    let img = lesson0();
    assert_eq!((img.width, img.height), (100, 100));
    for (i, c) in img.pixels.iter().enumerate() {
        if i == 10 + 80 * 100 {
            assert_eq!(*c, RGBColor::red());
        } else {
            assert_eq!(*c, RGBColor::black());
        }
    }
}

#[test]
fn bresenham_lesson_draws_three_lines() {
    let img = lesson1();
    assert_eq!(img.get_pixel(Point { x: 80, y: 40 }), RGBColor::white());
    assert_eq!(img.get_pixel(Point { x: 20, y: 13 }), RGBColor::red());
    assert_eq!(img.get_pixel(Point { x: 40, y: 80 }), RGBColor::green());
    assert_eq!(img.get_pixel(Point { x: 13, y: 20 }), RGBColor::green());
    assert_eq!(img.get_pixel(Point { x: 50, y: 50 }), RGBColor::black());
}

#[test]
fn triangles_lesson_is_flipped() {
    let img = lesson2();
    assert_eq!((img.width, img.height), (640, 640));
    // (10, 70) is a corner of the first red outline, before the flip.
    assert_eq!(img.get_pixel(Point { x: 10, y: 639 - 70 }), RGBColor::red());
    // A point inside the barycentric fill at (310..490, 310..460).
    assert_eq!(img.get_pixel(Point { x: 400, y: 639 - 330 }), RGBColor::red());
    assert_eq!(img.get_pixel(Point { x: 600, y: 20 }), RGBColor::black());
}
