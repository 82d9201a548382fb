use tiny_renderer::point::Point;
use tiny_renderer::rgb_image::{RGBColor, RGBImage};

#[test]
fn encoding_has_header_pixels_and_footer() {
    let mut img = RGBImage::new(2, 1, RGBColor::black());
    img.set_pixel(Point { x: 0, y: 0 }, RGBColor::new(1, 2, 3));
    img.set_pixel(Point { x: 1, y: 0 }, RGBColor::new(10, 20, 30));
    let bytes = img.tga_bytes();
    assert_eq!(bytes.len(), 18 + 6 + 26);
    assert_eq!(&bytes[..18], &[0, 0, 2, 0, 0, 0, 0, 0, 0, 0, 0, 0, 2, 0, 1, 0, 24, 0x20]);
    assert_eq!(&bytes[18..24], &[3, 2, 1, 30, 20, 10]);
    assert_eq!(&bytes[24..32], &[0u8; 8]);
    assert_eq!(&bytes[32..], b"TRUEVISION-XFILE.\0");
}

#[test]
fn encoding_round_trip() {
    let (w, h) = (300u16, 7u16);
    let mut img = RGBImage::new(w, h, RGBColor::black());
    for y in 0..h {
        for x in 0..w {
            img.set_pixel(Point { x, y }, RGBColor::new((x % 256) as u8, y as u8, (x / 2) as u8));
        }
    }
    let bytes = img.tga_bytes();
    assert_eq!(u16::from_le_bytes([bytes[12], bytes[13]]), w);
    assert_eq!(u16::from_le_bytes([bytes[14], bytes[15]]), h);
    let n = w as usize * h as usize;
    let back: Vec<RGBColor> = (0..n)
        .map(|k| RGBColor {
            b: bytes[18 + 3 * k],
            g: bytes[19 + 3 * k],
            r: bytes[20 + 3 * k],
        })
        .collect();
    assert_eq!(back, img.pixels);
    assert_eq!(bytes.len(), 18 + 3 * n + 26);
}

#[test]
fn empty_image_encoding() {
    let img = RGBImage::new(0, 5, RGBColor::white());
    let bytes = img.tga_bytes();
    assert_eq!(bytes.len(), 44);
    assert_eq!(bytes[14], 5);
}
