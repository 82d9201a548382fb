//! The uncompressed truecolor image encoding: an 18-byte header, the pixels
//! as blue, green, red bytes row by row, and a 26-byte footer.

use vstd::prelude::*;
use crate::rgb_image::{RGBColor, RGBImage};

verus! {

/// The header: no image id, no colour map, image type 2 (uncompressed
/// truecolor), origin `(0, 0)`, the size as little-endian 16-bit fields at
/// bytes 12 and 14, 24 bits per pixel, and descriptor `0x20` (top-left origin).
pub open spec fn tga_header(w: u16, h: u16) -> Seq<u8> {
    seq![
        0u8, 0u8, 2u8, 0u8, 0u8, 0u8, 0u8, 0u8, 0u8, 0u8, 0u8, 0u8,
        (w % 256) as u8, (w / 256) as u8, (h % 256) as u8, (h / 256) as u8,
        24u8, 0x20u8,
    ]
}

/// The footer: zero extension and developer area offsets, then the
/// signature `TRUEVISION-XFILE.` and a zero byte.
pub open spec fn tga_footer() -> Seq<u8> {
    seq![
        0u8, 0u8, 0u8, 0u8, 0u8, 0u8, 0u8, 0u8,
        84u8, 82u8, 85u8, 69u8, 86u8, 73u8, 83u8, 73u8, 79u8, 78u8, 45u8,
        88u8, 70u8, 73u8, 76u8, 69u8, 46u8, 0u8,
    ]
}

/// Channel `k` of a colour in stored order: blue, green, red.
pub open spec fn channel(c: RGBColor, k: int) -> u8 {
    if k == 0 {
        c.b
    } else if k == 1 {
        c.g
    } else {
        c.r
    }
}

/// The pixels as three bytes each, blue, green, red.
pub open spec fn pixel_bytes(px: Seq<RGBColor>) -> Seq<u8> {
    Seq::new(3 * px.len(), |i: int| channel(px[i / 3], i % 3))
}

/// The whole encoding of a `w × h` image with the given pixels.
pub open spec fn tga_encoding(w: u16, h: u16, px: Seq<RGBColor>) -> Seq<u8> {
    tga_header(w, h) + pixel_bytes(px) + tga_footer()
}

/// The width that a header records.
pub open spec fn header_width(bytes: Seq<u8>) -> int {
    bytes[12] + 256 * bytes[13]
}

/// The height that a header records.
pub open spec fn header_height(bytes: Seq<u8>) -> int {
    bytes[14] + 256 * bytes[15]
}

/// The `n` pixels that follow the header.
pub open spec fn read_pixels(bytes: Seq<u8>, n: int) -> Seq<RGBColor> {
    Seq::new(
        n as nat,
        |k: int| RGBColor { b: bytes[18 + 3 * k], g: bytes[18 + 3 * k + 1], r: bytes[18 + 3 * k + 2] },
    )
}

/// Reading back an encoded image gives its size from the header and its
/// pixels from the bytes that follow.
pub proof fn lemma_tga_round_trip(w: u16, h: u16, px: Seq<RGBColor>)
    ensures
        header_width(tga_encoding(w, h, px)) == w,
        header_height(tga_encoding(w, h, px)) == h,
        read_pixels(tga_encoding(w, h, px), px.len() as int) == px,
{
    let bytes = tga_encoding(w, h, px);
    assert forall|k: int| 0 <= k < px.len() implies #[trigger] read_pixels(bytes, px.len() as int)[k]
        == px[k] by {
        assert(bytes[18 + 3 * k] == pixel_bytes(px)[3 * k]);
        assert(bytes[18 + 3 * k + 1] == pixel_bytes(px)[3 * k + 1]);
        assert(bytes[18 + 3 * k + 2] == pixel_bytes(px)[3 * k + 2]);
    }
    assert(read_pixels(bytes, px.len() as int) =~= px);
}

impl RGBImage {
    /// The image in the uncompressed truecolor encoding, ready to be written
    /// to a file.
    pub fn tga_bytes(&self) -> (r: Vec<u8>)
        requires
            self.wf(),
        ensures
            r@ == tga_encoding(self.width, self.height, self.pixels@),
    {
        let w = self.width;
        let h = self.height;
        let mut out: Vec<u8> = Vec::new();
        out.push(0);
        out.push(0);
        out.push(2);
        out.push(0);
        out.push(0);
        out.push(0);
        out.push(0);
        out.push(0);
        out.push(0);
        out.push(0);
        out.push(0);
        out.push(0);
        out.push((w % 256) as u8);
        out.push((w / 256) as u8);
        out.push((h % 256) as u8);
        out.push((h / 256) as u8);
        out.push(24);
        out.push(0x20);
        assert(out@ =~= tga_header(w, h));
        let n = self.pixels.len();
        let mut k: usize = 0;
        while k < n
            invariant
                n == self.pixels@.len(),
                0 <= k <= n,
                out@ == tga_header(w, h) + pixel_bytes(self.pixels@.take(k as int)),
            decreases n - k,
        {
            let c = self.pixels[k];
            let ghost before = out@;
            out.push(c.b);
            out.push(c.g);
            out.push(c.r);
            proof {
                let p1 = pixel_bytes(self.pixels@.take(k + 1));
                let p0 = pixel_bytes(self.pixels@.take(k as int));
                assert(p1 =~= p0 + seq![c.b, c.g, c.r]) by {
                    assert forall|i: int| 0 <= i < 3 * k implies p1[i] == p0[i] by {
                        assert(i / 3 < k);
                    }
                    assert(p1[3 * k] == c.b);
                    assert(p1[3 * k + 1] == c.g);
                    assert(p1[3 * k + 2] == c.r);
                }
                assert(out@ =~= tga_header(w, h) + p1);
            }
            k = k + 1;
        }
        assert(self.pixels@.take(n as int) =~= self.pixels@);
        let footer: [u8; 26] = [
            0, 0, 0, 0, 0, 0, 0, 0, 84, 82, 85, 69, 86, 73, 83, 73, 79, 78, 45, 88, 70, 73, 76, 69, 46,
            0,
        ];
        let ghost body = out@;
        let mut f: usize = 0;
        while f < 26
            invariant
                0 <= f <= 26,
                footer@ == tga_footer(),
                out@ == body + footer@.take(f as int),
            decreases 26 - f,
        {
            out.push(footer[f]);
            proof {
                assert(footer@.take(f + 1) =~= footer@.take(f as int).push(footer@[f as int]));
            }
            f = f + 1;
        }
        proof {
            assert(footer@.take(26) =~= footer@);
        }
        out
    }
}

} // verus!
