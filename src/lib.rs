//! A small software rasterizer: integer screen-space geometry, a colour
//! framebuffer, line and triangle rasterization, depth-tested filling, the
//! line-oriented mesh description and the wireframe of a projected mesh, the
//! uncompressed truecolor image encoding, and the list of lessons.

pub mod grid;
pub mod point;
pub mod rgb_image;
pub mod line;
pub mod triangle;
pub mod zbuffer;
pub mod tga_image;
pub mod lessons;
pub mod wireframe;
pub mod rendering;
