//! A CPU-side 2D software rasterizer: vector primitives (lines, rectangles,
//! polygons, triangles, circles, resampled images) are converted into writes
//! on a raw RGBA8 pixel buffer, and simple polygons are converted into
//! triangles by ear clipping.

pub mod bresenham;
pub mod colors;
pub mod fonts;
pub mod graphics;
pub mod pixel_buf;
pub mod shapes;
pub mod tri_rasterizer;
pub mod triangulation;
pub mod vectors;

pub use colors::Color;
pub use graphics::{Graphics, Image};
pub use pixel_buf::{PixBufMutView, PixBufView};
pub use shapes::{Line, Poly, Rect, Tri};
pub use vectors::Vec2;
