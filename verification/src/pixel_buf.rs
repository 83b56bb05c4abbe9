//! The pixel surface model: a byte buffer of length width * height * 4 holding
//! RGBA8 pixels in row-major order with a top-left origin, together with a
//! read-only view and an exclusive-write view over it.
//!
//! The views own their bytes while they live: an `Image` is checked out into a
//! `PixBufMutView` for drawing and released back, so exclusive write access
//! and shared read access can never coexist over the same bytes.

use vstd::prelude::*;

use crate::colors::Color;
use crate::shapes::Rect;
use crate::vectors::Vec2;

verus! {

/// Whether an extent is a legal surface extent: each dimension fits in the
/// signed 32-bit range.
pub open spec fn dims_ok(w: int, h: int) -> bool {
    0 <= w < 0x8000_0000 && 0 <= h < 0x8000_0000
}

/// Whether a byte buffer backs a surface of extent (w, h): 4 bytes per pixel,
/// row-major, top-left origin.
pub open spec fn buf_wf(bytes: Seq<u8>, w: int, h: int) -> bool {
    dims_ok(w, h) && bytes.len() == w * h * 4
}

/// The byte offset of pixel (x, y) in a surface of width `w`.
pub open spec fn pix_off(w: int, x: int, y: int) -> int {
    (y * w + x) * 4
}

/// Whether (x, y) lies inside a surface of extent (w, h).
pub open spec fn in_bounds(w: int, h: int, x: int, y: int) -> bool {
    0 <= x < w && 0 <= y < h
}

/// The color stored at pixel (x, y) of a surface of width `w`: four bytes in
/// (r, g, b, a) order.
pub open spec fn pixel_at(bytes: Seq<u8>, w: int, x: int, y: int) -> Color {
    Color {
        r: bytes[pix_off(w, x, y)],
        g: bytes[pix_off(w, x, y) + 1],
        b: bytes[pix_off(w, x, y) + 2],
        a: bytes[pix_off(w, x, y) + 3],
    }
}

/// An in-bounds pixel's byte offset addresses four bytes inside the buffer.
pub proof fn lemma_pix_off_in_buf(w: int, h: int, x: int, y: int)
    by (nonlinear_arith)
    requires
        in_bounds(w, h, x, y),
    ensures
        0 <= pix_off(w, x, y),
        pix_off(w, x, y) + 4 <= w * h * 4,
{
}

/// Distinct in-bounds pixels address disjoint byte ranges.
pub proof fn lemma_pix_off_disjoint(w: int, h: int, x1: int, y1: int, x2: int, y2: int)
    by (nonlinear_arith)
    requires
        in_bounds(w, h, x1, y1),
        in_bounds(w, h, x2, y2),
        !(x1 == x2 && y1 == y2),
    ensures
        pix_off(w, x1, y1) + 4 <= pix_off(w, x2, y2) || pix_off(w, x2, y2) + 4 <= pix_off(
            w,
            x1,
            y1,
        ),
{
}

/// Reads the four channel bytes at an in-bounds position.
fn read_pixel(bytes: &Vec<u8>, size: Vec2<u32>, pos: Vec2<i32>) -> (c: Color)
    requires
        buf_wf(bytes@, size.x as int, size.y as int),
        in_bounds(size.x as int, size.y as int, pos.x as int, pos.y as int),
    ensures
        c == pixel_at(bytes@, size.x as int, pos.x as int, pos.y as int),
{
    let buf_len: usize = bytes.len();
    proof {
        lemma_pix_off_in_buf(size.x as int, size.y as int, pos.x as int, pos.y as int);
        assert(pix_off(size.x as int, pos.x as int, pos.y as int) + 4 <= buf_len);
    }
    let off64: u64 = ((pos.y as u64) * (size.x as u64) + (pos.x as u64)) * 4;
    assert(off64 == pix_off(size.x as int, pos.x as int, pos.y as int));
    let off: usize = off64 as usize;
    Color {
        r: bytes[off],
        g: bytes[off + 1],
        b: bytes[off + 2],
        a: bytes[off + 3],
    }
}

/// An exclusive-write lease over a surface's bytes: while it lives, nothing
/// else can read or write them.
pub struct PixBufMutView {
    pub bytes: Vec<u8>,
    pub size: Vec2<u32>,
}

impl PixBufMutView {
    /// Whether the bytes back a surface of this view's extent.
    pub open spec fn wf(self) -> bool {
        buf_wf(self.bytes@, self.size.x as int, self.size.y as int)
    }

    /// The surface width, as a mathematical integer.
    pub open spec fn w(self) -> int {
        self.size.x as int
    }

    /// The surface height, as a mathematical integer.
    pub open spec fn h(self) -> int {
        self.size.y as int
    }

    /// A `Rect` at the position given, with this surface's extent.
    pub fn rect_at(&self, pos: Vec2<i32>) -> (r: Rect)
        requires
            self.wf(),
        ensures
            r == (Rect { x: pos.x, y: pos.y, w: self.size.x as i32, h: self.size.y as i32 }),
    {
        Rect::from_pos_size(pos, self.size.as_i32())
    }

    /// Writes a pixel at a position already proven in bounds; every other
    /// pixel keeps its value.
    pub fn set_pixel_unchecked(&mut self, pos: Vec2<i32>, color: Color)
        requires
            old(self).wf(),
            in_bounds(old(self).w(), old(self).h(), pos.x as int, pos.y as int),
        ensures
            final(self).wf(),
            final(self).size == old(self).size,
            final(self).bytes@.len() == old(self).bytes@.len(),
            forall|x: int, y: int|
                in_bounds(old(self).w(), old(self).h(), x, y) ==> #[trigger] pixel_at(
                    final(self).bytes@,
                    old(self).w(),
                    x,
                    y,
                ) == if x == pos.x && y == pos.y {
                    color
                } else {
                    pixel_at(old(self).bytes@, old(self).w(), x, y)
                },
    {
        let ghost w = self.w();
        let ghost h = self.h();
        let ghost bytes0 = self.bytes@;
        let buf_len: usize = self.bytes.len();
        proof {
            lemma_pix_off_in_buf(w, h, pos.x as int, pos.y as int);
            assert(pix_off(w, pos.x as int, pos.y as int) + 4 <= buf_len);
        }
        let off64: u64 = ((pos.y as u64) * (self.size.x as u64) + (pos.x as u64)) * 4;
        assert(off64 == pix_off(w, pos.x as int, pos.y as int));
        let off: usize = off64 as usize;
        self.bytes[off] = color.r;
        self.bytes[off + 1] = color.g;
        self.bytes[off + 2] = color.b;
        self.bytes[off + 3] = color.a;
        proof {
            let po = pix_off(w, pos.x as int, pos.y as int);
            assert forall|x: int, y: int|
                in_bounds(w, h, x, y) && !(x == pos.x && y == pos.y) implies #[trigger] pixel_at(
                self.bytes@,
                w,
                x,
                y,
            ) == pixel_at(bytes0, w, x, y) by {
                lemma_pix_off_in_buf(w, h, x, y);
                lemma_pix_off_disjoint(w, h, x, y, pos.x as int, pos.y as int);
            }
        }
    }

    /// Writes a pixel when the position is in bounds and reports `Err`
    /// without writing when it is not.
    pub fn set_pixel(&mut self, pos: Vec2<i32>, color: Color) -> (r: Result<(), ()>)
        requires
            old(self).wf(),
        ensures
            final(self).wf(),
            final(self).size == old(self).size,
            final(self).bytes@.len() == old(self).bytes@.len(),
            r is Ok <==> in_bounds(old(self).w(), old(self).h(), pos.x as int, pos.y as int),
            forall|x: int, y: int|
                in_bounds(old(self).w(), old(self).h(), x, y) ==> #[trigger] pixel_at(
                    final(self).bytes@,
                    old(self).w(),
                    x,
                    y,
                ) == if r is Ok && x == pos.x && y == pos.y {
                    color
                } else {
                    pixel_at(old(self).bytes@, old(self).w(), x, y)
                },
    {
        if pos.x < 0 || pos.y < 0 || pos.x >= self.size.x as i32 || pos.y >= self.size.y as i32 {
            return Err(());
        }
        self.set_pixel_unchecked(pos, color);
        Ok(())
    }

    /// Reads the pixel at a position already proven in bounds.
    pub fn get_pixel_unchecked(&self, pos: Vec2<i32>) -> (c: Color)
        requires
            self.wf(),
            in_bounds(self.w(), self.h(), pos.x as int, pos.y as int),
        ensures
            c == pixel_at(self.bytes@, self.w(), pos.x as int, pos.y as int),
    {
        read_pixel(&self.bytes, self.size, pos)
    }

    /// Reads the pixel at the position, or `None` when it is out of bounds.
    pub fn get_pixel(&self, pos: Vec2<i32>) -> (r: Option<Color>)
        requires
            self.wf(),
        ensures
            r is Some <==> in_bounds(self.w(), self.h(), pos.x as int, pos.y as int),
            r is Some ==> r == Some(pixel_at(self.bytes@, self.w(), pos.x as int, pos.y as int)),
    {
        if pos.x < 0 || pos.y < 0 || pos.x >= self.size.x as i32 || pos.y >= self.size.y as i32 {
            return None;
        }
        Some(self.get_pixel_unchecked(pos))
    }

    /// Gives up write access: the same bytes as a read-only view.
    pub fn non_mut(self) -> (r: PixBufView)
        ensures
            r.bytes@ == self.bytes@,
            r.size == self.size,
    {
        PixBufView { bytes: self.bytes, size: self.size }
    }
}

/// A read-only view over a surface's bytes.
pub struct PixBufView {
    pub bytes: Vec<u8>,
    pub size: Vec2<u32>,
}

impl PixBufView {
    /// Whether the bytes back a surface of this view's extent.
    pub open spec fn wf(self) -> bool {
        buf_wf(self.bytes@, self.size.x as int, self.size.y as int)
    }

    /// The surface width, as a mathematical integer.
    pub open spec fn w(self) -> int {
        self.size.x as int
    }

    /// The surface height, as a mathematical integer.
    pub open spec fn h(self) -> int {
        self.size.y as int
    }

    /// A `Rect` at the position given, with this surface's extent.
    pub fn rect_at(&self, pos: Vec2<i32>) -> (r: Rect)
        requires
            self.wf(),
        ensures
            r == (Rect { x: pos.x, y: pos.y, w: self.size.x as i32, h: self.size.y as i32 }),
    {
        Rect::from_pos_size(pos, self.size.as_i32())
    }

    /// Reads the pixel at a position already proven in bounds.
    pub fn get_pixel_unchecked(&self, pos: Vec2<i32>) -> (c: Color)
        requires
            self.wf(),
            in_bounds(self.w(), self.h(), pos.x as int, pos.y as int),
        ensures
            c == pixel_at(self.bytes@, self.w(), pos.x as int, pos.y as int),
    {
        read_pixel(&self.bytes, self.size, pos)
    }

    /// Reads the pixel at the position, or `None` when it is out of bounds.
    pub fn get_pixel(&self, pos: Vec2<i32>) -> (r: Option<Color>)
        requires
            self.wf(),
        ensures
            r is Some <==> in_bounds(self.w(), self.h(), pos.x as int, pos.y as int),
            r is Some ==> r == Some(pixel_at(self.bytes@, self.w(), pos.x as int, pos.y as int)),
    {
        if pos.x < 0 || pos.y < 0 || pos.x >= self.size.x as i32 || pos.y >= self.size.y as i32 {
            return None;
        }
        Some(self.get_pixel_unchecked(pos))
    }
}

} // verus!
