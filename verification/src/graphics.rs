//! The drawing surface: an owned `Image`, and the `Graphics` session that
//! holds an exclusive-write view of its pixels together with the logical
//! extent of the drawable area.
//!
//! Every drawing operation is a single synchronous pass. Its contract is
//! stated pixel-wise: the operation's cover set says exactly which pixels
//! take the new color, and every pixel outside the cover keeps its value.

use vstd::prelude::*;

use crate::bresenham::{line_points, line_seq};
use crate::colors::Color;
use crate::pixel_buf::{buf_wf, dims_ok, in_bounds, pixel_at, PixBufMutView, PixBufView};
use crate::shapes::{in_i32, Line, Poly, Rect, Tri};
use crate::vectors::Vec2;

verus! {

/// An owned pixel surface: a byte buffer of length width * height * 4.
pub struct Image {
    pub bytes: Vec<u8>,
    pub size: Vec2<u32>,
}

impl Image {
    /// Whether the bytes back a surface of this image's extent.
    pub open spec fn wf(self) -> bool {
        buf_wf(self.bytes@, self.size.x as int, self.size.y as int)
    }

    /// A new image of the given extent with every byte zero.
    pub fn empty(size: Vec2<u32>) -> (r: Self)
        requires
            dims_ok(size.x as int, size.y as int),
            size.x * size.y * 4 <= usize::MAX,
        ensures
            r.wf(),
            r.size == size,
            r.bytes@ == Seq::new((size.x * size.y * 4) as nat, |i: int| 0u8),
    {
        let n: usize = size.x as usize * size.y as usize * 4;
        let bytes: Vec<u8> = vec![0u8; n];
        proof {
            assert(bytes@ =~= Seq::new((size.x * size.y * 4) as nat, |i: int| 0u8));
        }
        Image { bytes, size }
    }

    /// Wraps an existing byte buffer, already in top-left-origin RGBA8
    /// row-major layout, without copying; `None` when the buffer length does
    /// not match the extent or the extent is out of range.
    pub fn from_raw(size: Vec2<u32>, bytes: Vec<u8>) -> (r: Option<Self>)
        ensures
            r is Some <==> (dims_ok(size.x as int, size.y as int) && bytes@.len() == size.x * size.y
                * 4),
            r is Some ==> r->0.size == size && r->0.bytes@ == bytes@ && r->0.wf(),
    {
        if size.x > i32::MAX as u32 || size.y > i32::MAX as u32 {
            return None;
        }
        proof {
            crate::shapes::lemma_mul_bound(size.x as int, size.y as int, 0x7FFF_FFFF, 0x7FFF_FFFF);
        }
        let expected: u64 = size.x as u64 * size.y as u64 * 4;
        if bytes.len() as u64 != expected {
            return None;
        }
        Some(Image { bytes, size })
    }

    /// The extent of this image.
    pub fn size(&self) -> (r: Vec2<u32>)
        ensures
            r == self.size,
    {
        self.size
    }

    /// The backing bytes.
    pub fn bytes(&self) -> (r: &Vec<u8>)
        ensures
            r@ == self.bytes@,
    {
        &self.bytes
    }

    /// Exclusive access to the backing bytes.
    pub fn mut_bytes(&mut self) -> (r: &mut Vec<u8>)
        ensures
            *r == old(self).bytes,
            final(self).bytes == *final(r),
            final(self).size == old(self).size,
    {
        &mut self.bytes
    }

    /// A read-only view with a copy of this image's pixels.
    pub fn pixels(&self) -> (r: PixBufView)
        ensures
            r.bytes@ == self.bytes@,
            r.size == self.size,
    {
        PixBufView { bytes: clone_bytes(&self.bytes), size: self.size }
    }

    /// A read-only view with a copy of this image's pixels.
    pub fn view(&self) -> (r: PixBufView)
        ensures
            r.bytes@ == self.bytes@,
            r.size == self.size,
    {
        self.pixels()
    }

    /// Checks this image out as an exclusive-write view; `into_image` on the
    /// view gives the image back.
    pub fn pixels_mut(self) -> (r: PixBufMutView)
        ensures
            r.bytes@ == self.bytes@,
            r.size == self.size,
    {
        PixBufMutView { bytes: self.bytes, size: self.size }
    }

    /// Checks this image out as an exclusive-write view; `into_image` on the
    /// view gives the image back.
    pub fn mut_view(self) -> (r: PixBufMutView)
        ensures
            r.bytes@ == self.bytes@,
            r.size == self.size,
    {
        self.pixels_mut()
    }

    /// Checks this image out into a drawing session over its whole area;
    /// `into_image` on the session gives the image back.
    pub fn create_graphics(self) -> (g: Graphics)
        requires
            self.wf(),
        ensures
            g.wf(),
            g.buffer.bytes@ == self.bytes@,
            g.buffer.size == self.size,
            g.size == self.size,
    {
        let size = self.size;
        Graphics { buffer: self.pixels_mut(), size }
    }

    /// A `Rect` at the position given, with this image's extent.
    pub fn rect_at(&self, pos: Vec2<i32>) -> (r: Rect)
        requires
            self.wf(),
        ensures
            r == (Rect { x: pos.x, y: pos.y, w: self.size.x as i32, h: self.size.y as i32 }),
    {
        Rect::from_pos_size(pos, self.size.as_i32())
    }
}

/// Copies a byte buffer.
fn clone_bytes(bytes: &Vec<u8>) -> (r: Vec<u8>)
    ensures
        r@ == bytes@,
{
    let mut out: Vec<u8> = Vec::new();
    let mut i: usize = 0;
    while i < bytes.len()
        invariant
            0 <= i <= bytes@.len(),
            out@ == bytes@.subrange(0, i as int),
        decreases bytes@.len() - i,
    {
        out.push(bytes[i]);
        i += 1;
    }
    proof {
        assert(bytes@.subrange(0, bytes@.len() as int) =~= bytes@);
    }
    out
}

impl PixBufMutView {
    /// Releases the exclusive-write lease: the bytes become an owned image
    /// again.
    pub fn into_image(self) -> (r: Image)
        ensures
            r.bytes@ == self.bytes@,
            r.size == self.size,
    {
        Image { bytes: self.bytes, size: self.size }
    }

    /// Starts a drawing session over this view's whole area.
    pub fn create_graphics(self) -> (g: Graphics)
        requires
            self.wf(),
        ensures
            g.wf(),
            g.buffer == self,
            g.size == self.size,
    {
        let size = self.size;
        Graphics { buffer: self, size }
    }
}

/// Whether `b1` is `b0` with exactly the pixels of the cover set `s`
/// overwritten by `c`: same extent, same byte length, every covered pixel
/// holds `c`, and every other pixel keeps its value.
pub open spec fn painted(b0: PixBufMutView, b1: PixBufMutView, s: Set<(int, int)>, c: Color) -> bool {
    &&& b1.size == b0.size
    &&& b1.bytes@.len() == b0.bytes@.len()
    &&& forall|x: int, y: int|
        in_bounds(b0.w(), b0.h(), x, y) ==> #[trigger] pixel_at(b1.bytes@, b0.w(), x, y) == if s.contains(
            (x, y),
        ) {
            c
        } else {
            pixel_at(b0.bytes@, b0.w(), x, y)
        }
}

/// Painting nothing leaves every pixel unchanged.
pub proof fn lemma_painted_empty(b: PixBufMutView, c: Color)
    ensures
        painted(b, b, Set::empty(), c),
{
}

/// Painting a set of pixels and then another set paints their union.
pub proof fn lemma_painted_trans(
    b0: PixBufMutView,
    b1: PixBufMutView,
    b2: PixBufMutView,
    s1: Set<(int, int)>,
    s2: Set<(int, int)>,
    c: Color,
)
    requires
        painted(b0, b1, s1, c),
        painted(b1, b2, s2, c),
    ensures
        painted(b0, b2, s1.union(s2), c),
{
    assert forall|x: int, y: int| in_bounds(b0.w(), b0.h(), x, y) implies #[trigger] pixel_at(
        b2.bytes@,
        b0.w(),
        x,
        y,
    ) == if s1.union(s2).contains((x, y)) {
        c
    } else {
        pixel_at(b0.bytes@, b0.w(), x, y)
    } by {
        assert(b1.w() == b0.w() && b1.h() == b0.h());
        assert(in_bounds(b1.w(), b1.h(), x, y));
        assert(pixel_at(b1.bytes@, b0.w(), x, y) == if s1.contains((x, y)) {
            c
        } else {
            pixel_at(b0.bytes@, b0.w(), x, y)
        });
        assert(pixel_at(b2.bytes@, b1.w(), x, y) == if s2.contains((x, y)) {
            c
        } else {
            pixel_at(b1.bytes@, b1.w(), x, y)
        });
    }
}

/// The cover of a bounds-checked single-pixel write: the position itself when
/// it lies inside the logical extent, nothing otherwise.
pub open spec fn pix_cover(lw: int, lh: int, pos: Vec2<i32>) -> Set<(int, int)> {
    Set::new(|p: (int, int)| p.0 == pos.x && p.1 == pos.y && in_bounds(lw, lh, p.0, p.1))
}

/// The drawing session: an exclusive-write view plus the logical extent of
/// the drawable area, which never exceeds the view's own extent.
pub struct Graphics {
    pub buffer: PixBufMutView,
    pub size: Vec2<u32>,
}

impl Graphics {
    /// Whether the view is well formed and the logical area lies inside it.
    pub open spec fn wf(self) -> bool {
        &&& self.buffer.wf()
        &&& self.size.x <= self.buffer.size.x
        &&& self.size.y <= self.buffer.size.y
    }

    /// The logical width, as a mathematical integer.
    pub open spec fn lw(self) -> int {
        self.size.x as int
    }

    /// The logical height, as a mathematical integer.
    pub open spec fn lh(self) -> int {
        self.size.y as int
    }

    /// A session over the given view, with the given logical extent.
    pub fn new(buffer: PixBufMutView, size: Vec2<u32>) -> (g: Self)
        requires
            buffer.wf(),
            size.x <= buffer.size.x,
            size.y <= buffer.size.y,
        ensures
            g.wf(),
            g.buffer == buffer,
            g.size == size,
    {
        Graphics { buffer, size }
    }

    /// The logical extent of the drawable area.
    pub fn size(&self) -> (r: Vec2<u32>)
        ensures
            r == self.size,
    {
        self.size
    }

    /// Ends the session, releasing the exclusive-write view.
    pub fn into_buffer(self) -> (r: PixBufMutView)
        ensures
            r == self.buffer,
    {
        self.buffer
    }

    /// Ends the session, releasing the bytes as an owned image.
    pub fn into_image(self) -> (r: Image)
        ensures
            r.bytes@ == self.buffer.bytes@,
            r.size == self.buffer.size,
    {
        self.buffer.into_image()
    }

    /// Writes one pixel; a position outside the logical area is silently
    /// ignored.
    pub fn draw_pixel(&mut self, pos: Vec2<i32>, color: Color)
        requires
            old(self).wf(),
        ensures
            final(self).wf(),
            final(self).size == old(self).size,
            painted(
                old(self).buffer,
                final(self).buffer,
                pix_cover(old(self).lw(), old(self).lh(), pos),
                color,
            ),
    {
        if pos.x < 0 || pos.y < 0 || pos.x >= self.size.x as i32 || pos.y >= self.size.y as i32 {
            proof {
                assert(pix_cover(self.lw(), self.lh(), pos) =~= Set::<(int, int)>::empty());
            }
            return ;
        }
        self.buffer.set_pixel_unchecked(pos, color);
    }

    /// Overwrites every pixel of the whole backing area with `color`.
    pub fn fill(&mut self, color: Color)
        requires
            old(self).wf(),
        ensures
            final(self).wf(),
            final(self).size == old(self).size,
            final(self).buffer.size == old(self).buffer.size,
            final(self).buffer.bytes@.len() == old(self).buffer.bytes@.len(),
            forall|x: int, y: int|
                in_bounds(old(self).buffer.w(), old(self).buffer.h(), x, y) ==> #[trigger] pixel_at(
                    final(self).buffer.bytes@,
                    old(self).buffer.w(),
                    x,
                    y,
                ) == color,
    {
        let ghost w = self.buffer.w();
        let ghost h = self.buffer.h();
        let bw: u32 = self.buffer.size.x;
        let bh: u32 = self.buffer.size.y;
        let mut y: u32 = 0;
        while y < bh
            invariant
                0 <= y <= bh,
                self.wf(),
                self.size == old(self).size,
                self.buffer.size == old(self).buffer.size,
                self.buffer.bytes@.len() == old(self).buffer.bytes@.len(),
                bw == self.buffer.size.x,
                bh == self.buffer.size.y,
                w == self.buffer.w(),
                h == self.buffer.h(),
                forall|x2: int, y2: int|
                    in_bounds(w, h, x2, y2) && y2 < y ==> #[trigger] pixel_at(
                        self.buffer.bytes@,
                        w,
                        x2,
                        y2,
                    ) == color,
            decreases bh - y,
        {
            let mut x: u32 = 0;
            while x < bw
                invariant
                    0 <= x <= bw,
                    0 <= y < bh,
                    self.wf(),
                    self.size == old(self).size,
                    self.buffer.size == old(self).buffer.size,
                    self.buffer.bytes@.len() == old(self).buffer.bytes@.len(),
                    bw == self.buffer.size.x,
                    bh == self.buffer.size.y,
                    w == self.buffer.w(),
                    h == self.buffer.h(),
                    forall|x2: int, y2: int|
                        in_bounds(w, h, x2, y2) && (y2 < y || (y2 == y && x2 < x))
                            ==> #[trigger] pixel_at(self.buffer.bytes@, w, x2, y2) == color,
                decreases bw - x,
            {
                self.buffer.set_pixel_unchecked(Vec2 { x: x as i32, y: y as i32 }, color);
                x += 1;
            }
            y += 1;
        }
    }
}

/// The cover of a vertical run: column `col`, rows `from` to `to` inclusive,
/// clipped to the logical area.
pub open spec fn col_cover(lw: int, lh: int, col: int, from: int, to: int) -> Set<(int, int)> {
    Set::new(|p: (int, int)| p.0 == col && from <= p.1 <= to && in_bounds(lw, lh, p.0, p.1))
}

/// The cover of a horizontal run: row `row`, columns `from` to `to`
/// inclusive, clipped to the logical area.
pub open spec fn row_cover(lw: int, lh: int, row: int, from: int, to: int) -> Set<(int, int)> {
    Set::new(|p: (int, int)| p.1 == row && from <= p.0 <= to && in_bounds(lw, lh, p.0, p.1))
}

/// The cover of a filled rectangle: the rectangle's span clipped to the
/// logical area.
pub open spec fn rect_cover(lw: int, lh: int, rect: Rect) -> Set<(int, int)> {
    Set::new(
        |p: (int, int)|
            rect.x <= p.0 < rect.x + rect.w && rect.y <= p.1 < rect.y + rect.h && in_bounds(
                lw,
                lh,
                p.0,
                p.1,
            ),
    )
}

/// The cover of a rectangle outline: its two columns and two rows, clipped
/// to the logical area.
pub open spec fn rect_outline_cover(lw: int, lh: int, rect: Rect) -> Set<(int, int)> {
    col_cover(lw, lh, rect.x as int, rect.y as int, rect.y + rect.h).union(
        col_cover(lw, lh, rect.x + rect.w, rect.y as int, rect.y + rect.h),
    ).union(row_cover(lw, lh, rect.y as int, rect.x as int, rect.x + rect.w)).union(
        row_cover(lw, lh, rect.y + rect.h, rect.x as int, rect.x + rect.w),
    )
}

/// The cover of a filled circle: every pixel of the closed bounding box
/// whose squared distance to the center is at most radius squared, clipped
/// to the logical area.
pub open spec fn circle_cover(lw: int, lh: int, center: Vec2<i32>, radius: int) -> Set<(int, int)> {
    Set::new(
        |p: (int, int)|
            {
                let ddx = p.0 - center.x;
                let ddy = p.1 - center.y;
                &&& center.x - radius <= p.0 <= center.x + radius
                &&& center.y - radius <= p.1 <= center.y + radius
                &&& ddx * ddx + ddy * ddy <= radius * radius
                &&& in_bounds(lw, lh, p.0, p.1)
            },
    )
}

/// Two integers whose squares compare stay ordered in magnitude.
proof fn lemma_sq_le(a: int, r: int)
    by (nonlinear_arith)
    requires
        r >= 0,
        a * a <= r * r,
    ensures
        -r <= a <= r,
{
}

/// For a non-negative radius the bounding box adds nothing: a pixel is
/// covered by a circle fill exactly when it is in range and its squared
/// distance to the center is at most the radius squared.
pub proof fn lemma_circle_cover_is_distance_test(
    lw: int,
    lh: int,
    center: Vec2<i32>,
    radius: int,
    x: int,
    y: int,
)
    requires
        radius >= 0,
    ensures
        circle_cover(lw, lh, center, radius).contains((x, y)) <==> ((x - center.x) * (x - center.x)
            + (y - center.y) * (y - center.y) <= radius * radius && in_bounds(lw, lh, x, y)),
{
    let ddx = x - center.x;
    let ddy = y - center.y;
    if ddx * ddx + ddy * ddy <= radius * radius {
        assert(ddx * ddx >= 0 && ddy * ddy >= 0) by (nonlinear_arith);
        lemma_sq_le(ddx, radius);
        lemma_sq_le(ddy, radius);
    }
}

/// The cover of the first `n` points of a point sequence, clipped to the
/// logical area.
pub open spec fn points_cover(lw: int, lh: int, pts: Seq<Vec2<i32>>, n: int) -> Set<(int, int)> {
    Set::new(
        |p: (int, int)|
            in_bounds(lw, lh, p.0, p.1) && exists|j: int|
                0 <= j < n && pts[j].x == p.0 && pts[j].y == p.1,
    )
}

/// The cover of a line: every point the line walk visits, clipped to the
/// logical area.
pub open spec fn line_cover(lw: int, lh: int, from: Vec2<i32>, to: Vec2<i32>) -> Set<(int, int)> {
    points_cover(lw, lh, line_seq(from, to), line_seq(from, to).len() as int)
}

/// The cover of a triangle outline: its three edges.
pub open spec fn tri_outline_cover(lw: int, lh: int, tri: Tri) -> Set<(int, int)> {
    line_cover(lw, lh, tri.0, tri.1).union(line_cover(lw, lh, tri.1, tri.2)).union(
        line_cover(lw, lh, tri.2, tri.0),
    )
}

/// The union of the covers of the edges between the first `n` points: the
/// edge before each point after the first.
pub open spec fn edges_cover(lw: int, lh: int, pts: Seq<Vec2<i32>>, n: int) -> Set<(int, int)>
    decreases n,
{
    if n <= 1 {
        Set::empty()
    } else {
        edges_cover(lw, lh, pts, n - 1).union(line_cover(lw, lh, pts[n - 2], pts[n - 1]))
    }
}

/// The cover of a polygon outline: the edge between every consecutive point
/// pair, plus the closing edge from the last point back to the first; fewer
/// than two points cover nothing.
pub open spec fn poly_cover(lw: int, lh: int, pts: Seq<Vec2<i32>>) -> Set<(int, int)> {
    if pts.len() < 2 {
        Set::empty()
    } else {
        edges_cover(lw, lh, pts, pts.len() as int).union(
            line_cover(lw, lh, pts[pts.len() - 1], pts[0]),
        )
    }
}

impl Graphics {
    /// Draws the line between the two endpoints of `line` with the integer
    /// line walk: an 8-connected path from the first endpoint to the second,
    /// both included, clipped to the logical area.
    pub fn draw_line(&mut self, line: &Line, color: Color)
        requires
            old(self).wf(),
        ensures
            final(self).wf(),
            final(self).size == old(self).size,
            painted(
                old(self).buffer,
                final(self).buffer,
                line_cover(old(self).lw(), old(self).lh(), line.0, line.1),
                color,
            ),
            in_bounds(old(self).lw(), old(self).lh(), line.0.x as int, line.0.y as int)
                ==> line_cover(old(self).lw(), old(self).lh(), line.0, line.1).contains(
                (line.0.x as int, line.0.y as int),
            ),
            in_bounds(old(self).lw(), old(self).lh(), line.1.x as int, line.1.y as int)
                ==> line_cover(old(self).lw(), old(self).lh(), line.0, line.1).contains(
                (line.1.x as int, line.1.y as int),
            ),
    {
        let ghost b0 = self.buffer;
        let ghost lw = self.lw();
        let ghost lh = self.lh();
        let pts = line_points(line.0, line.1);
        proof {
            // Both endpoints stand in the walk, so they are covered whenever
            // they lie inside the logical area.
            assert(pts@[0] == line.0 && pts@[pts@.len() - 1] == line.1);
        }
        proof {
            lemma_painted_empty(b0, color);
            assert(points_cover(lw, lh, pts@, 0) =~= Set::<(int, int)>::empty());
        }
        let mut i: usize = 0;
        while i < pts.len()
            invariant
                0 <= i <= pts@.len(),
                pts@ == line_seq(line.0, line.1),
                self.wf(),
                self.size == old(self).size,
                lw == self.lw(),
                lh == self.lh(),
                painted(b0, self.buffer, points_cover(lw, lh, pts@, i as int), color),
            decreases pts@.len() - i,
        {
            let ghost prev = self.buffer;
            self.draw_pixel(pts[i], color);
            proof {
                lemma_painted_trans(
                    b0,
                    prev,
                    self.buffer,
                    points_cover(lw, lh, pts@, i as int),
                    pix_cover(lw, lh, pts@[i as int]),
                    color,
                );
                assert(points_cover(lw, lh, pts@, i as int).union(
                    pix_cover(lw, lh, pts@[i as int]),
                ) =~= points_cover(lw, lh, pts@, i as int + 1)) by {
                    assert forall|p: (int, int)|
                        points_cover(lw, lh, pts@, i as int + 1).contains(p) implies points_cover(
                        lw,
                        lh,
                        pts@,
                        i as int,
                    ).union(pix_cover(lw, lh, pts@[i as int])).contains(p) by {
                        let j = choose|j: int|
                            0 <= j < i as int + 1 && pts@[j].x == p.0 && pts@[j].y == p.1;
                        if j < i as int {
                            assert(points_cover(lw, lh, pts@, i as int).contains(p));
                        } else {
                            assert(pix_cover(lw, lh, pts@[i as int]).contains(p));
                        }
                    }
                }
            }
            i += 1;
        }
        proof {
            assert(points_cover(lw, lh, pts@, pts@.len() as int) =~= line_cover(
                lw,
                lh,
                line.0,
                line.1,
            ));
        }
    }

    /// Fills the pixels of column `col` between rows `from` and `to`
    /// inclusive, clipped to the logical area; a run entirely outside does
    /// nothing.
    pub fn fill_col(&mut self, col: i32, from: i32, to: i32, color: Color)
        requires
            old(self).wf(),
        ensures
            final(self).wf(),
            final(self).size == old(self).size,
            painted(
                old(self).buffer,
                final(self).buffer,
                col_cover(old(self).lw(), old(self).lh(), col as int, from as int, to as int),
                color,
            ),
    {
        let ghost b0 = self.buffer;
        let ghost lw = self.lw();
        let ghost lh = self.lh();
        let self_w = self.size.x as i32;
        let self_h = self.size.y as i32;

        if col < 0 || col >= self_w {
            proof {
                lemma_painted_empty(b0, color);
                assert(col_cover(lw, lh, col as int, from as int, to as int) =~= Set::<
                    (int, int),
                >::empty());
            }
            return ;
        }
        let y0: i32 = if from < 0 {
            0
        } else {
            from
        };
        let y1: i32 = if to >= self_h {
            self_h - 1
        } else {
            to
        };
        proof {
            lemma_painted_empty(b0, color);
            assert(col_cover(lw, lh, col as int, from as int, y0 as int - 1) =~= Set::<
                (int, int),
            >::empty());
        }
        let mut y: i32 = y0;
        while y <= y1
            invariant
                y0 <= y <= y1 + 1 || y == y0,
                y0 == if from < 0 { 0int } else { from as int },
                y1 == if to >= lh { lh - 1 } else { to as int },
                0 <= y0,
                y1 < lh,
                self.wf(),
                self.size == old(self).size,
                lw == self.lw(),
                lh == self.lh(),
                painted(b0, self.buffer, col_cover(lw, lh, col as int, from as int, y - 1), color),
            decreases y1 + 1 - y,
        {
            let ghost prev = self.buffer;
            self.draw_pixel(Vec2 { x: col, y }, color);
            proof {
                lemma_painted_trans(
                    b0,
                    prev,
                    self.buffer,
                    col_cover(lw, lh, col as int, from as int, y - 1),
                    pix_cover(lw, lh, Vec2 { x: col, y }),
                    color,
                );
                assert(col_cover(lw, lh, col as int, from as int, y - 1).union(
                    pix_cover(lw, lh, Vec2 { x: col, y }),
                ) =~= col_cover(lw, lh, col as int, from as int, y as int));
            }
            y += 1;
        }
        proof {
            assert(col_cover(lw, lh, col as int, from as int, y - 1) =~= col_cover(
                lw,
                lh,
                col as int,
                from as int,
                to as int,
            ));
        }
    }

    /// Fills the pixels of row `row` between columns `from` and `to`
    /// inclusive, clipped to the logical area; a run entirely outside does
    /// nothing.
    pub fn fill_row(&mut self, row: i32, from: i32, to: i32, color: Color)
        requires
            old(self).wf(),
        ensures
            final(self).wf(),
            final(self).size == old(self).size,
            painted(
                old(self).buffer,
                final(self).buffer,
                row_cover(old(self).lw(), old(self).lh(), row as int, from as int, to as int),
                color,
            ),
    {
        let ghost b0 = self.buffer;
        let ghost lw = self.lw();
        let ghost lh = self.lh();
        let self_w = self.size.x as i32;
        let self_h = self.size.y as i32;

        if row < 0 || row >= self_h {
            proof {
                lemma_painted_empty(b0, color);
                assert(row_cover(lw, lh, row as int, from as int, to as int) =~= Set::<
                    (int, int),
                >::empty());
            }
            return ;
        }
        let x0: i32 = if from < 0 {
            0
        } else {
            from
        };
        let x1: i32 = if to >= self_w {
            self_w - 1
        } else {
            to
        };
        proof {
            lemma_painted_empty(b0, color);
            assert(row_cover(lw, lh, row as int, from as int, x0 as int - 1) =~= Set::<
                (int, int),
            >::empty());
        }
        let mut x: i32 = x0;
        while x <= x1
            invariant
                x0 <= x <= x1 + 1 || x == x0,
                x0 == if from < 0 { 0int } else { from as int },
                x1 == if to >= lw { lw - 1 } else { to as int },
                0 <= x0,
                x1 < lw,
                self.wf(),
                self.size == old(self).size,
                lw == self.lw(),
                lh == self.lh(),
                painted(b0, self.buffer, row_cover(lw, lh, row as int, from as int, x - 1), color),
            decreases x1 + 1 - x,
        {
            let ghost prev = self.buffer;
            self.draw_pixel(Vec2 { x, y: row }, color);
            proof {
                lemma_painted_trans(
                    b0,
                    prev,
                    self.buffer,
                    row_cover(lw, lh, row as int, from as int, x - 1),
                    pix_cover(lw, lh, Vec2 { x, y: row }),
                    color,
                );
                assert(row_cover(lw, lh, row as int, from as int, x - 1).union(
                    pix_cover(lw, lh, Vec2 { x, y: row }),
                ) =~= row_cover(lw, lh, row as int, from as int, x as int));
            }
            x += 1;
        }
        proof {
            assert(row_cover(lw, lh, row as int, from as int, x - 1) =~= row_cover(
                lw,
                lh,
                row as int,
                from as int,
                to as int,
            ));
        }
    }
}


impl Graphics {
    /// Fills the rectangle's span, clipped to the logical area: exactly the
    /// in-range pixels (x, y) with rect.x <= x < rect.x + rect.w and
    /// rect.y <= y < rect.y + rect.h take the color.
    pub fn fill_rect(&mut self, rect: &Rect, color: Color)
        requires
            old(self).wf(),
        ensures
            final(self).wf(),
            final(self).size == old(self).size,
            painted(
                old(self).buffer,
                final(self).buffer,
                rect_cover(old(self).lw(), old(self).lh(), *rect),
                color,
            ),
    {
        let ghost b0 = self.buffer;
        let ghost lw = self.lw();
        let ghost lh = self.lh();

        let xe: i64 = rect.x as i64 + rect.w as i64;
        let ye: i64 = rect.y as i64 + rect.h as i64;
        let x0: i64 = if rect.x < 0 {
            0
        } else {
            rect.x as i64
        };
        let x1: i64 = if xe > self.size.x as i64 {
            self.size.x as i64
        } else {
            xe
        };
        let y0: i64 = if rect.y < 0 {
            0
        } else {
            rect.y as i64
        };
        let y1: i64 = if ye > self.size.y as i64 {
            self.size.y as i64
        } else {
            ye
        };
        proof {
            lemma_painted_empty(b0, color);
            assert(Set::new(
                |p: (int, int)| rect_cover(lw, lh, *rect).contains(p) && p.0 < x0,
            ) =~= Set::<(int, int)>::empty());
        }
        let mut x: i64 = x0;
        while x < x1
            invariant
                x0 <= x && (x <= x1 || x == x0),
                x0 == if rect.x < 0 { 0int } else { rect.x as int },
                x1 == if rect.x + rect.w > lw { lw } else { rect.x + rect.w },
                y0 == if rect.y < 0 { 0int } else { rect.y as int },
                y1 == if rect.y + rect.h > lh { lh } else { rect.y + rect.h },
                self.wf(),
                self.size == old(self).size,
                lw == self.lw(),
                lh == self.lh(),
                painted(
                    b0,
                    self.buffer,
                    Set::new(|p: (int, int)| rect_cover(lw, lh, *rect).contains(p) && p.0 < x),
                    color,
                ),
            decreases x1 - x,
        {
            let mut y: i64 = y0;
            while y < y1
                invariant
                    y0 <= y && (y <= y1 || y == y0),
                    x0 <= x < x1,
                    x0 == if rect.x < 0 { 0int } else { rect.x as int },
                    x1 == if rect.x + rect.w > lw { lw } else { rect.x + rect.w },
                    y0 == if rect.y < 0 { 0int } else { rect.y as int },
                    y1 == if rect.y + rect.h > lh { lh } else { rect.y + rect.h },
                    self.wf(),
                    self.size == old(self).size,
                    lw == self.lw(),
                    lh == self.lh(),
                    painted(
                        b0,
                        self.buffer,
                        Set::new(
                            |p: (int, int)|
                                rect_cover(lw, lh, *rect).contains(p) && (p.0 < x || (p.0 == x
                                    && p.1 < y)),
                        ),
                        color,
                    ),
                decreases y1 - y,
            {
                let ghost prev = self.buffer;
                self.draw_pixel(Vec2 { x: x as i32, y: y as i32 }, color);
                proof {
                    lemma_painted_trans(
                        b0,
                        prev,
                        self.buffer,
                        Set::new(
                            |p: (int, int)|
                                rect_cover(lw, lh, *rect).contains(p) && (p.0 < x || (p.0 == x
                                    && p.1 < y)),
                        ),
                        pix_cover(lw, lh, Vec2 { x: x as i32, y: y as i32 }),
                        color,
                    );
                    assert(Set::new(
                        |p: (int, int)|
                            rect_cover(lw, lh, *rect).contains(p) && (p.0 < x || (p.0 == x && p.1
                                < y)),
                    ).union(pix_cover(lw, lh, Vec2 { x: x as i32, y: y as i32 })) =~= Set::new(
                        |p: (int, int)|
                            rect_cover(lw, lh, *rect).contains(p) && (p.0 < x || (p.0 == x && p.1
                                < y + 1)),
                    ));
                }
                y += 1;
            }
            proof {
                assert(Set::new(
                    |p: (int, int)|
                        rect_cover(lw, lh, *rect).contains(p) && (p.0 < x || (p.0 == x && p.1
                            < y)),
                ) =~= Set::new(
                    |p: (int, int)| rect_cover(lw, lh, *rect).contains(p) && p.0 < x + 1,
                ));
            }
            x += 1;
        }
        proof {
            assert(Set::new(
                |p: (int, int)| rect_cover(lw, lh, *rect).contains(p) && p.0 < x,
            ) =~= rect_cover(lw, lh, *rect));
        }
    }

    /// Fills the disk around `center`: exactly the in-range pixels of the
    /// closed bounding box whose squared distance to the center is at most
    /// radius squared take the color.
    pub fn fill_circle(&mut self, center: Vec2<i32>, radius: i32, color: Color)
        requires
            old(self).wf(),
            in_i32(center.x - radius),
            in_i32(center.x + radius),
            in_i32(center.y - radius),
            in_i32(center.y + radius),
        ensures
            final(self).wf(),
            final(self).size == old(self).size,
            painted(
                old(self).buffer,
                final(self).buffer,
                circle_cover(old(self).lw(), old(self).lh(), center, radius as int),
                color,
            ),
    {
        let ghost b0 = self.buffer;
        let ghost lw = self.lw();
        let ghost lh = self.lh();
        let ghost cov = circle_cover(lw, lh, center, radius as int);

        let x0: i64 = center.x as i64 - radius as i64;
        let x1: i64 = center.x as i64 + radius as i64;
        let y0: i64 = center.y as i64 - radius as i64;
        let y1: i64 = center.y as i64 + radius as i64;
        proof {
            crate::shapes::lemma_mul_bound(radius as int, radius as int, 0x8000_0000, 0x8000_0000);
        }
        let radius_sq: i64 = radius as i64 * radius as i64;

        proof {
            lemma_painted_empty(b0, color);
            assert(Set::new(|p: (int, int)| cov.contains(p) && p.0 < x0) =~= Set::<
                (int, int),
            >::empty());
        }
        let mut x: i64 = x0;
        while x <= x1
            invariant
                x0 <= x && (x <= x1 + 1 || x == x0),
                x0 == center.x - radius,
                x1 == center.x + radius,
                y0 == center.y - radius,
                y1 == center.y + radius,
                in_i32(x0 as int) && in_i32(x1 as int) && in_i32(y0 as int) && in_i32(y1 as int),
                radius_sq == radius * radius,
                cov == circle_cover(lw, lh, center, radius as int),
                self.wf(),
                self.size == old(self).size,
                lw == self.lw(),
                lh == self.lh(),
                painted(
                    b0,
                    self.buffer,
                    Set::new(|p: (int, int)| cov.contains(p) && p.0 < x),
                    color,
                ),
            decreases x1 + 1 - x,
        {
            let mut y: i64 = y0;
            while y <= y1
                invariant
                    y0 <= y && (y <= y1 + 1 || y == y0),
                    x0 <= x <= x1,
                    x0 == center.x - radius,
                    x1 == center.x + radius,
                    y0 == center.y - radius,
                    y1 == center.y + radius,
                    in_i32(x0 as int) && in_i32(x1 as int) && in_i32(y0 as int) && in_i32(y1 as int),
                    radius_sq == radius * radius,
                    cov == circle_cover(lw, lh, center, radius as int),
                    self.wf(),
                    self.size == old(self).size,
                    lw == self.lw(),
                    lh == self.lh(),
                    painted(
                        b0,
                        self.buffer,
                        Set::new(
                            |p: (int, int)|
                                cov.contains(p) && (p.0 < x || (p.0 == x && p.1 < y)),
                        ),
                        color,
                    ),
                decreases y1 + 1 - y,
            {
                let ddx: i64 = x - center.x as i64;
                let ddy: i64 = y - center.y as i64;
                proof {
                    crate::shapes::lemma_mul_bound(ddx as int, ddx as int, 0x7FFF_FFFF, 0x7FFF_FFFF);
                    crate::shapes::lemma_mul_bound(ddy as int, ddy as int, 0x7FFF_FFFF, 0x7FFF_FFFF);
                }
                let dist_sq: i64 = ddx * ddx + ddy * ddy;
                if dist_sq <= radius_sq {
                    let ghost prev = self.buffer;
                    self.draw_pixel(Vec2 { x: x as i32, y: y as i32 }, color);
                    proof {
                        lemma_painted_trans(
                            b0,
                            prev,
                            self.buffer,
                            Set::new(
                                |p: (int, int)|
                                    cov.contains(p) && (p.0 < x || (p.0 == x && p.1 < y)),
                            ),
                            pix_cover(lw, lh, Vec2 { x: x as i32, y: y as i32 }),
                            color,
                        );
                        assert(Set::new(
                            |p: (int, int)| cov.contains(p) && (p.0 < x || (p.0 == x && p.1 < y)),
                        ).union(pix_cover(lw, lh, Vec2 { x: x as i32, y: y as i32 })) =~= Set::new(
                            |p: (int, int)|
                                cov.contains(p) && (p.0 < x || (p.0 == x && p.1 < y + 1)),
                        ));
                    }
                } else {
                    proof {
                        assert(Set::new(
                            |p: (int, int)| cov.contains(p) && (p.0 < x || (p.0 == x && p.1 < y)),
                        ) =~= Set::new(
                            |p: (int, int)|
                                cov.contains(p) && (p.0 < x || (p.0 == x && p.1 < y + 1)),
                        ));
                    }
                }
                y += 1;
            }
            proof {
                assert(Set::new(
                    |p: (int, int)| cov.contains(p) && (p.0 < x || (p.0 == x && p.1 < y)),
                ) =~= Set::new(|p: (int, int)| cov.contains(p) && p.0 < x + 1));
            }
            x += 1;
        }
        proof {
            assert(Set::new(|p: (int, int)| cov.contains(p) && p.0 < x) =~= cov);
        }
    }

    /// Draws the rectangle's outline: its two edge columns and two edge
    /// rows, clipped to the logical area.
    pub fn draw_rect(&mut self, rect: &Rect, color: Color)
        requires
            old(self).wf(),
            in_i32(rect.x + rect.w),
            in_i32(rect.y + rect.h),
        ensures
            final(self).wf(),
            final(self).size == old(self).size,
            painted(
                old(self).buffer,
                final(self).buffer,
                rect_outline_cover(old(self).lw(), old(self).lh(), *rect),
                color,
            ),
    {
        let ghost b0 = self.buffer;
        let ghost lw = self.lw();
        let ghost lh = self.lh();

        let l = rect.x;
        let t = rect.y;
        let r = l + rect.w;
        let b = t + rect.h;

        let ghost b1g;
        let ghost b2g;
        let ghost b3g;

        self.fill_col(l, t, b, color);
        proof {
            b1g = self.buffer;
        }
        self.fill_col(r, t, b, color);
        proof {
            b2g = self.buffer;
            lemma_painted_trans(
                b0,
                b1g,
                b2g,
                col_cover(lw, lh, l as int, t as int, b as int),
                col_cover(lw, lh, r as int, t as int, b as int),
                color,
            );
        }
        self.fill_row(t, l, r, color);
        proof {
            b3g = self.buffer;
            lemma_painted_trans(
                b0,
                b2g,
                b3g,
                col_cover(lw, lh, l as int, t as int, b as int).union(
                    col_cover(lw, lh, r as int, t as int, b as int),
                ),
                row_cover(lw, lh, t as int, l as int, r as int),
                color,
            );
        }
        self.fill_row(b, l, r, color);
        proof {
            lemma_painted_trans(
                b0,
                b3g,
                self.buffer,
                col_cover(lw, lh, l as int, t as int, b as int).union(
                    col_cover(lw, lh, r as int, t as int, b as int),
                ).union(row_cover(lw, lh, t as int, l as int, r as int)),
                row_cover(lw, lh, b as int, l as int, r as int),
                color,
            );
            assert(col_cover(lw, lh, l as int, t as int, b as int).union(
                col_cover(lw, lh, r as int, t as int, b as int),
            ).union(row_cover(lw, lh, t as int, l as int, r as int)).union(
                row_cover(lw, lh, b as int, l as int, r as int),
            ) =~= rect_outline_cover(lw, lh, *rect));
        }
    }

    /// Draws the triangle's outline: its three edges, each an 8-connected
    /// line walk, clipped to the logical area.
    pub fn draw_tri(&mut self, tri: &Tri, color: Color)
        requires
            old(self).wf(),
        ensures
            final(self).wf(),
            final(self).size == old(self).size,
            painted(
                old(self).buffer,
                final(self).buffer,
                tri_outline_cover(old(self).lw(), old(self).lh(), *tri),
                color,
            ),
    {
        let ghost b0 = self.buffer;
        let ghost lw = self.lw();
        let ghost lh = self.lh();
        let ghost b1g;
        let ghost b2g;

        self.draw_line(&Line(tri.0, tri.1), color);
        proof {
            b1g = self.buffer;
        }
        self.draw_line(&Line(tri.1, tri.2), color);
        proof {
            b2g = self.buffer;
            lemma_painted_trans(
                b0,
                b1g,
                b2g,
                line_cover(lw, lh, tri.0, tri.1),
                line_cover(lw, lh, tri.1, tri.2),
                color,
            );
        }
        self.draw_line(&Line(tri.2, tri.0), color);
        proof {
            lemma_painted_trans(
                b0,
                b2g,
                self.buffer,
                line_cover(lw, lh, tri.0, tri.1).union(line_cover(lw, lh, tri.1, tri.2)),
                line_cover(lw, lh, tri.2, tri.0),
                color,
            );
        }
    }

    /// Draws the polygon's outline: the edge between every consecutive point
    /// pair plus the closing edge from the last point back to the first; a
    /// polygon with fewer than two points draws nothing.
    pub fn draw_poly(&mut self, poly: &Poly, color: Color)
        requires
            old(self).wf(),
        ensures
            final(self).wf(),
            final(self).size == old(self).size,
            painted(
                old(self).buffer,
                final(self).buffer,
                poly_cover(old(self).lw(), old(self).lh(), poly.points@),
                color,
            ),
    {
        let ghost b0 = self.buffer;
        let ghost lw = self.lw();
        let ghost lh = self.lh();
        let ghost pts = poly.points@;

        if poly.points.len() < 2 {
            proof {
                lemma_painted_empty(b0, color);
            }
            return ;
        }
        proof {
            lemma_painted_empty(b0, color);
            assert(painted(b0, self.buffer, edges_cover(lw, lh, pts, 1), color));
        }
        let mut i: usize = 1;
        while i < poly.points.len()
            invariant
                1 <= i <= pts.len(),
                pts == poly.points@,
                pts.len() >= 2,
                self.wf(),
                self.size == old(self).size,
                lw == self.lw(),
                lh == self.lh(),
                painted(b0, self.buffer, edges_cover(lw, lh, pts, i as int), color),
            decreases pts.len() - i,
        {
            let ghost prev = self.buffer;
            self.draw_line(&Line(poly.points[i - 1], poly.points[i]), color);
            proof {
                lemma_painted_trans(
                    b0,
                    prev,
                    self.buffer,
                    edges_cover(lw, lh, pts, i as int),
                    line_cover(lw, lh, pts[i - 1], pts[i as int]),
                    color,
                );
            }
            i += 1;
        }
        let ghost prev = self.buffer;
        let last = poly.points[poly.points.len() - 1];
        self.draw_line(&Line(last, poly.points[0]), color);
        proof {
            lemma_painted_trans(
                b0,
                prev,
                self.buffer,
                edges_cover(lw, lh, pts, pts.len() as int),
                line_cover(lw, lh, pts[pts.len() - 1], pts[0]),
                color,
            );
        }
    }
}


impl Graphics {
    /// Fills the triangle by scanline decomposition: sort by y, split at the
    /// middle vertex if no edge is flat, fill row by row.
    pub fn fill_tri(&mut self, tri: &Tri, color: Color)
        requires
            old(self).wf(),
        ensures
            final(self).wf(),
            final(self).size == old(self).size,
            painted(
                old(self).buffer,
                final(self).buffer,
                crate::tri_rasterizer::tri_fill_cover(
                    old(self).lw(),
                    old(self).lh(),
                    tri.0,
                    tri.1,
                    tri.2,
                ),
                color,
            ),
    {
        crate::tri_rasterizer::raster_tri(self, [tri.0, tri.1, tri.2], color);
    }

    /// Copies a source raster of exactly this session's size over the whole
    /// drawable area: afterwards the destination bytes equal the source
    /// bytes.
    pub fn draw_raster_1to1(&mut self, raster: &PixBufView)
        requires
            old(self).wf(),
            raster.wf(),
            raster.size == old(self).size,
            old(self).buffer.size == old(self).size,
        ensures
            final(self).wf(),
            final(self).size == old(self).size,
            final(self).buffer.size == old(self).buffer.size,
            final(self).buffer.bytes@ == raster.bytes@,
    {
        let fresh = clone_bytes(&raster.bytes);
        self.buffer.bytes = fresh;
    }
}


/// Whether a blit can take the fast whole-buffer copy path: the destination
/// rectangle is the whole drawable area at the origin, and the source extent
/// equals the drawable extent exactly.
pub open spec fn blit_fast_path(rect: Rect, raster_size: Vec2<u32>, size: Vec2<u32>) -> bool {
    rect.x == 0 && rect.y == 0 && rect.w == raster_size.x && rect.h == raster_size.y
        && raster_size.x == size.x && raster_size.y == size.y
}

/// Whether the rectangle, clipped to the logical area, contains at least one
/// pixel, so that a general-path blit samples the source at least once.
pub open spec fn blit_samples(lw: int, lh: int, rect: Rect) -> bool {
    &&& (if rect.x < 0 {
        0int
    } else {
        rect.x as int
    }) < (if rect.x + rect.w > lw {
        lw
    } else {
        rect.x + rect.w
    })
    &&& (if rect.y < 0 {
        0int
    } else {
        rect.y as int
    }) < (if rect.y + rect.h > lh {
        lh
    } else {
        rect.y + rect.h
    })
}

/// The source coordinate sampled for a destination coordinate `v`: the
/// offset inside the rectangle span `rspan` starting at `r0`, scaled to the
/// source span `sspan` by nearest-lower sampling. A destination span of one
/// samples coordinate zero.
pub open spec fn sample_coord(v: int, r0: int, rspan: int, sspan: int) -> int {
    if rspan == 1 {
        0
    } else {
        ((v - r0) * (sspan - 1)) / (rspan - 1)
    }
}

/// The source pixel a general-path blit writes at destination pixel (x, y).
pub open spec fn blit_pixel(
    raster_bytes: Seq<u8>,
    rw: int,
    rh: int,
    rect: Rect,
    x: int,
    y: int,
) -> Color {
    pixel_at(
        raster_bytes,
        rw,
        sample_coord(x, rect.x as int, rect.w as int, rw),
        sample_coord(y, rect.y as int, rect.h as int, rh),
    )
}

impl Graphics {
    /// Blits a source raster into the destination rectangle. When the
    /// rectangle is exactly the full destination surface and the sizes match,
    /// the whole buffer is copied byte for byte; otherwise every pixel of the
    /// clipped rectangle takes the source pixel found by nearest-neighbor
    /// resampling, and every other pixel keeps its value. The raw copy needs
    /// the session to span its whole view, since the byte lengths must match
    /// for a full-buffer copy.
    pub fn draw_pixels(&mut self, raster: &PixBufView, rect: &Rect)
        requires
            old(self).wf(),
            raster.wf(),
            blit_fast_path(*rect, raster.size, old(self).size) ==> old(self).buffer.size == old(
                self,
            ).size,
            !blit_fast_path(*rect, raster.size, old(self).size) && blit_samples(
                old(self).lw(),
                old(self).lh(),
                *rect,
            ) ==> raster.size.x >= 1 && raster.size.y >= 1,
        ensures
            final(self).wf(),
            final(self).size == old(self).size,
            final(self).buffer.size == old(self).buffer.size,
            final(self).buffer.bytes@.len() == old(self).buffer.bytes@.len(),
            blit_fast_path(*rect, raster.size, old(self).size) ==> final(self).buffer.bytes@
                == raster.bytes@,
            !blit_fast_path(*rect, raster.size, old(self).size) ==> forall|x: int, y: int|
                in_bounds(old(self).buffer.w(), old(self).buffer.h(), x, y)
                    ==> #[trigger] pixel_at(final(self).buffer.bytes@, old(self).buffer.w(), x, y)
                    == if rect_cover(old(self).lw(), old(self).lh(), *rect).contains((x, y)) {
                    blit_pixel(raster.bytes@, raster.w(), raster.h(), *rect, x, y)
                } else {
                    pixel_at(old(self).buffer.bytes@, old(self).buffer.w(), x, y)
                },
    {
        let raster_w = raster.size.x;
        let raster_h = raster.size.y;
        if rect.x == 0 && rect.y == 0 && rect.w == raster_w as i32 && rect.h == raster_h as i32
            && raster_w == self.size.x && raster_h == self.size.y {
            self.draw_raster_1to1(raster);
            return ;
        }
        let ghost b0 = self.buffer;
        let ghost lw = self.lw();
        let ghost lh = self.lh();
        let ghost cov = rect_cover(lw, lh, *rect);

        let xe: i64 = rect.x as i64 + rect.w as i64;
        let ye: i64 = rect.y as i64 + rect.h as i64;
        let x0: i64 = if rect.x < 0 {
            0
        } else {
            rect.x as i64
        };
        let x1: i64 = if xe > self.size.x as i64 {
            self.size.x as i64
        } else {
            xe
        };
        let y0: i64 = if rect.y < 0 {
            0
        } else {
            rect.y as i64
        };
        let y1: i64 = if ye > self.size.y as i64 {
            self.size.y as i64
        } else {
            ye
        };

        let mut x: i64 = x0;
        while x < x1
            invariant
                x0 <= x && (x <= x1 || x == x0),
                x0 == if rect.x < 0 { 0int } else { rect.x as int },
                x1 == if rect.x + rect.w > lw { lw } else { rect.x + rect.w },
                y0 == if rect.y < 0 { 0int } else { rect.y as int },
                y1 == if rect.y + rect.h > lh { lh } else { rect.y + rect.h },
                x0 < x1 && y0 < y1 ==> raster.size.x >= 1 && raster.size.y >= 1,
                raster_w == raster.size.x,
                raster_h == raster.size.y,
                raster.wf(),
                cov == rect_cover(lw, lh, *rect),
                self.wf(),
                self.size == old(self).size,
                self.buffer.size == b0.size,
                self.buffer.bytes@.len() == b0.bytes@.len(),
                lw == self.lw(),
                lh == self.lh(),
                forall|x2: int, y2: int|
                    in_bounds(b0.w(), b0.h(), x2, y2) ==> #[trigger] pixel_at(
                        self.buffer.bytes@,
                        b0.w(),
                        x2,
                        y2,
                    ) == if cov.contains((x2, y2)) && x2 < x {
                        blit_pixel(raster.bytes@, raster.w(), raster.h(), *rect, x2, y2)
                    } else {
                        pixel_at(b0.bytes@, b0.w(), x2, y2)
                    },
            decreases x1 - x,
        {
            let mut y: i64 = y0;
            while y < y1
                invariant
                    y0 <= y && (y <= y1 || y == y0),
                    x0 <= x < x1,
                    x0 == if rect.x < 0 { 0int } else { rect.x as int },
                    x1 == if rect.x + rect.w > lw { lw } else { rect.x + rect.w },
                    y0 == if rect.y < 0 { 0int } else { rect.y as int },
                    y1 == if rect.y + rect.h > lh { lh } else { rect.y + rect.h },
                    y0 < y1 ==> raster.size.x >= 1 && raster.size.y >= 1,
                    raster_w == raster.size.x,
                    raster_h == raster.size.y,
                    raster.wf(),
                    cov == rect_cover(lw, lh, *rect),
                    self.wf(),
                    self.size == old(self).size,
                    self.buffer.size == b0.size,
                    self.buffer.bytes@.len() == b0.bytes@.len(),
                    lw == self.lw(),
                    lh == self.lh(),
                    forall|x2: int, y2: int|
                        in_bounds(b0.w(), b0.h(), x2, y2) ==> #[trigger] pixel_at(
                            self.buffer.bytes@,
                            b0.w(),
                            x2,
                            y2,
                        ) == if cov.contains((x2, y2)) && (x2 < x || (x2 == x && y2 < y)) {
                            blit_pixel(raster.bytes@, raster.w(), raster.h(), *rect, x2, y2)
                        } else {
                            pixel_at(b0.bytes@, b0.w(), x2, y2)
                        },
                decreases y1 - y,
            {
                let img_x: i64 = if rect.w == 1 {
                    0
                } else {
                    proof {
                        crate::shapes::lemma_mul_bound(
                            (x - rect.x as i64) as int,
                            (raster_w - 1) as int,
                            0xFFFF_FFFF,
                            0x7FFF_FFFF,
                        );
                        crate::tri_rasterizer::lemma_lerp_bound(
                            (x - rect.x as i64) as int,
                            (rect.w - 1) as int,
                            (raster_w - 1) as int,
                        );
                    }
                    ((x - rect.x as i64) * (raster_w as i64 - 1)) / (rect.w as i64 - 1)
                };
                let img_y: i64 = if rect.h == 1 {
                    0
                } else {
                    proof {
                        crate::shapes::lemma_mul_bound(
                            (y - rect.y as i64) as int,
                            (raster_h - 1) as int,
                            0xFFFF_FFFF,
                            0x7FFF_FFFF,
                        );
                        crate::tri_rasterizer::lemma_lerp_bound(
                            (y - rect.y as i64) as int,
                            (rect.h - 1) as int,
                            (raster_h - 1) as int,
                        );
                    }
                    ((y - rect.y as i64) * (raster_h as i64 - 1)) / (rect.h as i64 - 1)
                };
                assert(img_x == sample_coord(x as int, rect.x as int, rect.w as int, raster.w()));
                assert(img_y == sample_coord(y as int, rect.y as int, rect.h as int, raster.h()));
                assert(0 <= img_x < raster.w());
                assert(0 <= img_y < raster.h());
                let c = raster.get_pixel_unchecked(Vec2 { x: img_x as i32, y: img_y as i32 });
                let ghost prev = self.buffer;
                self.buffer.set_pixel_unchecked(Vec2 { x: x as i32, y: y as i32 }, c);
                proof {
                    assert(cov.contains((x as int, y as int)));
                    assert(c == blit_pixel(
                        raster.bytes@,
                        raster.w(),
                        raster.h(),
                        *rect,
                        x as int,
                        y as int,
                    ));
                    assert forall|x2: int, y2: int|
                        in_bounds(b0.w(), b0.h(), x2, y2) implies #[trigger] pixel_at(
                        self.buffer.bytes@,
                        b0.w(),
                        x2,
                        y2,
                    ) == if cov.contains((x2, y2)) && (x2 < x || (x2 == x && y2 < y + 1)) {
                        blit_pixel(raster.bytes@, raster.w(), raster.h(), *rect, x2, y2)
                    } else {
                        pixel_at(b0.bytes@, b0.w(), x2, y2)
                    } by {
                        assert(pixel_at(self.buffer.bytes@, prev.w(), x2, y2) == if x2 == x && y2
                            == y {
                            c
                        } else {
                            pixel_at(prev.bytes@, prev.w(), x2, y2)
                        });
                        assert(pixel_at(prev.bytes@, prev.w(), x2, y2) == if cov.contains((x2, y2))
                            && (x2 < x || (x2 == x && y2 < y)) {
                            blit_pixel(raster.bytes@, raster.w(), raster.h(), *rect, x2, y2)
                        } else {
                            pixel_at(b0.bytes@, b0.w(), x2, y2)
                        });
                    }
                }
                y += 1;
            }
            x += 1;
        }
        proof {
            assert forall|x2: int, y2: int| in_bounds(b0.w(), b0.h(), x2, y2) implies #[trigger] pixel_at(
                self.buffer.bytes@,
                b0.w(),
                x2,
                y2,
            ) == if cov.contains((x2, y2)) {
                blit_pixel(raster.bytes@, raster.w(), raster.h(), *rect, x2, y2)
            } else {
                pixel_at(b0.bytes@, b0.w(), x2, y2)
            } by {
                if cov.contains((x2, y2)) {
                    assert(x2 < x);
                }
            }
        }
    }
}


impl Graphics {
    /// Writes one pixel at a position already proven inside the logical
    /// area.
    pub fn draw_pixel_unchecked(&mut self, pos: Vec2<i32>, color: Color)
        requires
            old(self).wf(),
            in_bounds(old(self).lw(), old(self).lh(), pos.x as int, pos.y as int),
        ensures
            final(self).wf(),
            final(self).size == old(self).size,
            painted(
                old(self).buffer,
                final(self).buffer,
                pix_cover(old(self).lw(), old(self).lh(), pos),
                color,
            ),
    {
        self.buffer.set_pixel_unchecked(pos, color);
    }

    /// Fills every pixel of the rectangle's span, clipped to the logical
    /// area, with a color the caller-supplied function can return for that
    /// position; every other pixel keeps its value.
    pub fn shade_rect<F: Fn(Vec2<i32>) -> Color>(&mut self, rect: &Rect, color_fn: F)
        requires
            old(self).wf(),
            forall|p: Vec2<i32>|
                rect_cover(old(self).lw(), old(self).lh(), *rect).contains((p.x as int, p.y as int))
                    ==> call_requires(color_fn, (p,)),
        ensures
            final(self).wf(),
            final(self).size == old(self).size,
            final(self).buffer.size == old(self).buffer.size,
            final(self).buffer.bytes@.len() == old(self).buffer.bytes@.len(),
            forall|x: int, y: int|
                in_bounds(old(self).buffer.w(), old(self).buffer.h(), x, y) && !rect_cover(
                    old(self).lw(),
                    old(self).lh(),
                    *rect,
                ).contains((x, y)) ==> #[trigger] pixel_at(
                    final(self).buffer.bytes@,
                    old(self).buffer.w(),
                    x,
                    y,
                ) == pixel_at(old(self).buffer.bytes@, old(self).buffer.w(), x, y),
            forall|x: int, y: int|
                in_bounds(old(self).buffer.w(), old(self).buffer.h(), x, y) && rect_cover(
                    old(self).lw(),
                    old(self).lh(),
                    *rect,
                ).contains((x, y)) ==> #[trigger] shaded_pixel(
                    color_fn,
                    final(self).buffer.bytes@,
                    old(self).buffer.w(),
                    x,
                    y,
                ),
    {
        let ghost b0 = self.buffer;
        let ghost lw = self.lw();
        let ghost lh = self.lh();
        let ghost cov = rect_cover(lw, lh, *rect);

        let xe: i64 = rect.x as i64 + rect.w as i64;
        let ye: i64 = rect.y as i64 + rect.h as i64;
        let x0: i64 = if rect.x < 0 {
            0
        } else {
            rect.x as i64
        };
        let x1: i64 = if xe > self.size.x as i64 {
            self.size.x as i64
        } else {
            xe
        };
        let y0: i64 = if rect.y < 0 {
            0
        } else {
            rect.y as i64
        };
        let y1: i64 = if ye > self.size.y as i64 {
            self.size.y as i64
        } else {
            ye
        };

        let mut x: i64 = x0;
        while x < x1
            invariant
                x0 <= x && (x <= x1 || x == x0),
                x0 == if rect.x < 0 { 0int } else { rect.x as int },
                x1 == if rect.x + rect.w > lw { lw } else { rect.x + rect.w },
                y0 == if rect.y < 0 { 0int } else { rect.y as int },
                y1 == if rect.y + rect.h > lh { lh } else { rect.y + rect.h },
                cov == rect_cover(lw, lh, *rect),
                forall|p: Vec2<i32>|
                    cov.contains((p.x as int, p.y as int)) ==> call_requires(color_fn, (p,)),
                self.wf(),
                self.size == old(self).size,
                self.buffer.size == b0.size,
                self.buffer.bytes@.len() == b0.bytes@.len(),
                lw == self.lw(),
                lh == self.lh(),
                forall|x2: int, y2: int|
                    in_bounds(b0.w(), b0.h(), x2, y2) && !(cov.contains((x2, y2)) && x2 < x)
                        ==> #[trigger] pixel_at(self.buffer.bytes@, b0.w(), x2, y2) == pixel_at(
                        b0.bytes@,
                        b0.w(),
                        x2,
                        y2,
                    ),
                forall|x2: int, y2: int|
                    in_bounds(b0.w(), b0.h(), x2, y2) && cov.contains((x2, y2)) && x2 < x
                        ==> #[trigger] shaded_pixel(color_fn, self.buffer.bytes@, b0.w(), x2, y2),
            decreases x1 - x,
        {
            let mut y: i64 = y0;
            while y < y1
                invariant
                    y0 <= y && (y <= y1 || y == y0),
                    x0 <= x < x1,
                    x0 == if rect.x < 0 { 0int } else { rect.x as int },
                    x1 == if rect.x + rect.w > lw { lw } else { rect.x + rect.w },
                    y0 == if rect.y < 0 { 0int } else { rect.y as int },
                    y1 == if rect.y + rect.h > lh { lh } else { rect.y + rect.h },
                    cov == rect_cover(lw, lh, *rect),
                    forall|p: Vec2<i32>|
                        cov.contains((p.x as int, p.y as int)) ==> call_requires(color_fn, (p,)),
                    self.wf(),
                    self.size == old(self).size,
                    self.buffer.size == b0.size,
                    self.buffer.bytes@.len() == b0.bytes@.len(),
                    lw == self.lw(),
                    lh == self.lh(),
                    forall|x2: int, y2: int|
                        in_bounds(b0.w(), b0.h(), x2, y2) && !(cov.contains((x2, y2)) && (x2 < x
                            || (x2 == x && y2 < y))) ==> #[trigger] pixel_at(
                            self.buffer.bytes@,
                            b0.w(),
                            x2,
                            y2,
                        ) == pixel_at(b0.bytes@, b0.w(), x2, y2),
                    forall|x2: int, y2: int|
                        in_bounds(b0.w(), b0.h(), x2, y2) && cov.contains((x2, y2)) && (x2 < x || (
                        x2 == x && y2 < y)) ==> #[trigger] shaded_pixel(
                            color_fn,
                            self.buffer.bytes@,
                            b0.w(),
                            x2,
                            y2,
                        ),
                decreases y1 - y,
            {
                let pos = Vec2 { x: x as i32, y: y as i32 };
                proof {
                    assert(cov.contains((pos.x as int, pos.y as int)));
                }
                let c = color_fn(pos);
                let ghost prev = self.buffer;
                self.buffer.set_pixel_unchecked(pos, c);
                proof {
                    assert forall|x2: int, y2: int|
                        in_bounds(b0.w(), b0.h(), x2, y2) && cov.contains((x2, y2)) && (x2 < x || (
                        x2 == x && y2 < y + 1)) implies #[trigger] shaded_pixel(
                        color_fn,
                        self.buffer.bytes@,
                        b0.w(),
                        x2,
                        y2,
                    ) by {
                        assert(pixel_at(self.buffer.bytes@, prev.w(), x2, y2) == if x2 == x && y2
                            == y {
                            c
                        } else {
                            pixel_at(prev.bytes@, prev.w(), x2, y2)
                        });
                        if x2 == x && y2 == y {
                            assert(call_ensures(color_fn, (Vec2 { x: x2 as i32, y: y2 as i32 },), c)
                                && pixel_at(self.buffer.bytes@, b0.w(), x2, y2) == c);
                        } else {
                            lemma_shaded_same(
                                color_fn,
                                prev.bytes@,
                                self.buffer.bytes@,
                                b0.w(),
                                x2,
                                y2,
                            );
                        }
                    }
                    assert forall|x2: int, y2: int|
                        in_bounds(b0.w(), b0.h(), x2, y2) && !(cov.contains((x2, y2)) && (x2 < x
                            || (x2 == x && y2 < y + 1))) implies #[trigger] pixel_at(
                        self.buffer.bytes@,
                        b0.w(),
                        x2,
                        y2,
                    ) == pixel_at(b0.bytes@, b0.w(), x2, y2) by {
                        assert(pixel_at(self.buffer.bytes@, prev.w(), x2, y2) == if x2 == x && y2
                            == y {
                            c
                        } else {
                            pixel_at(prev.bytes@, prev.w(), x2, y2)
                        });
                        assert(!(x2 == x && y2 == y));
                    }
                }
                y += 1;
            }
            proof {
                assert forall|x2: int, y2: int|
                    in_bounds(b0.w(), b0.h(), x2, y2) && cov.contains((x2, y2)) && x2 < x
                        + 1 implies #[trigger] shaded_pixel(
                    color_fn,
                    self.buffer.bytes@,
                    b0.w(),
                    x2,
                    y2,
                ) by {
                    assert(x2 < x || (x2 == x && y2 < y));
                }
                assert forall|x2: int, y2: int|
                    in_bounds(b0.w(), b0.h(), x2, y2) && !(cov.contains((x2, y2)) && x2 < x
                        + 1) implies #[trigger] pixel_at(self.buffer.bytes@, b0.w(), x2, y2)
                    == pixel_at(b0.bytes@, b0.w(), x2, y2) by {
                    assert(!(cov.contains((x2, y2)) && (x2 < x || (x2 == x && y2 < y))));
                }
            }
            x += 1;
        }
        proof {
            assert forall|x2: int, y2: int|
                #![trigger cov.contains((x2, y2))]
                in_bounds(b0.w(), b0.h(), x2, y2) && cov.contains((x2, y2)) implies (x2 < x) by {}
        }
    }
}

/// Whether the pixel at (x, y) holds a color that `color_fn` can return for
/// that position.
pub open spec fn shaded_pixel<F: Fn(Vec2<i32>) -> Color>(
    color_fn: F,
    bytes: Seq<u8>,
    w: int,
    x: int,
    y: int,
) -> bool {
    exists|c: Color|
        #![trigger call_ensures(color_fn, (Vec2 { x: x as i32, y: y as i32 },), c)]
        call_ensures(color_fn, (Vec2 { x: x as i32, y: y as i32 },), c) && pixel_at(bytes, w, x, y)
            == c
}

/// A pixel shaded in one buffer stays shaded in a buffer that holds the same
/// color there.
proof fn lemma_shaded_same<F: Fn(Vec2<i32>) -> Color>(
    color_fn: F,
    b1: Seq<u8>,
    b2: Seq<u8>,
    w: int,
    x: int,
    y: int,
)
    requires
        shaded_pixel(color_fn, b1, w, x, y),
        pixel_at(b2, w, x, y) == pixel_at(b1, w, x, y),
    ensures
        shaded_pixel(color_fn, b2, w, x, y),
{
    let c = choose|c: Color|
        #![trigger call_ensures(color_fn, (Vec2 { x: x as i32, y: y as i32 },), c)]
        call_ensures(color_fn, (Vec2 { x: x as i32, y: y as i32 },), c) && pixel_at(b1, w, x, y)
            == c;
    assert(call_ensures(color_fn, (Vec2 { x: x as i32, y: y as i32 },), c) && pixel_at(b2, w, x, y)
        == c);
}



} // verus!
