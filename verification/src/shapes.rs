//! Geometry primitives: lines, rectangles, polygons and triangles, with the
//! geometric queries the rasterizer and the triangulator rely on
//! (point-in-triangle, segment intersection, point-on-line projection).
//!
//! Polygons and triangles list their points in clockwise winding order in a
//! y-down coordinate space; the sign-based containment tests are only
//! meaningful under that convention.

use vstd::prelude::*;

use crate::vectors::Vec2;

verus! {

/// Truncating (round-toward-zero) division by a positive divisor, as the
/// machine division operator computes it.
pub open spec fn trunc_div(a: int, b: int) -> int {
    if a >= 0 {
        a / b
    } else {
        -((-a) / b)
    }
}

/// A product of two values of magnitude at most `m` and `n` has magnitude at
/// most `m * n`.
pub(crate) proof fn lemma_mul_bound(a: int, b: int, m: int, n: int)
    by (nonlinear_arith)
    requires
        -m <= a <= m,
        -n <= b <= n,
        0 <= m,
        0 <= n,
    ensures
        -(m * n) <= a * b <= m * n,
{
}

/// The 2D cross product of the edges (a -> b) and (a -> c). Its sign tells on
/// which side of the directed line a -> b the point c lies: positive means
/// the counter-clockwise side in the y-down coordinate space.
pub open spec fn cross3(a: Vec2<i32>, b: Vec2<i32>, c: Vec2<i32>) -> int {
    (b.x - a.x) * (c.y - a.y) - (b.y - a.y) * (c.x - a.x)
}

/// Swapping the first two vertices of a triangle negates its cross product:
/// the sign of `cross3` is the triangle's winding, and a transposition flips
/// it.
pub proof fn lemma_cross3_swap(a: Vec2<i32>, b: Vec2<i32>, c: Vec2<i32>)
    by (nonlinear_arith)
    ensures
        cross3(b, a, c) == -cross3(a, b, c),
{
}

/// Whether `p` lies inside or on the triangle (a, b, c) listed in clockwise
/// winding order: none of the three cross products is negative.
pub open spec fn tri_contains_spec(a: Vec2<i32>, b: Vec2<i32>, c: Vec2<i32>, p: Vec2<i32>) -> bool {
    cross3(a, b, p) >= 0 && cross3(b, c, p) >= 0 && cross3(c, a, p) >= 0
}

/// Computes `cross3` exactly in a wide integer.
pub fn cross3_exec(a: Vec2<i32>, b: Vec2<i32>, c: Vec2<i32>) -> (r: i128)
    ensures
        r == cross3(a, b, c),
{
    let abx = b.x as i128 - a.x as i128;
    let aby = b.y as i128 - a.y as i128;
    let acx = c.x as i128 - a.x as i128;
    let acy = c.y as i128 - a.y as i128;
    proof {
        lemma_mul_bound(abx as int, acy as int, 0x1_0000_0000, 0x1_0000_0000);
        lemma_mul_bound(aby as int, acx as int, 0x1_0000_0000, 0x1_0000_0000);
    }
    abx * acy - aby * acx
}

/// An ordered, non-empty ring of points in clockwise winding order; the last
/// point implicitly connects back to the first.
#[derive(Clone, Debug)]
pub struct Poly {
    pub points: Vec<Vec2<i32>>,
}

impl Poly {
    pub fn empty() -> (r: Self)
        ensures
            r.points@ == Seq::<Vec2<i32>>::empty(),
    {
        Poly { points: Vec::new() }
    }

    pub fn new(points: &[Vec2<i32>]) -> (r: Self)
        ensures
            r.points@ == points@,
    {
        let mut v: Vec<Vec2<i32>> = Vec::new();
        let mut i: usize = 0;
        while i < points.len()
            invariant
                0 <= i <= points.len(),
                v@ == points@.subrange(0, i as int),
            decreases points.len() - i,
        {
            v.push(points[i]);
            i += 1;
        }
        proof {
            assert(points@.subrange(0, points@.len() as int) =~= points@);
        }
        Poly { points: v }
    }

    /// The edges between consecutive points, plus the closing edge from the
    /// last point back to the first.
    pub fn lines(&self) -> (r: Vec<Line>)
        requires
            self.points@.len() >= 1,
        ensures
            r@.len() == self.points@.len(),
            forall|i: int|
                0 <= i < self.points@.len() - 1 ==> r@[i] == Line(
                    self.points@[i],
                    self.points@[i + 1],
                ),
            r@[self.points@.len() - 1] == Line(
                self.points@[self.points@.len() - 1],
                self.points@[0],
            ),
    {
        let len = self.points.len();
        let mut lines: Vec<Line> = Vec::new();
        let mut i: usize = 1;
        while i < len
            invariant
                1 <= i <= len,
                len == self.points@.len(),
                lines@.len() == i - 1,
                forall|j: int|
                    0 <= j < i - 1 ==> lines@[j] == Line(self.points@[j], self.points@[j + 1]),
            decreases len - i,
        {
            lines.push(Line(self.points[i - 1], self.points[i]));
            i += 1;
        }
        lines.push(Line(self.points[len - 1], self.points[0]));
        lines
    }
}

/// Exactly three points, in the same clockwise winding convention as `Poly`.
#[derive(Clone, Copy, PartialEq, Eq, Structural, Debug)]
pub struct Tri(pub Vec2<i32>, pub Vec2<i32>, pub Vec2<i32>);

impl Tri {
    pub fn new(verts: &[Vec2<i32>; 3]) -> (r: Self)
        ensures
            r == Tri(verts[0], verts[1], verts[2]),
    {
        Tri(verts[0], verts[1], verts[2])
    }

    pub fn lines(&self) -> (r: [Line; 3])
        ensures
            r[0] == Line(self.0, self.1),
            r[1] == Line(self.1, self.2),
            r[2] == Line(self.2, self.0),
    {
        [Line(self.0, self.1), Line(self.1, self.2), Line(self.2, self.0)]
    }

    /// Whether `p` lies inside or on this triangle. Only correct when the
    /// points are listed in clockwise winding order.
    pub fn contains_point(&self, p: Vec2<i32>) -> (r: bool)
        ensures
            r == tri_contains_spec(self.0, self.1, self.2, p),
    {
        let cross1 = cross3_exec(self.0, self.1, p);
        let cross2 = cross3_exec(self.1, self.2, p);
        let cross3 = cross3_exec(self.2, self.0, p);
        !(cross1 < 0 || cross2 < 0 || cross3 < 0)
    }
}

/// An ordered pair of points. Not directional for the intersection queries,
/// directional for rasterization (the order fixes the stepping direction).
#[derive(Clone, Copy, PartialEq, Eq, Structural, Debug)]
pub struct Line(pub Vec2<i32>, pub Vec2<i32>);

/// Whether the exact rational value num/det lies strictly between 0 and 1.
pub open spec fn ratio_strictly_inside(num: int, det: int) -> bool {
    if det > 0 {
        0 < num < det
    } else {
        det < num < 0
    }
}

/// Whether the open segments `a` and `b` properly cross: the intersection
/// parameter along each segment lies strictly between the endpoints, decided
/// by exact rational arithmetic. Parallel segments never cross.
pub open spec fn lines_intersect_spec(a: Line, b: Line) -> bool {
    let det = (a.1.x - a.0.x) * (b.1.y - b.0.y) - (b.1.x - b.0.x) * (a.1.y - a.0.y);
    let lambda_num = (b.1.y - b.0.y) * (b.1.x - a.0.x) + (b.0.x - b.1.x) * (b.1.y - a.0.y);
    let gamma_num = (a.0.y - a.1.y) * (b.1.x - a.0.x) + (a.1.x - a.0.x) * (b.1.y - a.0.y);
    det != 0 && ratio_strictly_inside(lambda_num, det) && ratio_strictly_inside(gamma_num, det)
}

impl Line {
    pub fn intersects_line(&self, other: &Line) -> (r: bool)
        ensures
            r == lines_intersect_spec(*self, *other),
    {
        lines_intersect(self, other)
    }

    /// The numerators of the intersection point of the two infinite lines, by
    /// Cramer's rule, computed in the 32-bit arithmetic of the rasterizer;
    /// `None` when the lines are parallel.
    pub fn line_intersection(&self, other: &Line) -> (r: Option<Vec2<i32>>)
        requires
            intersection_in_range(*self, *other),
        ensures
            ({
                let xda = self.0.x - self.1.x;
                let xdb = other.0.x - other.1.x;
                let yda = self.0.y - self.1.y;
                let ydb = other.0.y - other.1.y;
                let div = xda * ydb - xdb * yda;
                let dx = self.0.x * self.1.y - self.0.y * self.1.x;
                let dy = other.0.x * other.1.y - other.0.y * other.1.x;
                if div == 0 {
                    r is None
                } else {
                    r == Some(
                        Vec2 { x: (dx * xdb - dy * xda) as i32, y: (dx * ydb - dy * yda) as i32 },
                    )
                }
            }),
    {
        let xdiff = Vec2 { x: self.0.x - self.1.x, y: other.0.x - other.1.x };
        let ydiff = Vec2 { x: self.0.y - self.1.y, y: other.0.y - other.1.y };

        let div = xdiff.x * ydiff.y - xdiff.y * ydiff.x;
        if div == 0 {
            return None;
        }
        let d = Vec2 {
            x: self.0.x * self.1.y - self.0.y * self.1.x,
            y: other.0.x * other.1.y - other.0.y * other.1.x,
        };
        Some(
            Vec2 {
                x: d.x * xdiff.y - d.y * xdiff.x,
                y: d.x * ydiff.y - d.y * ydiff.x,
            },
        )
    }

    pub fn min_x(&self) -> (r: i32)
        ensures
            r == if self.0.x < self.1.x { self.0.x } else { self.1.x },
    {
        if self.0.x < self.1.x { self.0.x } else { self.1.x }
    }

    pub fn max_x(&self) -> (r: i32)
        ensures
            r == if self.0.x > self.1.x { self.0.x } else { self.1.x },
    {
        if self.0.x > self.1.x { self.0.x } else { self.1.x }
    }

    pub fn min_y(&self) -> (r: i32)
        ensures
            r == if self.0.y < self.1.y { self.0.y } else { self.1.y },
    {
        if self.0.y < self.1.y { self.0.y } else { self.1.y }
    }

    pub fn max_y(&self) -> (r: i32)
        ensures
            r == if self.0.y > self.1.y { self.0.y } else { self.1.y },
    {
        if self.0.y > self.1.y { self.0.y } else { self.1.y }
    }
}

/// Every intermediate value of `line_intersection`'s Cramer determinants fits
/// in the signed 32-bit range, so the computation neither wraps nor panics.
pub open spec fn intersection_in_range(a: Line, b: Line) -> bool {
    let xda = a.0.x - a.1.x;
    let xdb = b.0.x - b.1.x;
    let yda = a.0.y - a.1.y;
    let ydb = b.0.y - b.1.y;
    let dx = a.0.x * a.1.y - a.0.y * a.1.x;
    let dy = b.0.x * b.1.y - b.0.y * b.1.x;
    &&& in_i32(xda) && in_i32(xdb) && in_i32(yda) && in_i32(ydb)
    &&& in_i32(a.0.x * a.1.y) && in_i32(a.0.y * a.1.x) && in_i32(dx)
    &&& in_i32(b.0.x * b.1.y) && in_i32(b.0.y * b.1.x) && in_i32(dy)
    &&& in_i32(xda * ydb) && in_i32(xdb * yda) && in_i32(xda * ydb - xdb * yda)
    &&& in_i32(dx * ydb) && in_i32(dy * yda) && in_i32(dx * ydb - dy * yda)
    &&& in_i32(dx * xdb) && in_i32(dy * xda) && in_i32(dx * xdb - dy * xda)
}

/// Whether a value lies in the signed 32-bit range.
pub open spec fn in_i32(v: int) -> bool {
    i32::MIN <= v <= i32::MAX
}

/// Whether the open segments `a` and `b` properly cross, decided by exact
/// rational arithmetic in wide integers.
pub fn lines_intersect(a: &Line, b: &Line) -> (r: bool)
    ensures
        r == lines_intersect_spec(*a, *b),
{
    let (p, q, rr, s) = (b.0.x as i128, b.0.y as i128, b.1.x as i128, b.1.y as i128);
    let (aa, bb, cc, dd) = (a.0.x as i128, a.0.y as i128, a.1.x as i128, a.1.y as i128);

    proof {
        lemma_mul_bound((cc - aa) as int, (s - q) as int, 0x1_0000_0000, 0x1_0000_0000);
        lemma_mul_bound((rr - p) as int, (dd - bb) as int, 0x1_0000_0000, 0x1_0000_0000);
        lemma_mul_bound((s - q) as int, (rr - aa) as int, 0x1_0000_0000, 0x1_0000_0000);
        lemma_mul_bound((p - rr) as int, (s - bb) as int, 0x1_0000_0000, 0x1_0000_0000);
        lemma_mul_bound((bb - dd) as int, (rr - aa) as int, 0x1_0000_0000, 0x1_0000_0000);
        lemma_mul_bound((cc - aa) as int, (s - bb) as int, 0x1_0000_0000, 0x1_0000_0000);
    }
    let det = (cc - aa) * (s - q) - (rr - p) * (dd - bb);
    if det == 0 {
        return false;
    }
    let lambda_num = (s - q) * (rr - aa) + (p - rr) * (s - bb);
    let gamma_num = (bb - dd) * (rr - aa) + (cc - aa) * (s - bb);
    if det > 0 {
        0 < lambda_num && lambda_num < det && 0 < gamma_num && gamma_num < det
    } else {
        det < lambda_num && lambda_num < 0 && det < gamma_num && gamma_num < 0
    }
}

/// The projection of `p` onto the infinite line through the segment, rounded
/// toward zero in each coordinate.
pub open spec fn projection_spec(p: Vec2<i32>, line: Line) -> (int, int) {
    let e1x = line.1.x - line.0.x;
    let e1y = line.1.y - line.0.y;
    let dpx = p.x - line.0.x;
    let dpy = p.y - line.0.y;
    let dp = e1x * dpx + e1y * dpy;
    let len2 = e1x * e1x + e1y * e1y;
    (line.0.x + trunc_div(dp * e1x, len2), line.0.y + trunc_div(dp * e1y, len2))
}

/// Whether both coordinates of the projection of `p` fit in the signed 32-bit
/// range.
pub open spec fn projection_in_range(p: Vec2<i32>, line: Line) -> bool {
    in_i32(projection_spec(p, line).0) && in_i32(projection_spec(p, line).1)
}

/// Projects `p` onto the infinite line through `line`'s endpoints.
pub fn project_point_onto_line(p: Vec2<i32>, line: &Line) -> (r: Vec2<i32>)
    requires
        line.0 != line.1,
        projection_in_range(p, *line),
    ensures
        r.x == projection_spec(p, *line).0,
        r.y == projection_spec(p, *line).1,
{
    let Line(v1, v2) = *line;

    let e1x = v2.x as i128 - v1.x as i128;
    let e1y = v2.y as i128 - v1.y as i128;
    let e2x = p.x as i128 - v1.x as i128;
    let e2y = p.y as i128 - v1.y as i128;
    proof {
        lemma_mul_bound(e1x as int, e2x as int, 0x1_0000_0000, 0x1_0000_0000);
        lemma_mul_bound(e1y as int, e2y as int, 0x1_0000_0000, 0x1_0000_0000);
        lemma_mul_bound(e1x as int, e1x as int, 0x1_0000_0000, 0x1_0000_0000);
        lemma_mul_bound(e1y as int, e1y as int, 0x1_0000_0000, 0x1_0000_0000);
    }
    let val_dp = e1x * e2x + e1y * e2y;
    let len2 = e1x * e1x + e1y * e1y;
    proof {
        lemma_mul_bound(e1x as int, e1x as int, 0x1_0000_0000, 0x1_0000_0000);
        lemma_mul_bound(val_dp as int, e1x as int, 0x2_0000_0000_0000_0000, 0x1_0000_0000);
        lemma_mul_bound(val_dp as int, e1y as int, 0x2_0000_0000_0000_0000, 0x1_0000_0000);
        assert(len2 > 0) by {
            lemma_square_pos(e1x as int, e1y as int);
        }
    }
    let result_x = v1.x as i128 + (val_dp * e1x) / len2;
    let result_y = v1.y as i128 + (val_dp * e1y) / len2;
    Vec2 { x: result_x as i32, y: result_y as i32 }
}

/// Two integers that are not both zero have a positive sum of squares.
proof fn lemma_square_pos(a: int, b: int)
    by (nonlinear_arith)
    requires
        a != 0 || b != 0,
    ensures
        a * a + b * b > 0,
{
}

/// Whether `p` lies within `width` of the segment: its squared distance to
/// its projection onto the line is at most (width / 2)^2 — decided exactly as
/// 4 * distance^2 <= width^2 — and it lies inside the segment's bounding box.
pub open spec fn line_contains_point_spec(line: Line, width: int, p: Vec2<i32>) -> bool {
    let proj = projection_spec(p, line);
    let ddx = proj.0 - p.x;
    let ddy = proj.1 - p.y;
    let dist_sq = ddx * ddx + ddy * ddy;
    &&& 4 * dist_sq <= width * width
    &&& p.x >= if line.0.x < line.1.x { line.0.x as int } else { line.1.x as int }
    &&& p.x <= if line.0.x > line.1.x { line.0.x as int } else { line.1.x as int }
    &&& p.y >= if line.0.y < line.1.y { line.0.y as int } else { line.1.y as int }
    &&& p.y <= if line.0.y > line.1.y { line.0.y as int } else { line.1.y as int }
}

/// Whether `p` lies within `width` of the segment `line`.
pub fn line_contains_point(line: &Line, width: i32, point: Vec2<i32>) -> (r: bool)
    requires
        line.0 != line.1,
        projection_in_range(point, *line),
    ensures
        r == line_contains_point_spec(*line, width as int, point),
{
    let projected = project_point_onto_line(point, line);

    let ddx = projected.x as i128 - point.x as i128;
    let ddy = projected.y as i128 - point.y as i128;
    proof {
        lemma_mul_bound(ddx as int, ddx as int, 0x1_0000_0000, 0x1_0000_0000);
        lemma_mul_bound(ddy as int, ddy as int, 0x1_0000_0000, 0x1_0000_0000);
        lemma_mul_bound(width as int, width as int, 0x8000_0000, 0x8000_0000);
    }
    let dist_sq = ddx * ddx + ddy * ddy;

    4 * dist_sq <= (width as i128) * (width as i128) && point.x >= line.min_x() && point.x
        <= line.max_x() && point.y >= line.min_y() && point.y <= line.max_y()
}

/// An origin (x, y) plus an extent (w, h), all signed; drawing operations
/// treat a non-positive resulting span as empty.
#[derive(Clone, Copy, PartialEq, Eq, Structural, Debug)]
pub struct Rect {
    pub x: i32,
    pub y: i32,
    pub w: i32,
    pub h: i32,
}

impl Rect {
    pub fn new(x: i32, y: i32, w: i32, h: i32) -> (r: Self)
        ensures
            r == (Rect { x, y, w, h }),
    {
        Rect { x, y, w, h }
    }

    pub fn from_pos_size(pos: Vec2<i32>, size: Vec2<i32>) -> (r: Self)
        ensures
            r == (Rect { x: pos.x, y: pos.y, w: size.x, h: size.y }),
    {
        Rect { x: pos.x, y: pos.y, w: size.x, h: size.y }
    }

    pub fn pos(&self) -> (r: Vec2<i32>)
        ensures
            r == (Vec2 { x: self.x, y: self.y }),
    {
        Vec2 { x: self.x, y: self.y }
    }

    pub fn size(&self) -> (r: Vec2<i32>)
        ensures
            r == (Vec2 { x: self.w, y: self.h }),
    {
        Vec2 { x: self.w, y: self.h }
    }

    /// The top-left corner.
    pub fn tl(&self) -> (r: Vec2<i32>)
        ensures
            r == (Vec2 { x: self.x, y: self.y }),
    {
        Vec2 { x: self.x, y: self.y }
    }

    /// The top-right corner.
    pub fn tr(&self) -> (r: Vec2<i32>)
        requires
            in_i32(self.x + self.w),
        ensures
            r.x == self.x + self.w,
            r.y == self.y,
    {
        Vec2 { x: self.x + self.w, y: self.y }
    }

    /// The bottom-right corner.
    pub fn br(&self) -> (r: Vec2<i32>)
        requires
            in_i32(self.x + self.w),
            in_i32(self.y + self.h),
        ensures
            r.x == self.x + self.w,
            r.y == self.y + self.h,
    {
        Vec2 { x: self.x + self.w, y: self.y + self.h }
    }

    /// The bottom-left corner.
    pub fn bl(&self) -> (r: Vec2<i32>)
        requires
            in_i32(self.y + self.h),
        ensures
            r.x == self.x,
            r.y == self.y + self.h,
    {
        Vec2 { x: self.x, y: self.y + self.h }
    }

    /// Whether `p` lies inside the rectangle, edges included.
    pub fn contains_point(&self, p: Vec2<i32>) -> (r: bool)
        ensures
            r == (self.x <= p.x <= self.x + self.w && self.y <= p.y <= self.y + self.h),
    {
        p.x as i64 >= self.x as i64 && p.x as i64 <= self.x as i64 + self.w as i64 && p.y as i64
            >= self.y as i64 && p.y as i64 <= self.y as i64 + self.h as i64
    }

    /// The four corners: top-left, top-right, bottom-right, bottom-left.
    pub fn points(&self) -> (r: [Vec2<i32>; 4])
        requires
            in_i32(self.x + self.w),
            in_i32(self.y + self.h),
        ensures
            r[0] == (Vec2 { x: self.x, y: self.y }),
            r[1].x == self.x + self.w && r[1].y == self.y,
            r[2].x == self.x + self.w && r[2].y == self.y + self.h,
            r[3].x == self.x && r[3].y == self.y + self.h,
    {
        [self.tl(), self.tr(), self.br(), self.bl()]
    }

    /// The four edges: top, right, bottom, left — each from corner to corner.
    pub fn lines(&self) -> (r: [Line; 4])
        requires
            in_i32(self.x + self.w),
            in_i32(self.y + self.h),
        ensures
            r[0] == Line(
                Vec2 { x: self.x, y: self.y },
                Vec2 { x: (self.x + self.w) as i32, y: self.y },
            ),
            r[1] == Line(
                Vec2 { x: (self.x + self.w) as i32, y: self.y },
                Vec2 { x: (self.x + self.w) as i32, y: (self.y + self.h) as i32 },
            ),
            r[2] == Line(
                Vec2 { x: (self.x + self.w) as i32, y: (self.y + self.h) as i32 },
                Vec2 { x: self.x, y: (self.y + self.h) as i32 },
            ),
            r[3] == Line(
                Vec2 { x: self.x, y: (self.y + self.h) as i32 },
                Vec2 { x: self.x, y: self.y },
            ),
    {
        [
            Line(self.tl(), self.tr()),
            Line(self.tr(), self.br()),
            Line(self.br(), self.bl()),
            Line(self.bl(), self.tl()),
        ]
    }
}

/// Copies a point list.
pub fn clone_points(points: &Vec<Vec2<i32>>) -> (r: Vec<Vec2<i32>>)
    ensures
        r@ == points@,
{
    let mut out: Vec<Vec2<i32>> = Vec::new();
    let mut i: usize = 0;
    while i < points.len()
        invariant
            0 <= i <= points@.len(),
            out@ == points@.subrange(0, i as int),
        decreases points@.len() - i,
    {
        out.push(points[i]);
        i += 1;
    }
    proof {
        assert(points@.subrange(0, points@.len() as int) =~= points@);
    }
    out
}

/// The sequence with every point that already occurred earlier removed: each
/// point keeps its first occurrence only, in the original order.
pub open spec fn dedup_first(s: Seq<Vec2<i32>>) -> Seq<Vec2<i32>>
    decreases s.len(),
{
    if s.len() == 0 {
        s
    } else {
        let pre = dedup_first(s.drop_last());
        if s.drop_last().contains(s.last()) {
            pre
        } else {
            pre.push(s.last())
        }
    }
}

/// Removes every point that is equal to another point of the list, keeping
/// first occurrences in their original order.
pub fn remove_dup_points(points: &mut Vec<Vec2<i32>>)
    ensures
        final(points)@ == dedup_first(old(points)@),
{
    let ghost orig = points@;
    let mut out: Vec<Vec2<i32>> = Vec::new();
    let mut i: usize = 0;
    while i < points.len()
        invariant
            0 <= i <= points@.len(),
            points@ == orig,
            out@ == dedup_first(orig.subrange(0, i as int)),
        decreases points@.len() - i,
    {
        let p = points[i];
        let mut dup = false;
        let mut j: usize = 0;
        while j < i
            invariant
                0 <= j <= i < points@.len(),
                points@ == orig,
                p == orig[i as int],
                dup == exists|k: int| 0 <= k < j && orig[k] == p,
            decreases i - j,
        {
            if points[j] == p {
                dup = true;
            }
            j += 1;
        }
        proof {
            let pre = orig.subrange(0, i as int);
            if dup {
                let k = choose|k: int| 0 <= k < i && orig[k] == p;
                assert(pre[k] == p);
                assert(pre.contains(p));
            } else if pre.contains(p) {
                let k = choose|k: int| 0 <= k < pre.len() && pre[k] == p;
                assert(orig[k] == p);
                assert(false);
            }
            assert(pre.contains(p) == dup);
            assert(orig.subrange(0, i as int + 1).drop_last() =~= pre);
            assert(orig.subrange(0, i as int + 1).last() == p);
        }
        if !dup {
            out.push(p);
        }
        i += 1;
    }
    proof {
        assert(orig.subrange(0, orig.len() as int) =~= orig);
    }
    *points = out;
}

} // verus!
