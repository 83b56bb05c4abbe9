//! Scanline triangle fill: a triangle is split into flat-edge triangles and
//! each is filled row by row between the x boundaries that the integer line
//! walk touches. (0, 0) is the top-left; y grows downward.

use vstd::prelude::*;

use crate::bresenham::{bres_xs_rec, line_dx, line_dy, line_xs, step_dir};
use crate::colors::Color;
use crate::graphics::{painted, row_cover, Graphics};
use crate::shapes::trunc_div;
use crate::vectors::Vec2;

verus! {

/// The x boundary values the line walk from `from` to `to` touches: one per
/// row the walk enters, in walk order. The result has exactly one entry per
/// unit of the segment's vertical distance.
pub fn get_line_x(from: Vec2<i32>, to: Vec2<i32>) -> (xs: Vec<i32>)
    ensures
        xs@ == line_xs(from, to),
        xs@.len() == line_dy(from, to),
{
    let ghost dx = line_dx(from, to);
    let ghost dy = line_dy(from, to);
    let ghost sxg = step_dir(from.x as int, to.x as int);
    let ghost syg = step_dir(from.y as int, to.y as int);

    let dist_x: i64 = if to.x >= from.x {
        to.x as i64 - from.x as i64
    } else {
        from.x as i64 - to.x as i64
    };
    let dist_y: i64 = if to.y >= from.y {
        to.y as i64 - from.y as i64
    } else {
        from.y as i64 - to.y as i64
    };
    let step_x: i32 = if from.x < to.x {
        1
    } else {
        -1
    };
    let step_y: i32 = if from.y < to.y {
        1
    } else {
        -1
    };

    let mut err: i64 = dist_x - dist_y;
    let mut cur = from;
    let mut values: Vec<i32> = Vec::new();
    let ghost mut px: int = 0;
    let ghost mut py: int = 0;
    let ghost mut iter: int = 0;

    loop
        invariant_except_break
            dx == line_dx(from, to),
            dy == line_dy(from, to),
            sxg == step_dir(from.x as int, to.x as int),
            syg == step_dir(from.y as int, to.y as int),
            dist_x == dx,
            dist_y == dy,
            0 <= dx < 0x1_0000_0000,
            0 <= dy < 0x1_0000_0000,
            step_x == sxg,
            step_y == syg,
            0 <= px <= dx,
            0 <= py <= dy,
            cur.x == if from.x < to.x {
                from.x + px
            } else {
                from.x - px
            },
            cur.y == if from.y < to.y {
                from.y + py
            } else {
                from.y - py
            },
            err == dx - dy + py * dx - px * dy,
            -2 * dy <= err <= 2 * dx,
            0 <= iter <= px + py,
            values@.len() == py,
            values@ + bres_xs_rec(cur, to, dx, dy, sxg, syg, err as int, ((dx + dy)
                - iter) as nat) =~= line_xs(from, to),
        ensures
            values@ == line_xs(from, to),
            values@.len() == line_dy(from, to),
        decreases dx + dy - px - py,
    {
        let ghost cur0 = cur;
        let ghost err0 = err as int;
        let ghost fuel0 = ((dx + dy) - iter) as nat;
        let ghost values0 = values@;

        if cur.x == to.x && cur.y == to.y {
            proof {
                assert(bres_xs_rec(cur0, to, dx, dy, sxg, syg, err0, fuel0) == Seq::<
                    i32,
                >::empty());
                assert(values@ =~= line_xs(from, to));
                assert(py == dy);
            }
            break ;
        }
        proof {
            if px == dx && py == dy {
                assert(cur.x == to.x);
                assert(cur.y == to.y);
                assert(false);
            }
            assert(iter < dx + dy);
            if 2 * err0 <= -dy && 2 * err0 >= dx {
                assert(dx == 0 && dy == 0);
                assert(false);
            }
            if px == dx && 2 * err0 > -dy {
                crate::bresenham::lemma_no_x_overstep(dx, dy, py, err0);
                assert(false);
            }
            if py == dy && 2 * err0 < dx {
                crate::bresenham::lemma_no_y_overstep(dx, dy, px, err0);
                assert(false);
            }
        }
        let e2: i64 = 2 * err;
        if e2 > -dist_y {
            err = err - dist_y;
            cur.x = cur.x + step_x;
            proof {
                px = px + 1;
                assert((px) * dy == (px - 1) * dy + dy) by (nonlinear_arith);
            }
        }
        if e2 < dist_x {
            err = err + dist_x;
            cur.y = cur.y + step_y;
            values.push(cur.x);
            proof {
                py = py + 1;
                assert((py) * dx == (py - 1) * dx + dx) by (nonlinear_arith);
            }
        }
        proof {
            iter = iter + 1;
            let rest = bres_xs_rec(cur, to, dx, dy, sxg, syg, err as int, (fuel0 - 1) as nat);
            if 2 * err0 < dx {
                assert(bres_xs_rec(cur0, to, dx, dy, sxg, syg, err0, fuel0) == seq![cur.x] + rest);
                assert(values@ =~= values0 + seq![cur.x]);
                assert(values0 + (seq![cur.x] + rest) =~= (values0 + seq![cur.x]) + rest);
            } else {
                assert(bres_xs_rec(cur0, to, dx, dy, sxg, syg, err0, fuel0) == rest);
            }
            assert(values@ + bres_xs_rec(cur, to, dx, dy, sxg, syg, err as int, ((dx + dy)
                - iter) as nat) =~= line_xs(from, to));
        }
    }
    values
}

/// The lower-left vertex of a flat bottom edge: the one with the smaller x;
/// on a tie, the second.
pub open spec fn ffd_left(b1: Vec2<i32>, b2: Vec2<i32>) -> Vec2<i32> {
    if b1.x < b2.x {
        b1
    } else {
        b2
    }
}

/// The lower-right vertex of a flat bottom edge: the one with the larger x;
/// on a tie, the second.
pub open spec fn ffd_right(b1: Vec2<i32>, b2: Vec2<i32>) -> Vec2<i32> {
    if b1.x > b2.x {
        b1
    } else {
        b2
    }
}

/// The upper-left vertex of a flat top edge: the one with the smaller x; on
/// a tie, the first.
pub open spec fn ffu_left(t1: Vec2<i32>, t2: Vec2<i32>) -> Vec2<i32> {
    if t2.x < t1.x {
        t2
    } else {
        t1
    }
}

/// The upper-right vertex of a flat top edge: the one with the larger x; on
/// a tie, the first.
pub open spec fn ffu_right(t1: Vec2<i32>, t2: Vec2<i32>) -> Vec2<i32> {
    if t2.x > t1.x {
        t2
    } else {
        t1
    }
}

/// The union of the first `n` downward scanline runs: run `i` fills row
/// `top_y + i` between the i-th left and right boundary values.
pub open spec fn rows_cover(
    lw: int,
    lh: int,
    top_y: int,
    xl: Seq<i32>,
    xr: Seq<i32>,
    n: int,
) -> Set<(int, int)>
    decreases n,
{
    if n <= 0 {
        Set::empty()
    } else {
        rows_cover(lw, lh, top_y, xl, xr, n - 1).union(
            row_cover(lw, lh, top_y + (n - 1), xl[n - 1] as int, xr[n - 1] as int),
        )
    }
}

/// The union of the first `n` upward scanline runs: run `i` fills row
/// `bot_y - 1 - i` between the i-th left and right boundary values.
pub open spec fn rows_cover_up(
    lw: int,
    lh: int,
    bot_y: int,
    xl: Seq<i32>,
    xr: Seq<i32>,
    n: int,
) -> Set<(int, int)>
    decreases n,
{
    if n <= 0 {
        Set::empty()
    } else {
        rows_cover_up(lw, lh, bot_y, xl, xr, n - 1).union(
            row_cover(lw, lh, bot_y - 1 - (n - 1), xl[n - 1] as int, xr[n - 1] as int),
        )
    }
}

/// The cover of a flat-face-down triangle fill: one downward run per row of
/// the two edge walks from the apex `top` to the flat edge (b1, b2).
pub open spec fn ffd_cover(
    lw: int,
    lh: int,
    top: Vec2<i32>,
    b1: Vec2<i32>,
    b2: Vec2<i32>,
) -> Set<(int, int)> {
    let xl = line_xs(top, ffd_left(b1, b2));
    let xr = line_xs(top, ffd_right(b1, b2));
    rows_cover(lw, lh, top.y as int, xl, xr, xl.len() as int)
}

/// The cover of a flat-face-up triangle fill: one upward run per row of the
/// two edge walks from the apex `bot` to the flat edge (t1, t2).
pub open spec fn ffu_cover(
    lw: int,
    lh: int,
    t1: Vec2<i32>,
    t2: Vec2<i32>,
    bot: Vec2<i32>,
) -> Set<(int, int)> {
    let xl = line_xs(bot, ffu_left(t1, t2));
    let xr = line_xs(bot, ffu_right(t1, t2));
    rows_cover_up(lw, lh, bot.y as int, xl, xr, xl.len() as int)
}

/// Fills a flat-face-down triangle: apex first, then the two vertices of the
/// horizontal bottom edge. Each scanline from the flat edge toward the apex
/// is filled between the x boundaries the two edge walks touch.
pub fn raster_ffd_tri(g: &mut Graphics, points: [Vec2<i32>; 3], color: Color)
    requires
        old(g).wf(),
        line_dy(points[0], ffd_left(points[1], points[2])) == line_dy(
            points[0],
            ffd_right(points[1], points[2]),
        ),
    ensures
        final(g).wf(),
        final(g).size == old(g).size,
        painted(
            old(g).buffer,
            final(g).buffer,
            ffd_cover(old(g).lw(), old(g).lh(), points[0], points[1], points[2]),
            color,
        ),
{
    let ghost b0 = g.buffer;
    let ghost lw = g.lw();
    let ghost lh = g.lh();

    let top = points[0];
    let b1 = points[1];
    let b2 = points[2];
    let r = if b1.x > b2.x {
        b1
    } else {
        b2
    };
    let l = if b1.x < b2.x {
        b1
    } else {
        b2
    };

    let xl = get_line_x(top, l);
    let xr = get_line_x(top, r);
    assert(xl@.len() == xr@.len());
    let len = xl.len();

    proof {
        crate::graphics::lemma_painted_empty(b0, color);
    }
    let mut i: usize = 0;
    while i < len
        invariant
            0 <= i <= len,
            len == xl@.len(),
            len == xr@.len(),
            len < 0x1_0000_0000,
            xl@ == line_xs(top, ffd_left(b1, b2)),
            xr@ == line_xs(top, ffd_right(b1, b2)),
            g.wf(),
            g.size == old(g).size,
            lw == g.lw(),
            lh == g.lh(),
            painted(b0, g.buffer, rows_cover(lw, lh, top.y as int, xl@, xr@, i as int), color),
        decreases len - i,
    {
        let row64: i64 = top.y as i64 + i as i64;
        let ghost prev = g.buffer;
        if row64 <= i32::MAX as i64 {
            assert(row64 as i32 == top.y + i);
            g.fill_row(row64 as i32, xl[i], xr[i], color);
            proof {
                crate::graphics::lemma_painted_trans(
                    b0,
                    prev,
                    g.buffer,
                    rows_cover(lw, lh, top.y as int, xl@, xr@, i as int),
                    row_cover(lw, lh, top.y + i, xl@[i as int] as int, xr@[i as int] as int),
                    color,
                );
            }
        } else {
            proof {
                // This row lies below every legal surface, so its run covers
                // nothing.
                assert(row_cover(lw, lh, top.y + i, xl@[i as int] as int, xr@[i as int] as int)
                    =~= Set::<(int, int)>::empty());
                assert(rows_cover(lw, lh, top.y as int, xl@, xr@, i as int + 1) =~= rows_cover(
                    lw,
                    lh,
                    top.y as int,
                    xl@,
                    xr@,
                    i as int,
                ));
            }
        }
        i += 1;
    }
}

/// Fills a flat-face-up triangle: the two vertices of the horizontal top
/// edge first, then the apex. Each scanline from the flat edge toward the
/// apex is filled between the x boundaries the two edge walks touch.
pub fn raster_ffu_tri(g: &mut Graphics, points: [Vec2<i32>; 3], color: Color)
    requires
        old(g).wf(),
        line_dy(points[2], ffu_left(points[0], points[1])) == line_dy(
            points[2],
            ffu_right(points[0], points[1]),
        ),
    ensures
        final(g).wf(),
        final(g).size == old(g).size,
        painted(
            old(g).buffer,
            final(g).buffer,
            ffu_cover(old(g).lw(), old(g).lh(), points[0], points[1], points[2]),
            color,
        ),
{
    let ghost b0 = g.buffer;
    let ghost lw = g.lw();
    let ghost lh = g.lh();

    let t1 = points[0];
    let t2 = points[1];
    let bot = points[2];
    let r = if t2.x > t1.x {
        t2
    } else {
        t1
    };
    let l = if t2.x < t1.x {
        t2
    } else {
        t1
    };

    let xl = get_line_x(bot, l);
    let xr = get_line_x(bot, r);
    assert(xl@.len() == xr@.len());
    let len = xl.len();

    proof {
        crate::graphics::lemma_painted_empty(b0, color);
    }
    let mut i: usize = 0;
    while i < len
        invariant
            0 <= i <= len,
            len == xl@.len(),
            len == xr@.len(),
            len < 0x1_0000_0000,
            xl@ == line_xs(bot, ffu_left(t1, t2)),
            xr@ == line_xs(bot, ffu_right(t1, t2)),
            g.wf(),
            g.size == old(g).size,
            lw == g.lw(),
            lh == g.lh(),
            painted(b0, g.buffer, rows_cover_up(lw, lh, bot.y as int, xl@, xr@, i as int), color),
        decreases len - i,
    {
        let row64: i64 = bot.y as i64 - 1 - i as i64;
        let ghost prev = g.buffer;
        if row64 >= i32::MIN as i64 {
            assert(row64 as i32 == bot.y - 1 - i);
            g.fill_row(row64 as i32, xl[i], xr[i], color);
            proof {
                crate::graphics::lemma_painted_trans(
                    b0,
                    prev,
                    g.buffer,
                    rows_cover_up(lw, lh, bot.y as int, xl@, xr@, i as int),
                    row_cover(lw, lh, bot.y - 1 - i, xl@[i as int] as int, xr@[i as int] as int),
                    color,
                );
            }
        } else {
            proof {
                // This row lies above every legal surface, so its run covers
                // nothing.
                assert(row_cover(lw, lh, bot.y - 1 - i, xl@[i as int] as int, xr@[i as int] as int)
                    =~= Set::<(int, int)>::empty());
                assert(rows_cover_up(lw, lh, bot.y as int, xl@, xr@, i as int + 1) =~= rows_cover_up(
                    lw,
                    lh,
                    bot.y as int,
                    xl@,
                    xr@,
                    i as int,
                ));
            }
        }
        i += 1;
    }
}

/// The x coordinate of the synthetic split point: the long edge from `top`
/// to `bot`, interpolated at the middle vertex's row, rounded toward zero.
pub open spec fn split_x(top: Vec2<i32>, mid: Vec2<i32>, bot: Vec2<i32>) -> int {
    top.x + trunc_div((mid.y - top.y) * (bot.x - top.x), bot.y - top.y)
}

/// Interpolating a fraction k/den of the span `d` stays within the span.
pub(crate) proof fn lemma_lerp_bound(k: int, den: int, d: int)
    by (nonlinear_arith)
    requires
        0 <= k <= den,
        den > 0,
    ensures
        d >= 0 ==> 0 <= trunc_div(k * d, den) <= d,
        d < 0 ==> d <= trunc_div(k * d, den) <= 0,
{
}

/// The cover of a y-sorted triangle fill: a flat-edged triangle is filled
/// directly; otherwise the triangle splits at the middle vertex's row into a
/// flat-face-down and a flat-face-up part.
pub open spec fn tri_sorted_cover(
    lw: int,
    lh: int,
    top: Vec2<i32>,
    mid: Vec2<i32>,
    bot: Vec2<i32>,
) -> Set<(int, int)> {
    if mid.y == bot.y {
        ffd_cover(lw, lh, top, mid, bot)
    } else if mid.y == top.y {
        ffu_cover(lw, lh, top, mid, bot)
    } else {
        let other = Vec2 { x: split_x(top, mid, bot) as i32, y: mid.y };
        ffd_cover(lw, lh, top, mid, other).union(ffu_cover(lw, lh, mid, other, bot))
    }
}

/// Fills a triangle whose points are already sorted by ascending y. A flat
/// bottom or top edge is rasterized directly; otherwise the triangle is
/// split at the middle vertex's row by a synthetic point on the long edge,
/// and the two flat-edged parts are filled in turn.
pub fn raster_tri_sorted_y(g: &mut Graphics, points: [Vec2<i32>; 3], color: Color)
    requires
        old(g).wf(),
        points[0].y <= points[1].y <= points[2].y,
    ensures
        final(g).wf(),
        final(g).size == old(g).size,
        painted(
            old(g).buffer,
            final(g).buffer,
            tri_sorted_cover(old(g).lw(), old(g).lh(), points[0], points[1], points[2]),
            color,
        ),
{
    let ghost b0 = g.buffer;
    let ghost lw = g.lw();
    let ghost lh = g.lh();

    let top = points[0];
    let mid = points[1];
    let bot = points[2];

    if mid.y == bot.y {
        raster_ffd_tri(g, [top, mid, bot], color);
    } else if mid.y == top.y {
        raster_ffu_tri(g, [top, mid, bot], color);
    } else {
        let k: i64 = mid.y as i64 - top.y as i64;
        let den: i64 = bot.y as i64 - top.y as i64;
        let d: i64 = bot.x as i64 - top.x as i64;
        proof {
            crate::shapes::lemma_mul_bound(k as int, d as int, 0x1_0000_0000, 0x1_0000_0000);
            lemma_lerp_bound(k as int, den as int, d as int);
        }
        let q: i128 = (k as i128 * d as i128) / (den as i128);
        let other_x: i64 = top.x as i64 + q as i64;
        assert(other_x == split_x(top, mid, bot));
        let other = Vec2 { x: other_x as i32, y: mid.y };
        assert(other == (Vec2 { x: split_x(top, mid, bot) as i32, y: mid.y }));

        let ghost prev;
        raster_ffd_tri(g, [top, mid, other], color);
        proof {
            prev = g.buffer;
        }
        raster_ffu_tri(g, [mid, other, bot], color);
        proof {
            crate::graphics::lemma_painted_trans(
                b0,
                prev,
                g.buffer,
                ffd_cover(lw, lh, top, mid, other),
                ffu_cover(lw, lh, mid, other, bot),
                color,
            );
        }
    }
}

/// The order the three vertices take after a stable sort by ascending y.
pub open spec fn sort3_y(p0: Vec2<i32>, p1: Vec2<i32>, p2: Vec2<i32>) -> (
    Vec2<i32>,
    Vec2<i32>,
    Vec2<i32>,
) {
    let (a, b) = if p1.y < p0.y {
        (p1, p0)
    } else {
        (p0, p1)
    };
    if p2.y < b.y {
        if p2.y < a.y {
            (p2, a, b)
        } else {
            (a, p2, b)
        }
    } else {
        (a, b, p2)
    }
}

/// The cover of a triangle fill: the points are sorted by ascending y, then
/// the sorted triangle is filled by scanlines.
pub open spec fn tri_fill_cover(
    lw: int,
    lh: int,
    p0: Vec2<i32>,
    p1: Vec2<i32>,
    p2: Vec2<i32>,
) -> Set<(int, int)> {
    tri_sorted_cover(
        lw,
        lh,
        sort3_y(p0, p1, p2).0,
        sort3_y(p0, p1, p2).1,
        sort3_y(p0, p1, p2).2,
    )
}

/// Fills a triangle given by three points in any order: sorts them by
/// ascending y with a stable sort, then fills by scanlines.
pub fn raster_tri(g: &mut Graphics, points: [Vec2<i32>; 3], color: Color)
    requires
        old(g).wf(),
    ensures
        final(g).wf(),
        final(g).size == old(g).size,
        painted(
            old(g).buffer,
            final(g).buffer,
            tri_fill_cover(old(g).lw(), old(g).lh(), points[0], points[1], points[2]),
            color,
        ),
{
    let mut a = points[0];
    let mut b = points[1];
    let mut c = points[2];
    if b.y < a.y {
        let t = a;
        a = b;
        b = t;
    }
    if c.y < b.y {
        let t = b;
        b = c;
        c = t;
        if b.y < a.y {
            let t2 = a;
            a = b;
            b = t2;
        }
    }
    proof {
        assert(a == sort3_y(points[0], points[1], points[2]).0);
        assert(b == sort3_y(points[0], points[1], points[2]).1);
        assert(c == sort3_y(points[0], points[1], points[2]).2);
    }
    raster_tri_sorted_y(g, [a, b, c], color);
}

} // verus!
