//! Integer line stepping: the error-accumulator walk that underlies both
//! line drawing and the triangle scanline fill.
//!
//! From two endpoints the walk visits a sequence of pixels: at each step it
//! compares twice the accumulated error against the two axis distances,
//! advances x and/or y by one, and stops at the far endpoint. `line_seq`
//! gives that sequence of points; `line_xs` gives, for each row the walk
//! enters, the x position it enters it at.

use vstd::prelude::*;

use crate::vectors::Vec2;

verus! {

/// The absolute value of a mathematical integer.
pub open spec fn abs_i(a: int) -> int {
    if a < 0 {
        -a
    } else {
        a
    }
}

/// The unit step from `from` toward `to`: +1 when strictly increasing,
/// else -1.
pub open spec fn step_dir(from: int, to: int) -> int {
    if from < to {
        1
    } else {
        -1
    }
}

/// The horizontal distance of a segment.
pub open spec fn line_dx(from: Vec2<i32>, to: Vec2<i32>) -> int {
    abs_i(to.x - from.x)
}

/// The vertical distance of a segment.
pub open spec fn line_dy(from: Vec2<i32>, to: Vec2<i32>) -> int {
    abs_i(to.y - from.y)
}

/// The rest of the walk from `cur`: the current point, then the walk from
/// the stepped point with the updated error. The fuel only bounds the
/// recursion; a real walk reaches `to` before it runs out.
pub open spec fn bres_rec(
    cur: Vec2<i32>,
    to: Vec2<i32>,
    dx: int,
    dy: int,
    sx: int,
    sy: int,
    err: int,
    fuel: nat,
) -> Seq<Vec2<i32>>
    decreases fuel,
{
    if cur == to || fuel == 0 {
        seq![cur]
    } else {
        let e2 = 2 * err;
        let nx = if e2 > -dy {
            (cur.x + sx) as i32
        } else {
            cur.x
        };
        let ny = if e2 < dx {
            (cur.y + sy) as i32
        } else {
            cur.y
        };
        let nerr = err - (if e2 > -dy {
            dy
        } else {
            0
        }) + (if e2 < dx {
            dx
        } else {
            0
        });
        seq![cur] + bres_rec(Vec2 { x: nx, y: ny }, to, dx, dy, sx, sy, nerr, (fuel - 1) as nat)
    }
}

/// The points the walk from `from` to `to` visits, both endpoints included.
pub open spec fn line_seq(from: Vec2<i32>, to: Vec2<i32>) -> Seq<Vec2<i32>> {
    let dx = line_dx(from, to);
    let dy = line_dy(from, to);
    bres_rec(
        from,
        to,
        dx,
        dy,
        step_dir(from.x as int, to.x as int),
        step_dir(from.y as int, to.y as int),
        dx - dy,
        (dx + dy) as nat,
    )
}

/// The x positions the walk pushes, one for each row it enters: the x value
/// right after each vertical step.
pub open spec fn bres_xs_rec(
    cur: Vec2<i32>,
    to: Vec2<i32>,
    dx: int,
    dy: int,
    sx: int,
    sy: int,
    err: int,
    fuel: nat,
) -> Seq<i32>
    decreases fuel,
{
    if cur == to || fuel == 0 {
        Seq::empty()
    } else {
        let e2 = 2 * err;
        let nx = if e2 > -dy {
            (cur.x + sx) as i32
        } else {
            cur.x
        };
        let ny = if e2 < dx {
            (cur.y + sy) as i32
        } else {
            cur.y
        };
        let nerr = err - (if e2 > -dy {
            dy
        } else {
            0
        }) + (if e2 < dx {
            dx
        } else {
            0
        });
        let rest = bres_xs_rec(Vec2 { x: nx, y: ny }, to, dx, dy, sx, sy, nerr, (fuel - 1) as nat);
        if e2 < dx {
            seq![nx] + rest
        } else {
            rest
        }
    }
}

/// The x position at which the walk from `from` to `to` enters each new row,
/// in walk order: one entry per unit of vertical distance.
pub open spec fn line_xs(from: Vec2<i32>, to: Vec2<i32>) -> Seq<i32> {
    let dx = line_dx(from, to);
    let dy = line_dy(from, to);
    bres_xs_rec(
        from,
        to,
        dx,
        dy,
        step_dir(from.x as int, to.x as int),
        step_dir(from.y as int, to.y as int),
        dx - dy,
        (dx + dy) as nat,
    )
}

/// Whether `a` comes no later than `b` along the direction of travel from
/// `from` toward `to`.
pub open spec fn mono_toward(from: int, to: int, a: int, b: int) -> bool {
    if from <= to {
        a <= b
    } else {
        b <= a
    }
}

/// Two points that differ by at most one in each axis, and differ.
pub open spec fn step_adjacent(a: Vec2<i32>, b: Vec2<i32>) -> bool {
    abs_i(b.x - a.x) <= 1 && abs_i(b.y - a.y) <= 1 && a != b
}

/// Whether `p` lies inside the axis-aligned bounding box of the segment.
pub open spec fn within_box(from: Vec2<i32>, to: Vec2<i32>, p: Vec2<i32>) -> bool {
    &&& (if from.x < to.x {
        from.x <= p.x <= to.x
    } else {
        to.x <= p.x <= from.x
    })
    &&& (if from.y < to.y {
        from.y <= p.y <= to.y
    } else {
        to.y <= p.y <= from.y
    })
}

/// Once x has covered its whole distance, but rows remain, the walk no
/// longer steps in x.
pub(crate) proof fn lemma_no_x_overstep(dx: int, dy: int, py: int, err: int)
    by (nonlinear_arith)
    requires
        dx >= 0,
        dy >= 1,
        0 <= py < dy,
        err == dx - dy + py * dx - dx * dy,
    ensures
        2 * err <= -dy,
{
}

/// Once y has covered its whole distance, but columns remain, the walk no
/// longer steps in y.
pub(crate) proof fn lemma_no_y_overstep(dx: int, dy: int, px: int, err: int)
    by (nonlinear_arith)
    requires
        dy >= 0,
        dx >= 1,
        0 <= px < dx,
        err == dx - dy + dy * dx - px * dy,
    ensures
        2 * err >= dx,
{
}

/// The points the line walk from `from` to `to` visits, in order. The
/// sequence starts at `from`, ends at `to`, stays inside the segment's
/// bounding box, and every consecutive pair of points differs by at most one
/// in each axis and is distinct: an 8-connected path with no gaps.
pub fn line_points(from: Vec2<i32>, to: Vec2<i32>) -> (pts: Vec<Vec2<i32>>)
    ensures
        pts@ == line_seq(from, to),
        pts@.len() >= 1,
        pts@[0] == from,
        pts@[pts@.len() - 1] == to,
        forall|i: int| 0 <= i < pts@.len() - 1 ==> step_adjacent(pts@[i], #[trigger] pts@[i + 1]),
        forall|i: int| 0 <= i < pts@.len() ==> within_box(from, to, #[trigger] pts@[i]),
        forall|i: int, j: int|
            0 <= i <= j < pts@.len() ==> mono_toward(
                from.x as int,
                to.x as int,
                (#[trigger] pts@[i]).x as int,
                (#[trigger] pts@[j]).x as int,
            ) && mono_toward(from.y as int, to.y as int, pts@[i].y as int, pts@[j].y as int),
        forall|i: int, j: int| 0 <= i < j < pts@.len() ==> #[trigger] pts@[i] != #[trigger] pts@[j],
{
    let ghost dx = line_dx(from, to);
    let ghost dy = line_dy(from, to);
    let ghost sxg = step_dir(from.x as int, to.x as int);
    let ghost syg = step_dir(from.y as int, to.y as int);

    let dist_x: i64 = if to.x >= from.x {
        to.x as i64 - from.x as i64
    } else {
        from.x as i64 - to.x as i64
    };
    let dist_y: i64 = if to.y >= from.y {
        to.y as i64 - from.y as i64
    } else {
        from.y as i64 - to.y as i64
    };
    let step_x: i32 = if from.x < to.x {
        1
    } else {
        -1
    };
    let step_y: i32 = if from.y < to.y {
        1
    } else {
        -1
    };

    let mut err: i64 = dist_x - dist_y;
    let mut cur = from;
    let mut pts: Vec<Vec2<i32>> = Vec::new();
    let ghost mut px: int = 0;
    let ghost mut py: int = 0;
    let ghost mut iter: int = 0;

    loop
        invariant_except_break
            dx == line_dx(from, to),
            dy == line_dy(from, to),
            sxg == step_dir(from.x as int, to.x as int),
            syg == step_dir(from.y as int, to.y as int),
            dist_x == dx,
            dist_y == dy,
            0 <= dx < 0x1_0000_0000,
            0 <= dy < 0x1_0000_0000,
            step_x == sxg,
            step_y == syg,
            0 <= px <= dx,
            0 <= py <= dy,
            cur.x == if from.x < to.x {
                from.x + px
            } else {
                from.x - px
            },
            cur.y == if from.y < to.y {
                from.y + py
            } else {
                from.y - py
            },
            err == dx - dy + py * dx - px * dy,
            -2 * dy <= err <= 2 * dx,
            0 <= iter <= px + py,
            pts@.len() == iter,
            pts@ + bres_rec(cur, to, dx, dy, sxg, syg, err as int, ((dx + dy) - iter) as nat)
                =~= line_seq(from, to),
            iter > 0 ==> pts@[0] == from,
            iter == 0 ==> cur == from,
            iter > 0 ==> step_adjacent(pts@[pts@.len() - 1], cur),
            forall|i: int|
                0 <= i < pts@.len() - 1 ==> step_adjacent(pts@[i], #[trigger] pts@[i + 1]),
            forall|i: int| 0 <= i < pts@.len() ==> within_box(from, to, #[trigger] pts@[i]),
            within_box(from, to, cur),
            forall|i: int, j: int|
                0 <= i <= j < pts@.len() ==> mono_toward(
                    from.x as int,
                    to.x as int,
                    (#[trigger] pts@[i]).x as int,
                    (#[trigger] pts@[j]).x as int,
                ) && mono_toward(from.y as int, to.y as int, pts@[i].y as int, pts@[j].y as int),
            forall|i: int|
                0 <= i < pts@.len() ==> mono_toward(
                    from.x as int,
                    to.x as int,
                    (#[trigger] pts@[i]).x as int,
                    cur.x as int,
                ) && mono_toward(from.y as int, to.y as int, pts@[i].y as int, cur.y as int),
        ensures
            pts@ == line_seq(from, to),
            pts@.len() >= 1,
            pts@[0] == from,
            pts@[pts@.len() - 1] == to,
            forall|i: int|
                0 <= i < pts@.len() - 1 ==> step_adjacent(pts@[i], #[trigger] pts@[i + 1]),
            forall|i: int| 0 <= i < pts@.len() ==> within_box(from, to, #[trigger] pts@[i]),
            forall|i: int, j: int|
                0 <= i <= j < pts@.len() ==> mono_toward(
                    from.x as int,
                    to.x as int,
                    (#[trigger] pts@[i]).x as int,
                    (#[trigger] pts@[j]).x as int,
                ) && mono_toward(from.y as int, to.y as int, pts@[i].y as int, pts@[j].y as int),
            forall|i: int, j: int|
                0 <= i < j < pts@.len() ==> #[trigger] pts@[i] != #[trigger] pts@[j],
        decreases dx + dy - px - py,
    {
        let ghost pts0 = pts@;
        let ghost cur0 = cur;
        let ghost err0 = err as int;
        let ghost fuel0 = ((dx + dy) - iter) as nat;

        pts.push(cur);

        if cur.x == to.x && cur.y == to.y {
            proof {
                assert(bres_rec(cur0, to, dx, dy, sxg, syg, err0, fuel0) == seq![cur0]);
                assert(pts@ =~= pts0 + seq![cur0]);
                assert(pts@ =~= line_seq(from, to));
                assert forall|i: int, j: int| 0 <= i < j < pts@.len() implies #[trigger] pts@[i]
                    != #[trigger] pts@[j] by {
                    if pts@[i] == pts@[j] {
                        // The walk is monotone in each axis, so a revisited
                        // point would force two equal neighbors, which the
                        // step structure rules out.
                        assert(step_adjacent(pts@[i], pts@[i + 1]));
                        assert(mono_toward(from.x as int, to.x as int, pts@[i].x as int, pts@[i
                            + 1].x as int));
                        assert(mono_toward(from.x as int, to.x as int, pts@[i + 1].x as int, pts@[j].x as int));
                        assert(mono_toward(from.y as int, to.y as int, pts@[i].y as int, pts@[i
                            + 1].y as int));
                        assert(mono_toward(from.y as int, to.y as int, pts@[i + 1].y as int, pts@[j].y as int));
                        assert(pts@[i + 1].x == pts@[i].x && pts@[i + 1].y == pts@[i].y);
                        assert(false);
                    }
                }
            }
            break ;
        }
        proof {
            // The walk has not finished, so at least one axis still has
            // distance to cover and the fuel has not run out.
            if px == dx && py == dy {
                assert(cur.x == to.x);
                assert(cur.y == to.y);
                assert(false);
            }
            assert(px < dx || py < dy);
            assert(iter < dx + dy);
            if 2 * err0 <= -dy && 2 * err0 >= dx {
                assert(dx <= -dy);
                assert(dx == 0 && dy == 0);
                assert(false);
            }
            if px == dx && 2 * err0 > -dy {
                lemma_no_x_overstep(dx, dy, py, err0);
                assert(false);
            }
            if py == dy && 2 * err0 < dx {
                lemma_no_y_overstep(dx, dy, px, err0);
                assert(false);
            }
        }
        let e2: i64 = 2 * err;
        if e2 > -dist_y {
            err = err - dist_y;
            cur.x = cur.x + step_x;
            proof {
                px = px + 1;
                assert((px) * dy == (px - 1) * dy + dy) by (nonlinear_arith);
            }
        }
        if e2 < dist_x {
            err = err + dist_x;
            cur.y = cur.y + step_y;
            proof {
                py = py + 1;
                assert((py) * dx == (py - 1) * dx + dx) by (nonlinear_arith);
            }
        }
        proof {
            iter = iter + 1;
            assert(bres_rec(cur0, to, dx, dy, sxg, syg, err0, fuel0) == seq![cur0] + bres_rec(
                cur,
                to,
                dx,
                dy,
                sxg,
                syg,
                err as int,
                (fuel0 - 1) as nat,
            ));
            assert(pts@ + bres_rec(cur, to, dx, dy, sxg, syg, err as int, ((dx + dy)
                - iter) as nat) =~= line_seq(from, to)) by {
                assert(pts0 + (seq![cur0] + bres_rec(
                    cur,
                    to,
                    dx,
                    dy,
                    sxg,
                    syg,
                    err as int,
                    (fuel0 - 1) as nat,
                )) =~= (pts0 + seq![cur0]) + bres_rec(
                    cur,
                    to,
                    dx,
                    dy,
                    sxg,
                    syg,
                    err as int,
                    (fuel0 - 1) as nat,
                ));
            }
        }
    }
    pts
}

} // verus!
