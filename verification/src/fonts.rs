//! The outline flattener: glyph-outline path events (move-to, line-to,
//! quadratic-curve-to, close), positioned by a per-glyph offset, are turned
//! into polygon point rings. A quadratic curve is flattened by sampling its
//! control parabola at parameter steps of one half — start, midpoint, end —
//! each sample found by nested half-way interpolation. Closing a ring starts
//! a new empty one; duplicate points are removed when the rings are taken
//! out.

use vstd::prelude::*;

use crate::shapes::{dedup_first, remove_dup_points, Poly};
use crate::vectors::Vec2;

verus! {

/// The point half way from `a` to `b`, each coordinate rounded toward zero.
pub open spec fn midpoint(a: Vec2<i32>, b: Vec2<i32>) -> Vec2<i32> {
    Vec2 {
        x: (a.x + crate::shapes::trunc_div(b.x - a.x, 2)) as i32,
        y: (a.y + crate::shapes::trunc_div(b.y - a.y, 2)) as i32,
    }
}

/// The three samples a quadratic curve from `a` over control `c` to `b`
/// flattens into: the start, the nested midpoint sample at one half, and the
/// end.
pub open spec fn quad_samples(a: Vec2<i32>, c: Vec2<i32>, b: Vec2<i32>) -> Seq<Vec2<i32>> {
    seq![a, midpoint(midpoint(a, c), midpoint(c, b)), b]
}

/// Computes the half-way point exactly.
fn midpoint_exec(a: Vec2<i32>, b: Vec2<i32>) -> (r: Vec2<i32>)
    ensures
        r == midpoint(a, b),
{
    let dx: i64 = b.x as i64 - a.x as i64;
    let dy: i64 = b.y as i64 - a.y as i64;
    let rx: i64 = a.x as i64 + dx / 2;
    let ry: i64 = a.y as i64 + dy / 2;
    Vec2 { x: rx as i32, y: ry as i32 }
}

/// Collects glyph outline events into polygon rings. The last ring is always
/// the one under construction; `close` finishes it and starts a new empty
/// one, so a fresh builder holds one empty ring.
pub struct TextBuilder {
    pub polys: Vec<Poly>,
    pub pos: Vec2<i32>,
    pub glyph_pos: Vec2<i32>,
}

impl TextBuilder {
    /// Whether the builder holds the ring under construction.
    pub open spec fn wf(self) -> bool {
        self.polys@.len() >= 1
    }

    /// The rings collected so far, each as its point sequence.
    pub open spec fn rings(self) -> Seq<Seq<Vec2<i32>>> {
        self.polys@.map(|i: int, p: Poly| p.points@)
    }

    /// A fresh builder: one empty ring, the pen and the glyph offset at the
    /// origin.
    pub fn new() -> (r: Self)
        ensures
            r.wf(),
            r.rings() =~= seq![Seq::<Vec2<i32>>::empty()],
            r.pos == (Vec2 { x: 0i32, y: 0i32 }),
            r.glyph_pos == (Vec2 { x: 0i32, y: 0i32 }),
    {
        let mut polys: Vec<Poly> = Vec::new();
        polys.push(Poly::empty());
        TextBuilder { polys, pos: Vec2 { x: 0, y: 0 }, glyph_pos: Vec2 { x: 0, y: 0 } }
    }

    /// Sets the offset added to every vertex of the current glyph.
    pub fn set_glyph_pos(&mut self, glyph_pos: Vec2<i32>)
        ensures
            final(self).glyph_pos == glyph_pos,
            final(self).pos == old(self).pos,
            final(self).polys == old(self).polys,
    {
        self.glyph_pos = glyph_pos;
    }

    /// Appends one vertex, shifted by the glyph offset, to the ring under
    /// construction.
    pub fn vertex(&mut self, pos: Vec2<i32>)
        requires
            old(self).wf(),
            crate::shapes::in_i32(pos.x + old(self).glyph_pos.x),
            crate::shapes::in_i32(pos.y + old(self).glyph_pos.y),
        ensures
            final(self).wf(),
            final(self).pos == old(self).pos,
            final(self).glyph_pos == old(self).glyph_pos,
            final(self).rings() =~= old(self).rings().update(
                old(self).rings().len() - 1,
                old(self).rings().last().push(
                    Vec2 {
                        x: (pos.x + old(self).glyph_pos.x) as i32,
                        y: (pos.y + old(self).glyph_pos.y) as i32,
                    },
                ),
            ),
    {
        let x = pos.x + self.glyph_pos.x;
        let y = pos.y + self.glyph_pos.y;
        let ghost rings0 = self.rings();
        let mut p = self.polys.pop().unwrap();
        p.points.push(Vec2 { x, y });
        self.polys.push(p);
        proof {
            assert(self.rings() =~= rings0.update(
                rings0.len() - 1,
                rings0.last().push(Vec2 { x, y }),
            ));
        }
    }

    /// Starts the pen at a point without adding a vertex.
    pub fn move_to(&mut self, to: Vec2<i32>)
        ensures
            final(self).pos == to,
            final(self).glyph_pos == old(self).glyph_pos,
            final(self).polys == old(self).polys,
    {
        self.pos = to;
    }

    /// Draws a straight segment: appends the target as a vertex and moves
    /// the pen there.
    pub fn line_to(&mut self, to: Vec2<i32>)
        requires
            old(self).wf(),
            crate::shapes::in_i32(to.x + old(self).glyph_pos.x),
            crate::shapes::in_i32(to.y + old(self).glyph_pos.y),
        ensures
            final(self).wf(),
            final(self).pos == to,
            final(self).glyph_pos == old(self).glyph_pos,
            final(self).rings() =~= old(self).rings().update(
                old(self).rings().len() - 1,
                old(self).rings().last().push(
                    Vec2 {
                        x: (to.x + old(self).glyph_pos.x) as i32,
                        y: (to.y + old(self).glyph_pos.y) as i32,
                    },
                ),
            ),
    {
        self.vertex(to);
        self.pos = to;
    }

    /// Flattens a quadratic curve from the pen position over `control` to
    /// `to`: appends the three half-step samples as vertices and moves the
    /// pen to the end point.
    pub fn quad_to(&mut self, control: Vec2<i32>, to: Vec2<i32>)
        requires
            old(self).wf(),
            ({
                let s = quad_samples(old(self).pos, control, to);
                forall|i: int|
                    0 <= i < s.len() ==> crate::shapes::in_i32(
                        (#[trigger] s[i]).x + old(self).glyph_pos.x,
                    ) && crate::shapes::in_i32(s[i].y + old(self).glyph_pos.y)
            }),
        ensures
            final(self).wf(),
            final(self).pos == to,
            final(self).glyph_pos == old(self).glyph_pos,
            final(self).rings() =~= old(self).rings().update(
                old(self).rings().len() - 1,
                old(self).rings().last() + quad_samples(old(self).pos, control, to).map(
                    |i: int, p: Vec2<i32>|
                        Vec2 {
                            x: (p.x + old(self).glyph_pos.x) as i32,
                            y: (p.y + old(self).glyph_pos.y) as i32,
                        },
                ),
            ),
    {
        let a = self.pos;
        let c = control;
        let b = to;
        let ghost off = self.glyph_pos;
        let ghost shifted = quad_samples(a, c, b).map(
            |i: int, p: Vec2<i32>| Vec2 { x: (p.x + off.x) as i32, y: (p.y + off.y) as i32 },
        );
        let ghost rings0 = self.rings();

        let mid = midpoint_exec(midpoint_exec(a, c), midpoint_exec(c, b));

        self.vertex(a);
        let ghost rings1 = self.rings();
        self.vertex(mid);
        let ghost rings2 = self.rings();
        self.vertex(b);
        self.pos = b;
        proof {
            assert(rings1.last() =~= rings0.last().push(shifted[0]));
            assert(rings2.last() =~= rings0.last().push(shifted[0]).push(shifted[1]));
            assert(self.rings().last() =~= rings0.last() + shifted);
            assert(self.rings() =~= rings0.update(rings0.len() - 1, rings0.last() + shifted));
        }
    }

    /// Finishes the ring under construction and starts a new empty one.
    pub fn close(&mut self)
        requires
            old(self).wf(),
        ensures
            final(self).wf(),
            final(self).pos == old(self).pos,
            final(self).glyph_pos == old(self).glyph_pos,
            final(self).rings() =~= old(self).rings().push(Seq::<Vec2<i32>>::empty()),
    {
        let ghost rings0 = self.rings();
        self.polys.push(Poly::empty());
        proof {
            assert(self.rings() =~= rings0.push(Seq::<Vec2<i32>>::empty()));
        }
    }

    /// Takes the finished rings out: the trailing ring under construction is
    /// dropped, and every ring loses its duplicate points, keeping first
    /// occurrences in order.
    pub fn finish(self) -> (r: Vec<Poly>)
        requires
            self.wf(),
        ensures
            r@.len() == self.rings().len() - 1,
            forall|i: int|
                0 <= i < r@.len() ==> (#[trigger] r@[i].points)@ == dedup_first(self.rings()[i]),
    {
        let ghost rings0 = self.rings();
        let mut polys = self.polys;
        polys.pop();
        let mut out: Vec<Poly> = Vec::new();
        let mut i: usize = 0;
        while i < polys.len()
            invariant
                0 <= i <= polys@.len(),
                polys@.len() == rings0.len() - 1,
                forall|j: int| 0 <= j < polys@.len() ==> (#[trigger] polys@[j].points)@ == rings0[j],
                out@.len() == i,
                forall|j: int|
                    0 <= j < i ==> (#[trigger] out@[j].points)@ == dedup_first(rings0[j]),
            decreases polys@.len() - i,
        {
            let mut points: Vec<Vec2<i32>> = crate::shapes::clone_points(&polys[i].points);
            remove_dup_points(&mut points);
            out.push(Poly { points });
            i += 1;
        }
        out
    }
}

} // verus!
