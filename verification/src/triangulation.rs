//! Ear-clipping triangulation: converts a simple polygon, its vertices
//! listed in clockwise winding order, into a list of triangles.
//!
//! A working list of vertex indices starts as 0..n. While more than three
//! remain, the list is scanned in order for the first vertex that is not
//! reflex and whose candidate triangle contains no other polygon vertex;
//! that ear is emitted and its index removed. The scan order, the candidate
//! test and the failure cases are captured by `ear_clip`, and `triangulate`
//! returns exactly what it prescribes.

use vstd::prelude::*;

use vstd::arithmetic::div_mod::{
    lemma_fundamental_div_mod, lemma_mod_multiples_vanish, lemma_small_mod,
};

use crate::shapes::{cross3, lemma_cross3_swap, tri_contains_spec, Tri};
use crate::vectors::Vec2;

verus! {

/// The winding direction of a polygon's vertex ring.
#[derive(Debug, Clone, Copy, PartialEq, Eq, Structural)]
pub enum WindingOrder {
    Clockwise,
    CounterClockwise,
}

/// An index reduced into [0, len) the way a circular neighbor lookup needs:
/// the mathematical remainder of `i` by `len`.
pub open spec fn wrap(len: int, i: int) -> int {
    i % len
}

/// Reads the element at a circularly wrapped index: an index one past either
/// end of the slice lands on the opposite end.
pub fn wrapped_index<T: Copy>(arr: &[T], index: i32) -> (r: T)
    requires
        arr.len() > 0,
        arr.len() < i32::MAX as usize,
    ensures
        r == arr@[wrap(arr.len() as int, index as int)],
{
    let len = arr.len();
    let ghost li = len as int;
    if index >= 0 {
        let i = (index as usize) % len;
        arr[i]
    } else {
        let k = ((-(index as i64)) as usize) % len;
        proof {
            let ni = -(index as int);
            lemma_fundamental_div_mod(ni, li);
            let q = ni / li;
            assert(li * (-q) == -(li * q)) by (nonlinear_arith);
            assert(index as int == li * (-q) + (-(ni % li)));
            if ni % li == 0 {
                lemma_mod_multiples_vanish(-q, 0, li);
                lemma_small_mod(0, li as nat);
                assert((index as int) % li == 0);
            } else {
                assert(li * (-q - 1) == li * (-q) - li) by (nonlinear_arith);
                assert(index as int == li * (-q - 1) + (li - ni % li));
                lemma_mod_multiples_vanish(-q - 1, li - ni % li, li);
                lemma_small_mod((li - ni % li) as nat, li as nat);
                assert((index as int) % li == li - ni % li);
            }
        }
        let i = if k == 0 {
            0
        } else {
            len - k
        };
        arr[i]
    }
}

/// Whether the vertex at position `i` of the working index list is an ear:
/// it is not reflex (the cross product of its two edges does not turn
/// outward), and no polygon vertex other than the candidate triangle's own
/// three lies inside or on that triangle.
pub open spec fn is_ear(verts: Seq<Vec2<i32>>, idx: Seq<usize>, i: int) -> bool {
    let len = idx.len() as int;
    let bi = idx[wrap(len, i - 1)] as int;
    let ai = idx[i] as int;
    let ci = idx[wrap(len, i + 1)] as int;
    let a = verts[ai];
    let b = verts[bi];
    let c = verts[ci];
    &&& cross3(a, b, c) <= 0
    &&& forall|j: int|
        0 <= j < verts.len() && j != ai && j != bi && j != ci ==> !tri_contains_spec(
            b,
            a,
            c,
            #[trigger] verts[j],
        )
}

/// The position of the first ear at or after position `i` of the working
/// index list, scanning in list order; `None` when no ear remains.
pub open spec fn first_ear_from(verts: Seq<Vec2<i32>>, idx: Seq<usize>, i: int) -> Option<int>
    decreases idx.len() - i,
{
    if i >= idx.len() {
        None
    } else if is_ear(verts, idx, i) {
        Some(i)
    } else {
        first_ear_from(verts, idx, i + 1)
    }
}

/// The triangles ear clipping emits from the working index list, as index
/// triples (previous, ear, next): while more than three indices remain, the
/// first ear is clipped and its index removed; three remaining indices form
/// the final triangle. `None` when some round finds no ear.
pub open spec fn ear_clip(verts: Seq<Vec2<i32>>, idx: Seq<usize>) -> Option<
    Seq<(usize, usize, usize)>,
>
    decreases idx.len(),
{
    if idx.len() <= 3 {
        Some(seq![(idx[0], idx[1], idx[2])])
    } else {
        match first_ear_from(verts, idx, 0) {
            Option::None => None,
            Option::Some(i0) => {
                let len = idx.len() as int;
                let i = if 0 <= i0 < len {
                    i0
                } else {
                    0
                };
                let t = (idx[wrap(len, i - 1)], idx[i], idx[wrap(len, i + 1)]);
                match ear_clip(verts, idx.remove(i)) {
                    Option::None => None,
                    Option::Some(rest) => Some(seq![t] + rest),
                }
            },
        }
    }
}

/// The triangles named by a sequence of index triples.
pub open spec fn tris_of(verts: Seq<Vec2<i32>>, s: Seq<(usize, usize, usize)>) -> Seq<Tri> {
    s.map(
        |k: int, t: (usize, usize, usize)|
            Tri(verts[t.0 as int], verts[t.1 as int], verts[t.2 as int]),
    )
}

/// A found ear position lies within the index list, and the scan really did
/// find an ear there.
proof fn lemma_first_ear_in_range(verts: Seq<Vec2<i32>>, idx: Seq<usize>, i: int)
    requires
        0 <= i,
        first_ear_from(verts, idx, i) is Some,
    ensures
        i <= first_ear_from(verts, idx, i)->0 < idx.len(),
        is_ear(verts, idx, first_ear_from(verts, idx, i)->0),
    decreases idx.len() - i,
{
    if i >= idx.len() {
    } else if is_ear(verts, idx, i) {
    } else {
        lemma_first_ear_in_range(verts, idx, i + 1);
    }
}

/// Every triangle that ear clipping emits by clipping an ear — every one but
/// the final fan triangle, which the algorithm emits unchecked — is listed
/// clockwise or degenerate: the cross product of its corners, in output
/// order (previous, ear, next), is non-negative.
proof fn lemma_ear_clip_winding(verts: Seq<Vec2<i32>>, idx: Seq<usize>)
    requires
        idx.len() >= 3,
        ear_clip(verts, idx) is Some,
    ensures
        forall|k: int|
            0 <= k < ear_clip(verts, idx)->0.len() - 1 ==> cross3(
                verts[(#[trigger] ear_clip(verts, idx)->0[k]).0 as int],
                verts[ear_clip(verts, idx)->0[k].1 as int],
                verts[ear_clip(verts, idx)->0[k].2 as int],
            ) >= 0,
    decreases idx.len(),
{
    if idx.len() <= 3 {
    } else {
        let i0 = first_ear_from(verts, idx, 0)->0;
        lemma_first_ear_in_range(verts, idx, 0);
        let len = idx.len() as int;
        let a = verts[idx[i0] as int];
        let b = verts[idx[wrap(len, i0 - 1)] as int];
        let c = verts[idx[wrap(len, i0 + 1)] as int];
        lemma_cross3_swap(a, b, c);
        assert(cross3(b, a, c) >= 0);
        lemma_ear_clip_winding(verts, idx.remove(i0));
        lemma_ear_clip_len(verts, idx.remove(i0));
        assert forall|k: int|
            0 <= k < ear_clip(verts, idx)->0.len() - 1 implies cross3(
            verts[(#[trigger] ear_clip(verts, idx)->0[k]).0 as int],
            verts[ear_clip(verts, idx)->0[k].1 as int],
            verts[ear_clip(verts, idx)->0[k].2 as int],
        ) >= 0 by {
            if k > 0 {
                assert(ear_clip(verts, idx)->0[k] == ear_clip(verts, idx.remove(i0))->0[k - 1]);
            }
        }
    }
}

/// Ear clipping a list of n >= 3 indices yields exactly n - 2 triangles.
proof fn lemma_ear_clip_len(verts: Seq<Vec2<i32>>, idx: Seq<usize>)
    requires
        idx.len() >= 3,
        ear_clip(verts, idx) is Some,
    ensures
        ear_clip(verts, idx)->0.len() == idx.len() - 2,
    decreases idx.len(),
{
    if idx.len() <= 3 {
    } else {
        let i0 = first_ear_from(verts, idx, 0)->0;
        lemma_first_ear_in_range(verts, idx, 0);
        lemma_ear_clip_len(verts, idx.remove(i0));
    }
}

/// Ear clipping only ever names indices that stand in the working list, so
/// with every index below `n`, every emitted triple stays below `n`.
proof fn lemma_ear_clip_indices(verts: Seq<Vec2<i32>>, idx: Seq<usize>, n: int)
    requires
        idx.len() >= 3,
        ear_clip(verts, idx) is Some,
        forall|k: int| 0 <= k < idx.len() ==> (#[trigger] idx[k]) < n,
    ensures
        forall|k: int|
            0 <= k < ear_clip(verts, idx)->0.len() ==> (#[trigger] ear_clip(verts, idx)->0[k]).0
                < n && ear_clip(verts, idx)->0[k].1 < n && ear_clip(verts, idx)->0[k].2 < n,
    decreases idx.len(),
{
    if idx.len() <= 3 {
    } else {
        let i0 = first_ear_from(verts, idx, 0)->0;
        lemma_first_ear_in_range(verts, idx, 0);
        assert(forall|k: int|
            0 <= k < idx.remove(i0).len() ==> (#[trigger] idx.remove(i0)[k]) < n) by {
            assert forall|k: int|
                0 <= k < idx.remove(i0).len() implies (#[trigger] idx.remove(i0)[k]) < n by {
                if k < i0 {
                    assert(idx.remove(i0)[k] == idx[k]);
                } else {
                    assert(idx.remove(i0)[k] == idx[k + 1]);
                }
            }
        }
        lemma_ear_clip_indices(verts, idx.remove(i0), n);
    }
}

/// Triangulates a simple clockwise polygon by ear clipping. Fewer than three
/// vertices, or a vertex count the signed 32-bit index arithmetic cannot
/// carry, is rejected; a scan round that finds no ear (a degenerate or
/// self-intersecting input) fails with the ear error; otherwise the result
/// is exactly the `ear_clip` triangle list — n - 2 triangles whose corners
/// all come from the input, each clipped ear listed clockwise; only the
/// final fan triangle is emitted without a winding check.
pub fn triangulate(vertices: &[Vec2<i32>]) -> (r: Result<Vec<Tri>, String>)
    ensures
        vertices@.len() < 3 ==> r is Err && r->Err_0@ =~= "too few vertices, must have at-least 3"@,
        vertices@.len() >= 3 && vertices@.len() >= i32::MAX ==> r is Err && r->Err_0@
            =~= "number of vertices must fit in an i32"@,
        3 <= vertices@.len() < i32::MAX ==> (match ear_clip(
            vertices@,
            Seq::new(vertices@.len(), |i: int| i as usize),
        ) {
            Option::None => r is Err && r->Err_0@ =~= "failed to find ear"@,
            Option::Some(s) => r is Ok && r->Ok_0@ == tris_of(vertices@, s),
        }),
        r is Ok ==> r->Ok_0@.len() == vertices@.len() - 2,
        r is Ok ==> forall|k: int|
            0 <= k < r->Ok_0@.len() ==> vertices@.contains((#[trigger] r->Ok_0@[k]).0)
                && vertices@.contains(r->Ok_0@[k].1) && vertices@.contains(r->Ok_0@[k].2),
        r is Ok ==> forall|k: int|
            0 <= k < r->Ok_0@.len() - 1 ==> cross3(
                (#[trigger] r->Ok_0@[k]).0,
                r->Ok_0@[k].1,
                r->Ok_0@[k].2,
            ) >= 0,
        vertices@.len() == 3 ==> r is Ok && r->Ok_0@ =~= seq![
            Tri(vertices@[0], vertices@[1], vertices@[2]),
        ],
{
    let n = vertices.len();
    if n < 3 {
        return Err("too few vertices, must have at-least 3".to_owned());
    }
    if n >= i32::MAX as usize {
        return Err("number of vertices must fit in an i32".to_owned());
    }
    let ghost verts = vertices@;
    let ghost idx0 = Seq::new(n as nat, |i: int| i as usize);

    let mut index_list: Vec<usize> = Vec::new();
    let mut i: usize = 0;
    while i < n
        invariant
            0 <= i <= n,
            index_list@.len() == i,
            forall|k: int| 0 <= k < i ==> index_list@[k] == k,
        decreases n - i,
    {
        index_list.push(i);
        i += 1;
    }
    proof {
        assert(index_list@ =~= idx0);
    }

    let mut tris_idx: Vec<(usize, usize, usize)> = Vec::new();

    while index_list.len() > 3
        invariant
            3 <= index_list@.len() <= n,
            verts == vertices@,
            n == verts.len(),
            3 <= n < i32::MAX,
            idx0 == Seq::new(n as nat, |i: int| i as usize),
            forall|k: int| 0 <= k < index_list@.len() ==> (#[trigger] index_list@[k]) < n,
            match ear_clip(verts, index_list@) {
                Option::None => ear_clip(verts, idx0) is None,
                Option::Some(rest) => ear_clip(verts, idx0) == Some(tris_idx@ + rest),
            },
        decreases index_list@.len(),
    {
        let len = index_list.len();
        let ghost idx_cur = index_list@;

        let mut scan: usize = 0;
        let mut ear_at: usize = 0;
        let mut found_ear = false;
        while scan < len && !found_ear
            invariant
                0 <= scan <= len,
                len == idx_cur.len(),
                3 < len <= n,
                3 <= n < i32::MAX,
                verts == vertices@,
                n == verts.len(),
                idx_cur == index_list@,
                forall|k: int| 0 <= k < idx_cur.len() ==> (#[trigger] idx_cur[k]) < n,
                !found_ear ==> first_ear_from(verts, idx_cur, 0) == first_ear_from(
                    verts,
                    idx_cur,
                    scan as int,
                ),
                found_ear ==> ear_at < len && first_ear_from(verts, idx_cur, 0) == Some(
                    ear_at as int,
                ),
            decreases len - scan, (if found_ear { 0int } else { 1int }),
    {
            let a_index = wrapped_index(index_list.as_slice(), scan as i32);
            let b_index = wrapped_index(index_list.as_slice(), scan as i32 - 1);
            let c_index = wrapped_index(index_list.as_slice(), scan as i32 + 1);
            proof {
                lemma_small_mod(scan as nat, len as nat);
                assert(a_index == idx_cur[scan as int]);
            }

            let a = vertices[a_index];
            let b = vertices[b_index];
            let c = vertices[c_index];

            let cross = crate::shapes::cross3_exec(a, b, c);

            if cross > 0 {
                // A reflex vertex cannot be an ear.
                proof {
                    assert(!is_ear(verts, idx_cur, scan as int));
                }
                scan += 1;
            } else {
                let mut j: usize = 0;
                let mut contained = false;
                while j < n
                    invariant
                        0 <= j <= n,
                        n == verts.len(),
                        verts == vertices@,
                        a == verts[a_index as int],
                        b == verts[b_index as int],
                        c == verts[c_index as int],
                        contained == exists|k: int|
                            0 <= k < j && k != a_index && k != b_index && k != c_index
                                && tri_contains_spec(b, a, c, verts[k]),
                    decreases n - j,
                {
                    if j != a_index && j != b_index && j != c_index {
                        let t = Tri(b, a, c);
                        if t.contains_point(vertices[j]) {
                            contained = true;
                        }
                    }
                    j += 1;
                }
                if contained {
                    proof {
                        assert(!is_ear(verts, idx_cur, scan as int));
                    }
                    scan += 1;
                } else {
                    proof {
                        assert(is_ear(verts, idx_cur, scan as int));
                    }
                    ear_at = scan;
                    found_ear = true;
                }
            }
        }

        if !found_ear {
            proof {
                assert(first_ear_from(verts, idx_cur, len as int) is None);
                assert(ear_clip(verts, idx_cur) is None);
            }
            return Err("failed to find ear".to_owned());
        }

        let a_index = wrapped_index(index_list.as_slice(), ear_at as i32);
        let b_index = wrapped_index(index_list.as_slice(), ear_at as i32 - 1);
        let c_index = wrapped_index(index_list.as_slice(), ear_at as i32 + 1);
        proof {
            lemma_small_mod(ear_at as nat, len as nat);
        }
        tris_idx.push((b_index, a_index, c_index));
        index_list.remove(ear_at);
        proof {
            let t = (b_index, a_index, c_index);
            assert(ear_clip(verts, idx_cur) == (match ear_clip(verts, idx_cur.remove(ear_at as int)) {
                Option::None => Option::<Seq<(usize, usize, usize)>>::None,
                Option::Some(rest) => Some(seq![t] + rest),
            }));
            assert(index_list@ == idx_cur.remove(ear_at as int));
            assert forall|k: int|
                0 <= k < index_list@.len() implies (#[trigger] index_list@[k]) < n by {
                if k < ear_at as int {
                    assert(index_list@[k] == idx_cur[k]);
                } else {
                    assert(index_list@[k] == idx_cur[k + 1]);
                }
            }
            match ear_clip(verts, index_list@) {
                Option::None => {},
                Option::Some(rest) => {
                    assert((tris_idx@.drop_last() + (seq![t] + rest)) =~= (tris_idx@ + rest));
                },
            }
        }
    }

    let t3 = (index_list[0], index_list[1], index_list[2]);
    tris_idx.push(t3);
    proof {
        assert(ear_clip(verts, index_list@) == Some(seq![t3]));
        assert((tris_idx@.drop_last() + seq![t3]) =~= tris_idx@);
        assert(ear_clip(verts, idx0) == Some(tris_idx@));
        lemma_ear_clip_len(verts, idx0);
        lemma_ear_clip_indices(verts, idx0, n as int);
        lemma_ear_clip_winding(verts, idx0);
    }

    let mut tris: Vec<Tri> = Vec::new();
    let mut k: usize = 0;
    while k < tris_idx.len()
        invariant
            0 <= k <= tris_idx@.len(),
            verts == vertices@,
            n == verts.len(),
            forall|j: int|
                0 <= j < tris_idx@.len() ==> (#[trigger] tris_idx@[j]).0 < n && tris_idx@[j].1 < n
                    && tris_idx@[j].2 < n,
            tris@.len() == k,
            forall|j: int|
                0 <= j < k ==> tris@[j] == Tri(
                    verts[(#[trigger] tris_idx@[j]).0 as int],
                    verts[tris_idx@[j].1 as int],
                    verts[tris_idx@[j].2 as int],
                ),
        decreases tris_idx@.len() - k,
    {
        let t = tris_idx[k];
        tris.push(Tri(vertices[t.0], vertices[t.1], vertices[t.2]));
        k += 1;
    }
    proof {
        assert(tris@ =~= tris_of(verts, tris_idx@));
        assert forall|j: int|
            0 <= j < tris@.len() implies verts.contains((#[trigger] tris@[j]).0) && verts.contains(
            tris@[j].1,
        ) && verts.contains(tris@[j].2) by {
            assert(verts[tris_idx@[j].0 as int] == tris@[j].0);
            assert(verts[tris_idx@[j].1 as int] == tris@[j].1);
            assert(verts[tris_idx@[j].2 as int] == tris@[j].2);
        }
    }
    Ok(tris)
}

} // verus!
