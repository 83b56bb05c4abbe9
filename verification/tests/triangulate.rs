use softraster::shapes::Tri;
use softraster::triangulation::{triangulate, wrapped_index, WindingOrder};
use softraster::vectors::Vec2;

#[test]
fn too_few_vertices_is_rejected() {
    let err = triangulate(&[]).unwrap_err();
    assert_eq!(err, "too few vertices, must have at-least 3");
    let err = triangulate(&[Vec2::new(0, 0), Vec2::new(1, 0)]).unwrap_err();
    assert_eq!(err, "too few vertices, must have at-least 3");
}

#[test]
fn a_triangle_is_returned_unchanged() {
    let verts = [Vec2::new(0, 0), Vec2::new(4, 0), Vec2::new(0, 4)];
    let tris = triangulate(&verts).unwrap();
    assert_eq!(tris, vec![Tri(verts[0], verts[1], verts[2])]);
}

#[test]
fn clockwise_square_gives_two_triangles_covering_all_corners() {
    let verts = [
        Vec2::new(0, 0),
        Vec2::new(1, 0),
        Vec2::new(1, 1),
        Vec2::new(0, 1),
    ];
    let tris = triangulate(&verts).unwrap();
    assert_eq!(tris.len(), 2);
    let mut used: Vec<Vec2<i32>> = Vec::new();
    for t in &tris {
        for p in [t.0, t.1, t.2] {
            assert!(verts.contains(&p));
            if !used.contains(&p) {
                used.push(p);
            }
        }
    }
    assert_eq!(used.len(), 4);
}

fn cross(a: Vec2<i32>, b: Vec2<i32>, c: Vec2<i32>) -> i64 {
    (b.x as i64 - a.x as i64) * (c.y as i64 - a.y as i64)
        - (b.y as i64 - a.y as i64) * (c.x as i64 - a.x as i64)
}

#[test]
fn clipped_ears_are_clockwise() {
    let verts = [
        Vec2::new(0, -4),
        Vec2::new(4, -1),
        Vec2::new(2, 4),
        Vec2::new(-2, 4),
        Vec2::new(-4, -1),
    ];
    let tris = triangulate(&verts).unwrap();
    // Every triangle but the last comes from a clipped ear and is listed
    // clockwise: its cross product is non-negative.
    for t in &tris[..tris.len() - 1] {
        assert!(cross(t.0, t.1, t.2) >= 0);
    }
}

#[test]
fn polygon_count_is_n_minus_2() {
    // A clockwise convex pentagon in a y-down space.
    let verts = [
        Vec2::new(0, -4),
        Vec2::new(4, -1),
        Vec2::new(2, 4),
        Vec2::new(-2, 4),
        Vec2::new(-4, -1),
    ];
    let tris = triangulate(&verts).unwrap();
    assert_eq!(tris.len(), 3);
    for t in &tris {
        assert!(verts.contains(&t.0));
        assert!(verts.contains(&t.1));
        assert!(verts.contains(&t.2));
    }
}

#[test]
fn concave_clockwise_polygon_triangulates() {
    // An arrowhead: one reflex vertex at the dent.
    let verts = [
        Vec2::new(0, 0),
        Vec2::new(6, 0),
        Vec2::new(6, 6),
        Vec2::new(3, 2),
        Vec2::new(0, 6),
    ];
    let tris = triangulate(&verts).unwrap();
    assert_eq!(tris.len(), 3);
}

#[test]
fn colinear_vertices_find_no_ear() {
    let verts = [
        Vec2::new(0, 0),
        Vec2::new(1, 0),
        Vec2::new(2, 0),
        Vec2::new(3, 0),
    ];
    let err = triangulate(&verts).unwrap_err();
    assert_eq!(err, "failed to find ear");
}

#[test]
fn self_intersecting_polygon_never_underproduces() {
    // A bowtie: either a full triangulation of n - 2 triangles from the
    // input's own vertices, or the ear failure, never something in between.
    let verts = [
        Vec2::new(0, 0),
        Vec2::new(4, 4),
        Vec2::new(4, 0),
        Vec2::new(0, 4),
    ];
    match triangulate(&verts) {
        Ok(tris) => {
            assert_eq!(tris.len(), 2);
            for t in &tris {
                assert!(verts.contains(&t.0));
                assert!(verts.contains(&t.1));
                assert!(verts.contains(&t.2));
            }
        }
        Err(e) => assert_eq!(e, "failed to find ear"),
    }
}

#[test]
fn wrapped_index_wraps_both_ends() {
    let arr = [10usize, 20, 30, 40];
    assert_eq!(wrapped_index(&arr, 0), 10);
    assert_eq!(wrapped_index(&arr, 3), 40);
    assert_eq!(wrapped_index(&arr, 4), 10);
    assert_eq!(wrapped_index(&arr, 9), 20);
    assert_eq!(wrapped_index(&arr, -1), 40);
    assert_eq!(wrapped_index(&arr, -4), 10);
    assert_eq!(wrapped_index(&arr, -5), 40);
}

#[test]
fn winding_order_values_are_distinct() {
    assert_ne!(WindingOrder::Clockwise, WindingOrder::CounterClockwise);
    assert_eq!(WindingOrder::Clockwise, WindingOrder::Clockwise);
}
