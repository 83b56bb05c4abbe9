use softraster::colors::Color;
use softraster::shapes::{
    line_contains_point, lines_intersect, project_point_onto_line, remove_dup_points, Line, Poly,
    Rect, Tri,
};
use softraster::vectors::Vec2;

#[test]
fn test() {
    println!("lib compiles");
}

#[test]
fn color_channels_round_trip() {
    for &(r, g, b, a) in &[
        (0u8, 0u8, 0u8, 0u8),
        (255, 255, 255, 255),
        (1, 2, 3, 4),
        (200, 100, 50, 25),
        (255, 0, 255, 0),
    ] {
        let c = Color::pack_rgba(r, g, b, a);
        assert_eq!(c.unpack(), [r, g, b, a]);
        assert_eq!(Color::from_u32(c.to_u32()), c);
    }
}

#[test]
fn color_word_round_trip() {
    for &w in &[0u32, 1, 0xFF, 0x12345678, 0xDEADBEEF, u32::MAX] {
        assert_eq!(Color::from_u32(w).to_u32(), w);
    }
}

#[test]
fn color_constructors() {
    assert_eq!(Color::rgb(1, 2, 3), Color::rgba(1, 2, 3, 255));
    assert_eq!(Color::shade(9), Color::rgba(9, 9, 9, 255));
    assert_eq!(Color::shade_a(9, 7), Color::rgba(9, 9, 9, 7));
    assert_eq!(Color::pack([1, 2, 3, 4]), Color::rgba(1, 2, 3, 4));
    assert_eq!(Color::pack_const(1, 2, 3, 4), Color::rgba(1, 2, 3, 4));
    let c = Color::rgba(10, 20, 30, 40);
    assert_eq!(c.to_u32(), 10 | (20 << 8) | (30 << 16) | (40 << 24));
}

#[test]
fn vec2_arithmetic() {
    let a = Vec2::new(3i32, -4i32);
    let b = Vec2::new(1i32, 2i32);
    assert_eq!(a.add(b), Vec2::new(4, -2));
    assert_eq!(a.sub(b), Vec2::new(2, -6));
    assert_eq!(a.scale(3), Vec2::new(9, -12));
    assert_eq!(a.dot(b), 3 - 8);
    assert_eq!(a.cross(b), 6 + 4);
    assert_eq!(a.len_sq(), 25);
    assert_eq!(a.abs(), Vec2::new(3, 4));
}

#[test]
fn rect_corners_and_containment() {
    let r = Rect::new(2, 3, 4, 5);
    assert_eq!(r.pos(), Vec2::new(2, 3));
    assert_eq!(r.size(), Vec2::new(4, 5));
    assert_eq!(r.tl(), Vec2::new(2, 3));
    assert_eq!(r.tr(), Vec2::new(6, 3));
    assert_eq!(r.br(), Vec2::new(6, 8));
    assert_eq!(r.bl(), Vec2::new(2, 8));
    assert!(r.contains_point(Vec2::new(2, 3)));
    assert!(r.contains_point(Vec2::new(6, 8)));
    assert!(!r.contains_point(Vec2::new(7, 3)));
    assert!(!r.contains_point(Vec2::new(2, 9)));
    let pts = r.points();
    assert_eq!(pts[0], Vec2::new(2, 3));
    assert_eq!(pts[2], Vec2::new(6, 8));
    let ls = r.lines();
    assert_eq!(ls[0], Line(Vec2::new(2, 3), Vec2::new(6, 3)));
    assert_eq!(ls[3], Line(Vec2::new(2, 8), Vec2::new(2, 3)));
    assert_eq!(
        Rect::from_pos_size(Vec2::new(1, 2), Vec2::new(3, 4)),
        Rect::new(1, 2, 3, 4)
    );
}

#[test]
fn tri_containment_clockwise() {
    // Clockwise in a y-down space: (0,0) -> (4,0) -> (0,4).
    let t = Tri(Vec2::new(0, 0), Vec2::new(4, 0), Vec2::new(0, 4));
    assert!(t.contains_point(Vec2::new(1, 1)));
    assert!(t.contains_point(Vec2::new(0, 0)));
    assert!(t.contains_point(Vec2::new(2, 2)));
    assert!(!t.contains_point(Vec2::new(3, 3)));
    assert!(!t.contains_point(Vec2::new(-1, 0)));
    let ls = t.lines();
    assert_eq!(ls[1], Line(Vec2::new(4, 0), Vec2::new(0, 4)));
    assert_eq!(
        Tri::new(&[Vec2::new(0, 0), Vec2::new(4, 0), Vec2::new(0, 4)]),
        t
    );
}

#[test]
fn poly_lines_close_the_ring() {
    let p = Poly::new(&[Vec2::new(0, 0), Vec2::new(2, 0), Vec2::new(2, 2)]);
    let ls = p.lines();
    assert_eq!(ls.len(), 3);
    assert_eq!(ls[0], Line(Vec2::new(0, 0), Vec2::new(2, 0)));
    assert_eq!(ls[1], Line(Vec2::new(2, 0), Vec2::new(2, 2)));
    assert_eq!(ls[2], Line(Vec2::new(2, 2), Vec2::new(0, 0)));
    assert_eq!(Poly::empty().points.len(), 0);
}

#[test]
fn segment_intersection_queries() {
    let a = Line(Vec2::new(0, 0), Vec2::new(2, 2));
    let b = Line(Vec2::new(0, 2), Vec2::new(2, 0));
    assert!(lines_intersect(&a, &b));
    assert!(a.intersects_line(&b));
    let c = Line(Vec2::new(0, 1), Vec2::new(2, 3));
    assert!(!lines_intersect(&a, &c));
    // Segments that only touch at an endpoint do not properly cross.
    let d = Line(Vec2::new(2, 2), Vec2::new(4, 0));
    assert!(!lines_intersect(&a, &d));
}

#[test]
fn parallel_lines_have_no_intersection() {
    let a = Line(Vec2::new(0, 0), Vec2::new(2, 0));
    let b = Line(Vec2::new(0, 1), Vec2::new(2, 1));
    assert_eq!(a.line_intersection(&b), None);
}

#[test]
fn line_extrema() {
    let l = Line(Vec2::new(3, -1), Vec2::new(-2, 5));
    assert_eq!(l.min_x(), -2);
    assert_eq!(l.max_x(), 3);
    assert_eq!(l.min_y(), -1);
    assert_eq!(l.max_y(), 5);
}

#[test]
fn projection_onto_horizontal_line() {
    let l = Line(Vec2::new(0, 0), Vec2::new(4, 0));
    assert_eq!(project_point_onto_line(Vec2::new(2, 3), &l), Vec2::new(2, 0));
    // Points must lie inside the segment's bounding box as well as near it.
    assert!(line_contains_point(&l, 2, Vec2::new(2, 0)));
    assert!(!line_contains_point(&l, 2, Vec2::new(2, 1)));
    assert!(!line_contains_point(&l, 2, Vec2::new(5, 0)));

    let d = Line(Vec2::new(0, 0), Vec2::new(6, 6));
    assert!(line_contains_point(&d, 2, Vec2::new(3, 2)));
    assert!(!line_contains_point(&d, 2, Vec2::new(3, 1)));
}

#[test]
fn duplicate_points_keep_first_occurrences() {
    let a = Vec2::new(1, 1);
    let b = Vec2::new(2, 2);
    let mut pts = vec![a, b, a, a];
    remove_dup_points(&mut pts);
    assert_eq!(pts, vec![a, b]);

    let mut empty: Vec<Vec2<i32>> = Vec::new();
    remove_dup_points(&mut empty);
    assert_eq!(empty, Vec::<Vec2<i32>>::new());
}
