use softraster::fonts::TextBuilder;
use softraster::vectors::Vec2;

#[test]
fn a_fresh_builder_holds_one_empty_ring() {
    let b = TextBuilder::new();
    assert_eq!(b.polys.len(), 1);
    assert_eq!(b.polys[0].points.len(), 0);
    assert_eq!(b.pos, Vec2::new(0, 0));
    assert_eq!(b.glyph_pos, Vec2::new(0, 0));
}

#[test]
fn vertices_are_shifted_by_the_glyph_offset() {
    let mut b = TextBuilder::new();
    b.set_glyph_pos(Vec2::new(10, 20));
    b.vertex(Vec2::new(1, 2));
    assert_eq!(b.polys[0].points, vec![Vec2::new(11, 22)]);
}

#[test]
fn line_to_appends_and_moves_the_pen() {
    let mut b = TextBuilder::new();
    b.move_to(Vec2::new(5, 5));
    assert_eq!(b.pos, Vec2::new(5, 5));
    b.line_to(Vec2::new(7, 9));
    assert_eq!(b.pos, Vec2::new(7, 9));
    assert_eq!(b.polys[0].points, vec![Vec2::new(7, 9)]);
}

#[test]
fn quad_to_samples_start_midpoint_end() {
    let mut b = TextBuilder::new();
    b.move_to(Vec2::new(0, 0));
    b.quad_to(Vec2::new(2, 4), Vec2::new(4, 0));
    // Samples at parameters 0, 1/2 and 1 by nested half-way interpolation:
    // lerp(lerp((0,0),(2,4)), lerp((2,4),(4,0))) = lerp((1,2),(3,2)) = (2,2).
    assert_eq!(
        b.polys[0].points,
        vec![Vec2::new(0, 0), Vec2::new(2, 2), Vec2::new(4, 0)]
    );
    assert_eq!(b.pos, Vec2::new(4, 0));
}

#[test]
fn close_starts_a_new_ring() {
    let mut b = TextBuilder::new();
    b.line_to(Vec2::new(1, 1));
    b.close();
    assert_eq!(b.polys.len(), 2);
    assert_eq!(b.polys[0].points, vec![Vec2::new(1, 1)]);
    assert_eq!(b.polys[1].points.len(), 0);
}

#[test]
fn finish_drops_the_open_ring_and_removes_duplicates() {
    let mut b = TextBuilder::new();
    b.line_to(Vec2::new(0, 0));
    b.line_to(Vec2::new(2, 0));
    b.line_to(Vec2::new(0, 0));
    b.line_to(Vec2::new(2, 2));
    b.close();
    b.line_to(Vec2::new(9, 9));
    let polys = b.finish();
    assert_eq!(polys.len(), 1);
    assert_eq!(
        polys[0].points,
        vec![Vec2::new(0, 0), Vec2::new(2, 0), Vec2::new(2, 2)]
    );
}
