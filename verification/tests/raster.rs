use softraster::bresenham::line_points;
use softraster::colors::Color;
use softraster::graphics::Image;
use softraster::shapes::{Line, Poly, Rect, Tri};
use softraster::tri_rasterizer::get_line_x;
use softraster::vectors::Vec2;

fn canvas(w: u32, h: u32) -> Image {
    Image::empty(Vec2::new(w, h))
}

fn pixel(img: &Image, x: i32, y: i32) -> Color {
    img.pixels().get_pixel(Vec2::new(x, y)).unwrap()
}

fn red() -> Color {
    Color::rgba(255, 0, 0, 255)
}

fn zero() -> Color {
    Color::rgba(0, 0, 0, 0)
}

#[test]
fn line_points_diagonal() {
    let pts = line_points(Vec2::new(0, 0), Vec2::new(3, 3));
    assert_eq!(
        pts,
        vec![Vec2::new(0, 0), Vec2::new(1, 1), Vec2::new(2, 2), Vec2::new(3, 3)]
    );
}

#[test]
fn line_points_shallow() {
    let pts = line_points(Vec2::new(0, 0), Vec2::new(4, 1));
    assert_eq!(pts.len(), 5);
    assert_eq!(pts[0], Vec2::new(0, 0));
    assert_eq!(pts[4], Vec2::new(4, 1));
    for w in pts.windows(2) {
        assert!(w[1].x >= w[0].x);
        assert!((w[1].x - w[0].x).abs() <= 1);
        assert!((w[1].y - w[0].y).abs() <= 1);
        assert!(w[0] != w[1]);
    }
}

#[test]
fn line_points_connectivity_various() {
    let cases = [
        (Vec2::new(0, 0), Vec2::new(0, 0)),
        (Vec2::new(5, 5), Vec2::new(-3, 2)),
        (Vec2::new(-2, 7), Vec2::new(9, -4)),
        (Vec2::new(1, 1), Vec2::new(1, 8)),
        (Vec2::new(8, 2), Vec2::new(1, 2)),
    ];
    for &(a, b) in &cases {
        let pts = line_points(a, b);
        assert_eq!(*pts.first().unwrap(), a);
        assert_eq!(*pts.last().unwrap(), b);
        for w in pts.windows(2) {
            assert!((w[1].x - w[0].x).abs() <= 1);
            assert!((w[1].y - w[0].y).abs() <= 1);
            assert!(w[0] != w[1]);
        }
    }
}

#[test]
fn get_line_x_one_entry_per_row() {
    assert_eq!(get_line_x(Vec2::new(0, 0), Vec2::new(3, 3)), vec![1, 2, 3]);
    assert_eq!(get_line_x(Vec2::new(0, 0), Vec2::new(5, 0)), Vec::<i32>::new());
    assert_eq!(get_line_x(Vec2::new(2, 4), Vec2::new(2, 0)).len(), 4);
}

#[test]
fn draw_pixel_bounds() {
    let mut g = canvas(4, 4).create_graphics();
    g.draw_pixel(Vec2::new(1, 2), red());
    g.draw_pixel(Vec2::new(-1, 0), red());
    g.draw_pixel(Vec2::new(4, 0), red());
    let img = g.into_image();
    assert_eq!(pixel(&img, 1, 2), red());
    assert_eq!(pixel(&img, 0, 0), zero());
    assert_eq!(img.pixels().get_pixel(Vec2::new(4, 0)), None);
}

#[test]
fn fill_covers_everything() {
    let mut g = canvas(3, 5).create_graphics();
    g.fill(red());
    let img = g.into_image();
    for x in 0..3 {
        for y in 0..5 {
            assert_eq!(pixel(&img, x, y), red());
        }
    }
}

#[test]
fn fill_rect_clips_to_surface() {
    let mut g = canvas(8, 8).create_graphics();
    g.fill_rect(&Rect::new(-2, -2, 10, 10), red());
    let img = g.into_image();
    for x in 0..8 {
        for y in 0..8 {
            assert_eq!(pixel(&img, x, y), red());
        }
    }
}

#[test]
fn fill_rect_partial_span() {
    let mut g = canvas(8, 8).create_graphics();
    g.fill_rect(&Rect::new(2, 3, 3, 2), red());
    let img = g.into_image();
    for x in 0..8 {
        for y in 0..8 {
            let inside = x >= 2 && x < 5 && y >= 3 && y < 5;
            assert_eq!(pixel(&img, x, y), if inside { red() } else { zero() });
        }
    }
}

#[test]
fn fill_col_and_row_clip() {
    let mut g = canvas(4, 4).create_graphics();
    g.fill_col(2, -5, 10, red());
    g.fill_col(-1, 0, 3, red());
    g.fill_col(4, 0, 3, red());
    let img = g.into_image();
    for x in 0..4 {
        for y in 0..4 {
            assert_eq!(pixel(&img, x, y), if x == 2 { red() } else { zero() });
        }
    }

    let mut g = canvas(4, 4).create_graphics();
    g.fill_row(1, 2, 99, red());
    let img = g.into_image();
    for x in 0..4 {
        for y in 0..4 {
            let on = y == 1 && x >= 2;
            assert_eq!(pixel(&img, x, y), if on { red() } else { zero() });
        }
    }
}

#[test]
fn draw_line_paints_walk() {
    let mut g = canvas(4, 4).create_graphics();
    g.draw_line(&Line(Vec2::new(0, 0), Vec2::new(3, 3)), red());
    let img = g.into_image();
    for x in 0..4 {
        for y in 0..4 {
            assert_eq!(pixel(&img, x, y), if x == y { red() } else { zero() });
        }
    }
}

#[test]
fn draw_rect_outline_only() {
    let mut g = canvas(6, 6).create_graphics();
    g.draw_rect(&Rect::new(1, 1, 3, 3), red());
    let img = g.into_image();
    for x in 0..6 {
        for y in 0..6 {
            let on_edge = (x == 1 || x == 4) && (1..=4).contains(&y)
                || (y == 1 || y == 4) && (1..=4).contains(&x);
            assert_eq!(pixel(&img, x, y), if on_edge { red() } else { zero() });
        }
    }
}

#[test]
fn draw_tri_edges() {
    let mut g = canvas(6, 6).create_graphics();
    let t = Tri(Vec2::new(0, 0), Vec2::new(4, 0), Vec2::new(0, 4));
    g.draw_tri(&t, red());
    let img = g.into_image();
    // The three corners and the horizontal and vertical edges are painted.
    assert_eq!(pixel(&img, 0, 0), red());
    assert_eq!(pixel(&img, 4, 0), red());
    assert_eq!(pixel(&img, 0, 4), red());
    assert_eq!(pixel(&img, 2, 0), red());
    assert_eq!(pixel(&img, 0, 2), red());
    assert_eq!(pixel(&img, 2, 2), red());
    assert_eq!(pixel(&img, 3, 3), zero());
    assert_eq!(pixel(&img, 1, 1), zero());
}

#[test]
fn draw_poly_closes_ring() {
    let mut g = canvas(6, 6).create_graphics();
    let p = Poly::new(&[Vec2::new(0, 0), Vec2::new(4, 0), Vec2::new(4, 4)]);
    g.draw_poly(&p, red());
    let img = g.into_image();
    assert_eq!(pixel(&img, 2, 0), red());
    assert_eq!(pixel(&img, 4, 2), red());
    assert_eq!(pixel(&img, 2, 2), red());
    assert_eq!(pixel(&img, 1, 3), zero());

    // Fewer than two points draws nothing.
    let mut g = canvas(3, 3).create_graphics();
    g.draw_poly(&Poly::new(&[Vec2::new(1, 1)]), red());
    let img = g.into_image();
    assert_eq!(pixel(&img, 1, 1), zero());
}

#[test]
fn draw_poly_closing_edge_runs_last_to_first() {
    // The closing walk goes from the last point back to the first, and the
    // two directions pick different pixels on this shallow edge: the walk
    // (4,1) -> (0,0) visits (2,1), while (0,0) -> (4,1) would visit (2,0).
    let mut g = canvas(10, 10).create_graphics();
    let p = Poly::new(&[Vec2::new(0, 0), Vec2::new(9, 9), Vec2::new(4, 1)]);
    g.draw_poly(&p, red());
    let img = g.into_image();
    assert_eq!(pixel(&img, 4, 1), red());
    assert_eq!(pixel(&img, 3, 1), red());
    assert_eq!(pixel(&img, 2, 1), red());
    assert_eq!(pixel(&img, 1, 0), red());
    assert_eq!(pixel(&img, 0, 0), red());
    assert_eq!(pixel(&img, 2, 0), zero());
    assert_eq!(pixel(&img, 3, 0), zero());
}

#[test]
fn fill_circle_membership() {
    let mut g = canvas(11, 11).create_graphics();
    g.fill_circle(Vec2::new(5, 5), 2, red());
    let img = g.into_image();
    let mut painted: i32 = 0;
    for x in 0..11i32 {
        for y in 0..11i32 {
            let d2 = (x - 5) * (x - 5) + (y - 5) * (y - 5);
            let expected = if d2 <= 4 { red() } else { zero() };
            assert_eq!(pixel(&img, x, y), expected);
            if d2 <= 4 {
                painted += 1;
            }
        }
    }
    assert_eq!(painted, 13);
}

#[test]
fn fill_circle_negative_radius_is_empty() {
    let mut g = canvas(5, 5).create_graphics();
    g.fill_circle(Vec2::new(2, 2), -1, red());
    let img = g.into_image();
    for x in 0..5 {
        for y in 0..5 {
            assert_eq!(pixel(&img, x, y), zero());
        }
    }
}

#[test]
fn fill_tri_flat_bottom_rows() {
    let mut g = canvas(6, 6).create_graphics();
    let t = Tri(Vec2::new(0, 0), Vec2::new(0, 2), Vec2::new(2, 2));
    g.fill_tri(&t, red());
    let img = g.into_image();
    // The edge walks touch rows 1 and 2; those x runs are drawn on rows 0
    // and 1, one row up from the flat edge.
    let expected = [(0, 0), (1, 0), (0, 1), (1, 1), (2, 1)];
    for x in 0..6 {
        for y in 0..6 {
            let on = expected.contains(&(x, y));
            assert_eq!(pixel(&img, x, y), if on { red() } else { zero() }, "({x},{y})");
        }
    }
}

#[test]
fn fill_tri_point_is_empty() {
    let mut g = canvas(4, 4).create_graphics();
    let t = Tri(Vec2::new(1, 1), Vec2::new(1, 1), Vec2::new(1, 1));
    g.fill_tri(&t, red());
    let img = g.into_image();
    for x in 0..4 {
        for y in 0..4 {
            assert_eq!(pixel(&img, x, y), zero());
        }
    }
}

#[test]
fn blit_identity_when_sizes_match() {
    let mut src = canvas(3, 2);
    {
        let mut g = src.create_graphics();
        g.draw_pixel(Vec2::new(0, 0), red());
        g.draw_pixel(Vec2::new(2, 1), Color::rgba(1, 2, 3, 4));
        src = g.into_image();
    }
    let mut g = canvas(3, 2).create_graphics();
    g.draw_pixels(&src.pixels(), &Rect::new(0, 0, 3, 2));
    let dst = g.into_image();
    assert_eq!(dst.bytes(), src.bytes());
}

#[test]
fn blit_resamples_nearest() {
    let mut src = canvas(2, 2);
    {
        let mut g = src.create_graphics();
        g.draw_pixel(Vec2::new(0, 0), red());
        g.draw_pixel(Vec2::new(1, 1), Color::rgb(0, 255, 0));
        src = g.into_image();
    }
    // Source 2x2 into a 4x4 destination: not the fast path, so nearest
    // sampling maps destination 0..=2 to source 0 and destination 3 to 1.
    let mut g = canvas(4, 4).create_graphics();
    g.draw_pixels(&src.pixels(), &Rect::new(0, 0, 4, 4));
    let dst = g.into_image();
    assert_eq!(pixel(&dst, 0, 0), red());
    assert_eq!(pixel(&dst, 2, 2), red());
    assert_eq!(pixel(&dst, 3, 3), Color::rgb(0, 255, 0));
    assert_eq!(pixel(&dst, 3, 0), zero());
}

#[test]
fn blit_single_column_rect_samples_origin() {
    let mut src = canvas(2, 2);
    {
        let mut g = src.create_graphics();
        g.draw_pixel(Vec2::new(0, 0), red());
        src = g.into_image();
    }
    let mut g = canvas(4, 4).create_graphics();
    g.draw_pixels(&src.pixels(), &Rect::new(1, 0, 1, 1));
    let dst = g.into_image();
    assert_eq!(pixel(&dst, 1, 0), red());
    assert_eq!(pixel(&dst, 0, 0), zero());
}

#[test]
fn raster_1to1_copies_bytes() {
    let mut src = canvas(2, 2);
    {
        let mut g = src.create_graphics();
        g.fill(Color::rgba(9, 8, 7, 6));
        src = g.into_image();
    }
    let mut g = canvas(2, 2).create_graphics();
    g.draw_raster_1to1(&src.pixels());
    let dst = g.into_image();
    assert_eq!(dst.bytes(), src.bytes());
}

#[test]
fn shade_rect_colors_by_position() {
    let mut g = canvas(4, 4).create_graphics();
    g.shade_rect(&Rect::new(1, 1, 5, 2), |p: Vec2<i32>| {
        Color::rgba(p.x as u8, p.y as u8, 7, 255)
    });
    let img = g.into_image();
    for x in 0..4i32 {
        for y in 0..4i32 {
            let inside = (1..4).contains(&x) && (1..3).contains(&y);
            let want = if inside {
                Color::rgba(x as u8, y as u8, 7, 255)
            } else {
                zero()
            };
            assert_eq!(pixel(&img, x, y), want);
        }
    }
}

#[test]
fn surface_accessors() {
    let img = canvas(3, 4);
    assert_eq!(img.size(), Vec2::new(3, 4));
    assert_eq!(img.bytes().len(), 48);
    assert_eq!(img.rect_at(Vec2::new(1, 2)), Rect::new(1, 2, 3, 4));
    let view = img.view();
    assert_eq!(view.rect_at(Vec2::new(0, 0)), Rect::new(0, 0, 3, 4));
    assert_eq!(view.get_pixel(Vec2::new(0, 0)), Some(zero()));
    assert_eq!(view.get_pixel(Vec2::new(3, 0)), None);

    let mut mv = img.mut_view();
    assert_eq!(mv.rect_at(Vec2::new(0, 0)), Rect::new(0, 0, 3, 4));
    assert!(mv.set_pixel(Vec2::new(1, 1), red()).is_ok());
    assert!(mv.set_pixel(Vec2::new(3, 0), red()).is_err());
    assert_eq!(mv.get_pixel(Vec2::new(1, 1)), Some(red()));
    assert_eq!(mv.get_pixel(Vec2::new(-1, 0)), None);
    let ro = mv.non_mut();
    assert_eq!(ro.get_pixel(Vec2::new(1, 1)), Some(red()));
}

#[test]
fn from_raw_checks_length() {
    assert!(Image::from_raw(Vec2::new(2, 2), vec![0u8; 16]).is_some());
    assert!(Image::from_raw(Vec2::new(2, 2), vec![0u8; 15]).is_none());
    let img = Image::from_raw(Vec2::new(1, 1), vec![1, 2, 3, 4]).unwrap();
    assert_eq!(pixel(&img, 0, 0), Color::rgba(1, 2, 3, 4));
}

#[test]
fn graphics_session_reports_size() {
    let img = canvas(5, 3);
    let g = img.create_graphics();
    assert_eq!(g.size(), Vec2::new(5, 3));
    let buf = g.into_buffer();
    let g2 = buf.create_graphics();
    assert_eq!(g2.size(), Vec2::new(5, 3));
}
