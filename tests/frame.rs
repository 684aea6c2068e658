use sw_render::color::Color;
use sw_render::frame::FrameBuffer;
use sw_render::space::ScreenPoint;

const WHITE: u32 = 0x00FF_FFFF;

fn white() -> Color {
    Color::new(255, 255, 255)
}

fn buffer(width: u32, height: u32) -> FrameBuffer {
    FrameBuffer::new(vec![0u32; (width * height) as usize], width, height)
}

fn lit(fb: &FrameBuffer) -> Vec<(u32, u32)> {
    let mut out = Vec::new();
    for y in 0..fb.height() {
        for x in 0..fb.width() {
            if fb.data()[(y * fb.width() + x) as usize] != 0 {
                out.push((x, y));
            }
        }
    }
    out
}

/// Bresenham's all-octant walk, written out independently for comparison.
fn reference_line(x0: i32, y0: i32, x1: i32, y1: i32) -> Vec<(u32, u32)> {
    let (mut x, mut y) = (x0, y0);
    let dx = (x1 - x0).abs();
    let dy = -(y1 - y0).abs();
    let sx = if x0 < x1 { 1 } else { -1 };
    let sy = if y0 < y1 { 1 } else { -1 };
    let mut err = dx + dy;
    let mut out = Vec::new();
    loop {
        out.push((x as u32, y as u32));
        if x == x1 && y == y1 {
            break;
        }
        let e2 = 2 * err;
        if e2 >= dy {
            err += dy;
            x += sx;
        }
        if e2 <= dx {
            err += dx;
            y += sy;
        }
    }
    out.sort_by_key(|&(x, y)| (y, x));
    out
}

#[test]
fn inside_line_matches_bresenham() {
    for &(x0, y0, x1, y1) in &[(1, 1, 8, 4), (7, 2, 0, 9), (3, 9, 3, 0), (0, 5, 9, 5), (2, 2, 6, 8)] {
        let mut fb = buffer(10, 10);
        fb.draw_line(&ScreenPoint::new(x0, y0), &ScreenPoint::new(x1, y1), white());
        assert_eq!(lit(&fb), reference_line(x0, y0, x1, y1));
    }
}

#[test]
fn outside_line_on_one_side_writes_nothing() {
    let cases = [
        ((-5, -3), (-1, 8)),
        ((12, 0), (30, 9)),
        ((0, -4), (9, -1)),
        ((-3, 11), (14, 20)),
    ];
    for &((x0, y0), (x1, y1)) in &cases {
        let mut fb = FrameBuffer::new(vec![7u32; 100], 10, 10);
        fb.draw_line(&ScreenPoint::new(x0, y0), &ScreenPoint::new(x1, y1), white());
        assert_eq!(fb.data(), &vec![7u32; 100]);
    }
}

#[test]
fn crossing_left_boundary_enters_at_interpolated_point() {
    let mut fb = buffer(20, 20);
    fb.draw_line(&ScreenPoint::new(-5, 10), &ScreenPoint::new(5, 10), white());
    let expected: Vec<(u32, u32)> = (0..=5).map(|x| (x, 10)).collect();
    assert_eq!(lit(&fb), expected);
}

#[test]
fn crossing_top_boundary_interpolates_x() {
    // From (2, 30) to (2 + 10, 0) on a 20 × 20 buffer: y = 20 is met at x = 2 + 10/3 ≈ 5.33.
    let mut fb = buffer(20, 20);
    fb.draw_line(&ScreenPoint::new(2, 30), &ScreenPoint::new(12, 0), white());
    let expected = reference_line(5, 20, 12, 0).into_iter().filter(|&(_, y)| y < 20).collect::<Vec<_>>();
    assert_eq!(lit(&fb), expected);
}

#[test]
fn diagonal_through_every_boundary_is_clipped() {
    let mut fb = buffer(10, 10);
    fb.draw_line(&ScreenPoint::new(-100, -100), &ScreenPoint::new(200, 200), white());
    let expected: Vec<(u32, u32)> = (0..10).map(|i| (i, i)).collect();
    assert_eq!(lit(&fb), expected);
}

#[test]
fn corner_to_corner_both_outside_terminates() {
    let mut fb = buffer(10, 10);
    fb.draw_line(&ScreenPoint::new(-7, 15), &ScreenPoint::new(15, -7), white());
    let expected = reference_line(0, 8, 8, 0);
    assert_eq!(lit(&fb), expected);
}

#[test]
fn zero_length_segment_draws_one_pixel() {
    let mut fb = buffer(10, 10);
    fb.draw_line(&ScreenPoint::new(4, 6), &ScreenPoint::new(4, 6), white());
    assert_eq!(lit(&fb), vec![(4, 6)]);
}

#[test]
fn zero_length_segment_outside_draws_nothing() {
    let mut fb = buffer(10, 10);
    fb.draw_line(&ScreenPoint::new(-4, 6), &ScreenPoint::new(-4, 6), white());
    assert!(lit(&fb).is_empty());
}

#[test]
fn set_pixel_packs_colour() {
    let mut fb = buffer(4, 3);
    fb.set_pixel(2, 1, Color::new(0x12, 0x34, 0x56));
    assert_eq!(fb.data()[6], 0x0012_3456);
    fb.set_pixel(3, 2, white());
    assert_eq!(fb.data()[11], WHITE);
}

#[test]
fn set_pixel_outside_is_ignored() {
    let mut fb = buffer(4, 3);
    fb.set_pixel(4, 0, white());
    fb.set_pixel(0, 3, white());
    fb.set_pixel(100, 100, white());
    assert_eq!(fb.data(), &vec![0u32; 12]);
}

#[test]
fn clear_fills_black() {
    let mut fb = FrameBuffer::new(vec![5u32; 6], 3, 2);
    fb.clear();
    assert_eq!(fb.into_data(), vec![0u32; 6]);
}

#[test]
fn line_on_far_edges_is_kept_but_not_written_past_the_end() {
    // x = width is inside the clip rectangle; its pixels fall outside the buffer.
    let mut fb = buffer(10, 10);
    fb.draw_line(&ScreenPoint::new(10, 0), &ScreenPoint::new(10, 9), white());
    assert!(lit(&fb).is_empty());
    fb.draw_line(&ScreenPoint::new(9, 0), &ScreenPoint::new(9, 9), white());
    assert_eq!(lit(&fb), (0..10).map(|y| (9, y)).collect::<Vec<_>>());
}

fn project(v: [f32; 3]) -> ScreenPoint {
    let scale = 1.0 / (37.5f32.to_radians() / 2.0).tan();
    let view_z = v[2] - 2.25;
    let clip_x = scale * v[0];
    let clip_y = scale * v[1];
    let ndc_x = clip_x / view_z;
    let ndc_y = clip_y / view_z;
    ScreenPoint::new(((ndc_x + 1.0) * 480.0 / 2.0).round() as i32, ((ndc_y + 1.0) * 480.0 / 2.0).round() as i32)
}

#[test]
fn unit_cube_wireframe_fits_and_is_symmetric() {
    let mut corners = Vec::new();
    for &x in &[-0.5f32, 0.5] {
        for &y in &[-0.5f32, 0.5] {
            for &z in &[-0.5f32, 0.5] {
                corners.push([x, y, z]);
            }
        }
    }
    let screen: Vec<ScreenPoint> = corners.iter().map(|&c| project(c)).collect();
    for p in &screen {
        assert!(0 <= p.x && p.x <= 480 && 0 <= p.y && p.y <= 480);
    }
    let mut fb = buffer(480, 480);
    let mut edges = 0;
    for i in 0..8usize {
        for j in (i + 1)..8usize {
            if (i ^ j).count_ones() == 1 {
                fb.draw_line(&screen[i], &screen[j], white());
                edges += 1;
            }
        }
    }
    assert_eq!(edges, 12);
    let pixels = lit(&fb);
    assert!(!pixels.is_empty());
    let (min_x, max_x) = (pixels.iter().map(|p| p.0).min().unwrap(), pixels.iter().map(|p| p.0).max().unwrap());
    let (min_y, max_y) = (pixels.iter().map(|p| p.1).min().unwrap(), pixels.iter().map(|p| p.1).max().unwrap());
    assert_eq!(min_x + max_x, 480);
    assert_eq!(min_y + max_y, 480);
}
