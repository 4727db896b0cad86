use particle_sim::raster::FrameBuffer;

const INK: u32 = 0x39a1b1;

/// The pixels of the buffer that are not of colour zero, as `(x, y)`.
fn lit(frame: &FrameBuffer) -> Vec<(usize, usize)> {
    let mut out = Vec::new();
    for y in 0..frame.height() {
        for x in 0..frame.width() {
            if frame.pixels()[y * frame.width() + x] != 0 {
                out.push((x, y));
            }
        }
    }
    out
}

fn sorted(mut points: Vec<(usize, usize)>) -> Vec<(usize, usize)> {
    points.sort_by_key(|&(x, y)| (y, x));
    points
}

#[test]
fn new_buffer_is_dark() {
    let frame = FrameBuffer::new(7, 5);
    assert_eq!(frame.width(), 7);
    assert_eq!(frame.height(), 5);
    assert_eq!(frame.pixels().len(), 35);
    assert!(frame.pixels().iter().all(|&p| p == 0));
}

#[test]
fn empty_buffer_takes_drawing() {
    let mut frame = FrameBuffer::new(0, 9);
    assert!(frame.pixels().is_empty());
    frame.draw_pixel(0, 0, INK);
    frame.draw_circle(0, 0, 3, INK);
    frame.clear();
    assert!(frame.pixels().is_empty());
}

#[test]
fn draw_pixel_sets_the_row_major_place() {
    let mut frame = FrameBuffer::new(7, 5);
    frame.draw_pixel(2, 3, INK);
    assert_eq!(frame.pixels()[3 * 7 + 2], INK);
    assert_eq!(lit(&frame), vec![(2, 3)]);
    frame.draw_pixel(6, 4, 0xff);
    assert_eq!(frame.pixels()[34], 0xff);
    frame.draw_pixel(0, 0, 1);
    assert_eq!(frame.pixels()[0], 1);
}

#[test]
fn draw_pixel_overwrites() {
    let mut frame = FrameBuffer::new(3, 3);
    frame.draw_pixel(1, 1, 5);
    frame.draw_pixel(1, 1, 9);
    assert_eq!(frame.pixels()[4], 9);
}

#[test]
fn draw_pixel_outside_changes_nothing() {
    let mut frame = FrameBuffer::new(7, 5);
    frame.draw_pixel(-1, 2, INK);
    frame.draw_pixel(2, -1, INK);
    frame.draw_pixel(7, 2, INK);
    frame.draw_pixel(2, 5, INK);
    frame.draw_pixel(i64::MAX, i64::MAX, INK);
    frame.draw_pixel(i64::MIN, 0, INK);
    assert!(lit(&frame).is_empty());
}

#[test]
fn clear_darkens_every_pixel() {
    let mut frame = FrameBuffer::new(4, 4);
    frame.draw_circle(2, 2, 1, INK);
    frame.draw_pixel(0, 0, INK);
    frame.clear();
    assert_eq!(frame.width(), 4);
    assert_eq!(frame.height(), 4);
    assert_eq!(frame.pixels(), &vec![0u32; 16]);
}

#[test]
fn circle_of_radius_zero_is_its_centre() {
    let mut frame = FrameBuffer::new(5, 5);
    frame.draw_circle(2, 3, 0, INK);
    assert_eq!(lit(&frame), vec![(2, 3)]);
}

#[test]
fn circle_of_radius_one() {
    let mut frame = FrameBuffer::new(5, 5);
    frame.draw_circle(2, 2, 1, INK);
    assert_eq!(lit(&frame), sorted(vec![(2, 1), (1, 2), (3, 2), (2, 3)]));
}

#[test]
fn circle_of_radius_two() {
    let mut frame = FrameBuffer::new(7, 7);
    frame.draw_circle(3, 3, 2, INK);
    assert_eq!(
        lit(&frame),
        sorted(vec![(3, 1), (2, 2), (4, 2), (1, 3), (5, 3), (2, 4), (4, 4), (3, 5)])
    );
}

#[test]
fn circle_of_radius_three() {
    let mut frame = FrameBuffer::new(9, 9);
    frame.draw_circle(4, 4, 3, INK);
    assert_eq!(
        lit(&frame),
        sorted(vec![
            (4, 1),
            (3, 2),
            (5, 2),
            (2, 3),
            (6, 3),
            (1, 4),
            (7, 4),
            (2, 5),
            (6, 5),
            (3, 6),
            (5, 6),
            (4, 7),
        ])
    );
}

#[test]
fn circle_of_particle_radius_has_eightfold_symmetry() {
    let r: i64 = 15;
    let c: i64 = 20;
    let mut frame = FrameBuffer::new(41, 41);
    frame.draw_circle(c as i32, c as i32, r as i32, INK);
    let on = |dx: i64, dy: i64| frame.pixels()[((c + dy) * 41 + (c + dx)) as usize] == INK;
    let mut count = 0;
    for dy in -c..=c {
        for dx in -c..=c {
            assert_eq!(on(dx, dy), on(-dx, dy));
            assert_eq!(on(dx, dy), on(dx, -dy));
            assert_eq!(on(dx, dy), on(dy, dx));
            if on(dx, dy) {
                count += 1;
                let d2 = dx * dx + dy * dy;
                assert!((r - 1) * (r - 1) <= d2 && d2 <= (r + 1) * (r + 1));
            }
        }
    }
    assert!(on(r, 0) && on(0, r) && on(-r, 0) && on(0, -r));
    assert!(count > 0);
}

#[test]
fn circle_paints_with_the_given_colour_only() {
    let mut frame = FrameBuffer::new(9, 9);
    frame.draw_pixel(4, 4, 7);
    frame.draw_circle(4, 4, 3, INK);
    assert_eq!(frame.pixels()[4 * 9 + 4], 7);
    assert!(frame.pixels().iter().all(|&p| p == 0 || p == 7 || p == INK));
}

#[test]
fn circle_with_negative_radius_draws_nothing() {
    let mut frame = FrameBuffer::new(9, 9);
    frame.draw_circle(4, 4, -1, INK);
    frame.draw_circle(4, 4, i32::MIN, INK);
    assert!(lit(&frame).is_empty());
}

#[test]
fn circle_is_clipped_at_the_border() {
    let mut frame = FrameBuffer::new(3, 3);
    frame.draw_circle(0, 0, 2, INK);
    assert_eq!(lit(&frame), sorted(vec![(2, 0), (1, 1), (0, 2)]));
}

#[test]
fn circle_far_outside_changes_nothing() {
    let mut frame = FrameBuffer::new(8, 8);
    frame.draw_circle(i32::MAX, i32::MAX, 3, INK);
    frame.draw_circle(i32::MIN, i32::MIN, 3, INK);
    frame.draw_circle(-100, 4, 5, INK);
    assert!(lit(&frame).is_empty());
}

#[test]
fn circle_centred_outside_reaches_in() {
    let mut frame = FrameBuffer::new(4, 4);
    frame.draw_circle(-2, 1, 3, INK);
    assert_eq!(lit(&frame), vec![(0, 0), (1, 1), (0, 2)]);
}
