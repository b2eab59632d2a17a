use talc::canvas::Canvas;
use talc::geometry::Position;

#[test]
pub fn pixel() {
    let mut c = Canvas::square(5);

    c.set_pixel(Position::new(3, 4), 0xAA);
    c.set_pixel(Position::new(0, 0), 0xBB);
    c.set_pixel(Position::new(4, 4), 0xCC);
    c.set_pixel(Position::new(0, 4), 0xDD);
    c.set_pixel(Position::new(4, 0), 0xEE);
    c.set_pixel(Position::new(5, 0), 0xFF);
    c.set_pixel(Position::new(0, 5), 0xFF);
    c.set_pixel(Position::new(0, -10), 0xFF);

    assert_eq!(c.buffer, vec![
        0xBB, 0x00, 0x00, 0x00, 0xEE,
        0x00, 0x00, 0x00, 0x00, 0x00,
        0x00, 0x00, 0x00, 0x00, 0x00,
        0x00, 0x00, 0x00, 0x00, 0x00,
        0xDD, 0x00, 0x00, 0xAA, 0xCC,
    ])
}

#[test]
pub fn box_clamp() {
    let c = Canvas::square(5);

    let segment = [Position::new(1, -1), Position::new(5, 1)];
    let segment = c.box_clamp(segment).unwrap();

    assert_eq!(segment, [Position::new(1, 0), Position::new(4, 1)])
}

#[test]
pub fn linear_clamp_45_positive() {
    let c = Canvas::square(5);

    let segment = [Position::new(-2, -2), Position::new(6, 6)];
    let segment = c.linear_clamp(segment).unwrap();

    assert_eq!(segment, [Position::new(0, 0), Position::new(4, 4)])
}

#[test]
pub fn linear_clamp_45_positive_reversed() {
    let c = Canvas::square(5);

    let segment = [Position::new(6, 6), Position::new(-2, -2)];
    let segment = c.linear_clamp(segment).unwrap();

    assert_eq!(segment, [Position::new(0, 0), Position::new(4, 4)])
}

#[test]
pub fn linear_clamp_45_negative() {
    let c = Canvas::square(5);

    let segment = [Position::new(-2, 6), Position::new(6, -2)];
    let segment = c.linear_clamp(segment).unwrap();

    assert_eq!(segment, [Position::new(4, 0), Position::new(0, 4)])
}

#[test]
pub fn linear_clamp_45_negative_reversed() {
    let c = Canvas::square(5);

    let segment = [Position::new(6, -2), Position::new(-2, 6)];
    let segment = c.linear_clamp(segment).unwrap();

    assert_eq!(segment, [Position::new(4, 0), Position::new(0, 4)])
}

#[test]
fn pixel_reads_back_what_was_set() {
    let mut c = Canvas::new(3, 2);
    assert!(c.set_pixel(Position::new(2, 1), 7));
    assert!(!c.set_pixel(Position::new(3, 1), 9));
    assert_eq!(c.pixel(Position::new(2, 1)), Some(7));
    assert_eq!(c.pixel(Position::new(0, 0)), Some(0));
    assert_eq!(c.pixel(Position::new(-1, 0)), None);
    assert_eq!(c.pixel(Position::new(0, 2)), None);
    assert_eq!(c.buffer, vec![0, 0, 0, 0, 0, 7]);
}

#[test]
fn canvas_bounds_are_inclusive() {
    let c = Canvas::new(4, 3);
    assert_eq!((c.left(), c.top(), c.right(), c.bottom()), (0, 0, 3, 2));
    assert_eq!(c.bounding_rect(), [Position::new(0, 0), Position::new(3, 2)]);
}

#[test]
fn box_clamp_off_one_side_is_none() {
    let c = Canvas::square(5);
    assert_eq!(c.box_clamp([Position::new(-3, 1), Position::new(-1, 4)]), None);
    assert_eq!(c.box_clamp([Position::new(1, 6), Position::new(3, 9)]), None);
}

#[test]
fn box_clamp_changes_slope() {
    let c = Canvas::square(5);
    assert_eq!(
        c.box_clamp([Position::new(-2, 2), Position::new(2, 10)]),
        Some([Position::new(0, 2), Position::new(2, 4)])
    );
}

#[test]
fn linear_clamp_vertical_and_horizontal() {
    let c = Canvas::square(5);
    assert_eq!(
        c.linear_clamp([Position::new(2, -3), Position::new(2, 9)]),
        Some([Position::new(2, 0), Position::new(2, 4)])
    );
    assert_eq!(c.linear_clamp([Position::new(7, -3), Position::new(7, 9)]), None);
    assert_eq!(c.linear_clamp([Position::new(2, -3), Position::new(2, -1)]), None);
    assert_eq!(
        c.linear_clamp([Position::new(9, 1), Position::new(-1, 1)]),
        Some([Position::new(0, 1), Position::new(4, 1)])
    );
    assert_eq!(c.linear_clamp([Position::new(0, 6), Position::new(3, 6)]), None);
}

#[test]
fn linear_clamp_interpolates_shallow_line() {
    let c = Canvas::square(5);
    // The line y = x / 2 from (-4, -2) to (8, 4): cut at x = 0 and x = 4.
    assert_eq!(
        c.linear_clamp([Position::new(-4, -2), Position::new(8, 4)]),
        Some([Position::new(0, 0), Position::new(4, 2)])
    );
    // Entirely above the canvas although it spans it horizontally.
    assert_eq!(c.linear_clamp([Position::new(-2, -9), Position::new(6, -5)]), None);
}
