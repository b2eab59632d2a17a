use talc::geometry::Position;
use talc::line_intersect::{line_intersect, line_segment_intersect, line_with_segment_intersect, LineIntersect};
use talc::rect_intersect::{extend_segment_to_rect, line_rect_intersect};

fn p(x: i32, y: i32) -> Position {
    Position::new(x, y)
}

#[test]
fn segments_cross_at_origin() {
    let a = [p(-10, -10), p(10, 10)];
    let b = [p(10, -10), p(-10, 10)];
    assert_eq!(line_segment_intersect(a, b), LineIntersect::Point(p(0, 0)));
    assert_eq!(line_segment_intersect(b, a), LineIntersect::Point(p(0, 0)));
}

#[test]
fn segments_on_one_line_are_colinear() {
    let a = [p(0, 0), p(5, 5)];
    let b = [p(10, 10), p(15, 15)];
    assert_eq!(line_segment_intersect(a, b), LineIntersect::Colinear);
    assert_eq!(line_segment_intersect(b, a), LineIntersect::Colinear);
}

#[test]
fn distant_segments_do_not_meet() {
    let a = [p(-10, -10), p(10, 10)];
    let b = [p(30, 10), p(10, 30)];
    assert_eq!(line_segment_intersect(a, b), LineIntersect::Disjoint);
    assert_eq!(line_intersect(a, b), LineIntersect::Point(p(20, 20)));
}

#[test]
fn parallel_segments_do_not_meet() {
    let a = [p(0, 0), p(10, 0)];
    let b = [p(0, 5), p(10, 5)];
    assert_eq!(line_segment_intersect(a, b), LineIntersect::Disjoint);
    assert_eq!(line_intersect(a, b), LineIntersect::Disjoint);
    assert_eq!(line_intersect(a, [p(20, 0), p(30, 0)]), LineIntersect::Colinear);
}

#[test]
fn segments_touching_at_an_endpoint() {
    let a = [p(0, 0), p(10, 10)];
    let b = [p(10, 10), p(20, 0)];
    assert_eq!(line_segment_intersect(a, b), LineIntersect::Point(p(10, 10)));
}

#[test]
fn crossing_is_rounded_to_nearest() {
    // The lines y = x and x + 2y = 5 cross at (5/3, 5/3).
    let a = [p(0, 0), p(4, 4)];
    let b = [p(5, 0), p(1, 2)];
    assert_eq!(line_segment_intersect(a, b), LineIntersect::Point(p(2, 2)));
    // The lines y = 0 and y = -2x + 5 cross at (5/2, 0): the half rounds away from zero.
    assert_eq!(line_intersect([p(0, 0), p(1, 0)], [p(0, 5), p(1, 3)]), LineIntersect::Point(p(3, 0)));
    // The lines y = 0 and y = 2x + 5 cross at (-5/2, 0).
    assert_eq!(line_intersect([p(0, 0), p(1, 0)], [p(0, 5), p(-1, 3)]), LineIntersect::Point(p(-3, 0)));
}

#[test]
fn clip_across_the_rect() {
    let rect = [p(0, 0), p(100, 100)];
    // Exact endpoints (0, 10 + 5/6) and (100, 19 + 1/6), rounded.
    assert_eq!(
        line_rect_intersect([p(-10, 10), p(110, 20)], rect),
        Some([p(0, 11), p(100, 19)])
    );
}

#[test]
fn clip_corner_tangent() {
    let rect = [p(0, 0), p(100, 100)];
    assert_eq!(line_rect_intersect([p(200, 0), p(0, 200)], rect), Some([p(100, 100), p(100, 100)]));
    assert_eq!(line_rect_intersect([p(0, 200), p(200, 0)], rect), Some([p(100, 100), p(100, 100)]));
}

#[test]
fn clip_interior_segment_is_unchanged() {
    let rect = [p(0, 0), p(100, 100)];
    assert_eq!(line_rect_intersect([p(10, 10), p(10, 20)], rect), Some([p(10, 10), p(10, 20)]));
    let once = line_rect_intersect([p(-50, 30), p(170, 80)], rect).unwrap();
    assert_eq!(line_rect_intersect(once, rect), Some(once));
}

#[test]
fn clip_axis_aligned_segments() {
    let rect = [p(0, 0), p(100, 100)];
    assert_eq!(line_rect_intersect([p(10, -10), p(10, 120)], rect), Some([p(10, 0), p(10, 100)]));
    assert_eq!(line_rect_intersect([p(120, 80), p(-10, 80)], rect), Some([p(100, 80), p(0, 80)]));
    assert_eq!(line_rect_intersect([p(0, 10), p(0, 20)], rect), Some([p(0, 10), p(0, 20)]));
    assert_eq!(line_rect_intersect([p(100, 120), p(100, 10)], rect), Some([p(100, 100), p(100, 10)]));
}

#[test]
fn clip_outside_is_none() {
    let rect = [p(0, 0), p(100, 100)];
    assert_eq!(line_rect_intersect([p(110, 10), p(120, 20)], rect), None);
    assert_eq!(line_rect_intersect([p(-10, 5), p(5, -10)], rect), None);
    assert_eq!(line_rect_intersect([p(101, -5), p(101, 50)], rect), None);
}

#[test]
fn clip_degenerate_segment() {
    let rect = [p(0, 0), p(100, 100)];
    assert_eq!(line_rect_intersect([p(5, 5), p(5, 5)], rect), Some([p(5, 5), p(5, 5)]));
    assert_eq!(line_rect_intersect([p(500, 5), p(500, 5)], rect), None);
}

#[test]
fn position_helpers() {
    assert_eq!(Position::one(), p(1, 1));
    assert_eq!(Position::default(), p(0, 0));
    assert_eq!(Position::x_ordered([p(5, 0), p(1, 9)]), [p(1, 9), p(5, 0)]);
    assert_eq!(Position::y_ordered([p(5, 0), p(1, 9)]), [p(5, 0), p(1, 9)]);
    assert_eq!(p(7, -3).clamp_x(0, 5), p(5, -3));
    assert_eq!(p(7, -3).clamp_y(0, 5), p(7, 0));
    assert!(p(3, 3).contained_in([p(0, 0), p(3, 3)]));
    assert!(!p(4, 3).contained_in([p(0, 0), p(3, 3)]));
}

#[test]
fn extend_segment_to_rect_vertical_interior() {
    let rect = [p(0, 0), p(100, 100)];

    let segment = [p(10, 10), p(10, 60)];

    assert_eq!(extend_segment_to_rect(segment, rect), Some([p(10, 0), p(10, 100)]));
}

#[test]
fn extend_segment_to_rect_vertical_overlap() {
    let rect = [p(0, 0), p(100, 100)];

    let segment = [p(10, -10), p(10, 60)];

    assert_eq!(extend_segment_to_rect(segment, rect), Some([p(10, 0), p(10, 100)]));
}

#[test]
fn extend_segment_to_rect_vertical_exterior() {
    let rect = [p(0, 0), p(100, 100)];

    let segment = [p(10, -10), p(10, -60)];

    assert_eq!(extend_segment_to_rect(segment, rect), Some([p(10, 0), p(10, 100)]));
}

#[test]
fn extend_segment_to_rect_vertical_degenerate_edge() {
    let rect = [p(0, 0), p(100, 100)];

    let segment = [p(0, -10), p(0, -60)];

    assert_eq!(extend_segment_to_rect(segment, rect), Some([p(0, 0), p(0, 100)]));
}

#[test]
fn extend_segment_to_rect_horizontal_interior() {
    let rect = [p(0, 0), p(100, 100)];

    let segment = [p(10, 10), p(60, 10)];

    assert_eq!(extend_segment_to_rect(segment, rect), Some([p(0, 10), p(100, 10)]));
}

#[test]
fn extend_segment_to_rect_horizontal_overlap() {
    let rect = [p(0, 0), p(100, 100)];

    let segment = [p(-10, 10), p(60, 10)];

    assert_eq!(extend_segment_to_rect(segment, rect), Some([p(0, 10), p(100, 10)]));
}

#[test]
fn extend_segment_to_rect_horizontal_exterior() {
    let rect = [p(0, 0), p(100, 100)];

    let segment = [p(-10, 10), p(-60, 10)];

    assert_eq!(extend_segment_to_rect(segment, rect), Some([p(0, 10), p(100, 10)]));
}

#[test]
fn extend_segment_to_rect_horizontal_degenerate_edge() {
    let rect = [p(0, 0), p(100, 100)];

    let segment = [p(-10, 0), p(-60, 0)];

    assert_eq!(extend_segment_to_rect(segment, rect), Some([p(0, 0), p(100, 0)]));
}

#[test]
fn extend_diagonal_runs_from_entry_to_exit() {
    let rect = [p(0, 0), p(100, 100)];
    assert_eq!(extend_segment_to_rect([p(10, 10), p(20, 20)], rect), Some([p(0, 0), p(100, 100)]));
    assert_eq!(extend_segment_to_rect([p(20, 20), p(10, 10)], rect), Some([p(100, 100), p(0, 0)]));
    // The line y = x / 2 + 40 enters on the left and leaves on the right.
    assert_eq!(extend_segment_to_rect([p(0, 40), p(2, 41)], rect), Some([p(0, 40), p(100, 90)]));
    // The line y = 3x - 10 enters at the top, at x = 10/3, and leaves at the bottom.
    assert_eq!(extend_segment_to_rect([p(10, 20), p(20, 50)], rect), Some([p(3, 0), p(37, 100)]));
}

#[test]
fn extend_corner_tangent() {
    let rect = [p(0, 0), p(100, 100)];
    assert_eq!(extend_segment_to_rect([p(150, 50), p(160, 40)], rect), Some([p(100, 100), p(100, 100)]));
    assert_eq!(extend_segment_to_rect([p(-10, 10), p(-20, 20)], rect), Some([p(0, 0), p(0, 0)]));
}

#[test]
fn extend_missing_line_is_none() {
    let rect = [p(0, 0), p(100, 100)];
    assert_eq!(extend_segment_to_rect([p(150, 0), p(160, 10)], rect), None);
    assert_eq!(extend_segment_to_rect([p(-5, 120), p(50, 120)], rect), None);
    assert_eq!(extend_segment_to_rect([p(101, 10), p(101, 20)], rect), None);
}

#[test]
fn position_arithmetic_is_componentwise() {
    assert_eq!(p(1, 2) + p(10, 20), p(11, 22));
    assert_eq!(p(1, 2) - p(10, 20), p(-9, -18));
    assert_eq!(-p(3, -4), p(-3, 4));
    assert_eq!(Position::from((5, 6)), p(5, 6));
    let t: (i32, i32) = p(7, 8).into();
    assert_eq!(t, (7, 8));
}

#[test]
fn segments_far_apart_on_crossing_lines() {
    let a = [p(-20, -20), p(-10, -10)];
    let b = [p(20, -20), p(10, -10)];
    assert_eq!(line_segment_intersect(a, b), LineIntersect::Disjoint);
}

#[test]
fn segments_sharing_an_endpoint() {
    let a = [p(0, 0), p(5, 5)];
    let b = [p(2, 3), p(5, 5)];
    assert_eq!(line_segment_intersect(a, b), LineIntersect::Point(p(5, 5)));
}

#[test]
fn lines_through_segment() {
    let cross = [p(10, -10), p(-10, 10)];
    // Horizontal, vertical and diagonal lines through the origin.
    assert_eq!(line_with_segment_intersect([p(-10, 0), p(0, 0)], cross), LineIntersect::Point(p(0, 0)));
    assert_eq!(line_with_segment_intersect([p(0, -10), p(0, 7)], cross), LineIntersect::Point(p(0, 0)));
    assert_eq!(line_with_segment_intersect([p(-10, -10), p(-9, -9)], cross), LineIntersect::Point(p(0, 0)));
}

#[test]
fn line_along_segment_is_colinear() {
    let line = [p(-10, -10), p(-9, -9)];
    assert_eq!(line_with_segment_intersect(line, [p(-5, -5), p(-15, -15)]), LineIntersect::Colinear);
}

#[test]
fn line_meeting_segment_at_endpoint() {
    let line = [p(-10, -10), p(-9, -9)];
    assert_eq!(line_with_segment_intersect(line, [p(2, 3), p(5, 5)]), LineIntersect::Point(p(5, 5)));
}

#[test]
fn line_missing_segment() {
    let line = [p(0, 0), p(1, 0)];
    assert_eq!(line_with_segment_intersect(line, [p(0, 1), p(5, 9)]), LineIntersect::Disjoint);
    assert_eq!(line_with_segment_intersect(line, [p(0, 1), p(5, 1)]), LineIntersect::Disjoint);
}

#[test]
fn intersection_ignores_argument_order() {
    let pairs = [
        ([p(0, 0), p(4, 4)], [p(5, 0), p(1, 2)]),
        ([p(-7, 3), p(9, -2)], [p(1, 8), p(2, -9)]),
        ([p(0, 0), p(10, 0)], [p(0, 5), p(10, 5)]),
        ([p(0, 0), p(5, 5)], [p(10, 10), p(15, 15)]),
        ([p(3, 3), p(3, 3)], [p(0, 0), p(6, 6)]),
    ];
    for (a, b) in pairs.iter() {
        assert_eq!(line_segment_intersect(*a, *b), line_segment_intersect(*b, *a));
        assert_eq!(line_intersect(*a, *b), line_intersect(*b, *a));
    }
}
