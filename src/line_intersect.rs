//! Intersections of lines and segments through integer positions.
//!
//! A segment `[p, q]` defines the implicit line `a x + b y + c = 0` with
//! `a = q.y - p.y`, `b = p.x - q.x` and `c = q.x p.y - p.x q.y`. Evaluating
//! the left-hand side at a point tells on which side of the line it lies;
//! crossings are solved exactly and only rounded when handed back.
use vstd::prelude::*;
use crate::geometry::{
    Position,
    between,
    round_div,
    rounded_div,
    lemma_partway,
    lemma_round_div_in_range,
    lemma_round_div_neg,
};

verus! {

/// A description of the intersection of two lines or segments.
#[derive(Clone, Copy, Debug, PartialEq, Eq, Structural, Hash)]
pub enum LineIntersect {
    /// The lines intersect at the provided point.
    Point(Position),
    /// The lines are colinear.
    Colinear,
    /// The lines do not intersect.
    Disjoint,
}

/// Coefficient `a` of the implicit line through `s`.
pub open spec fn coef_a(s: [Position; 2]) -> int {
    s[1].y - s[0].y
}

/// Coefficient `b` of the implicit line through `s`.
pub open spec fn coef_b(s: [Position; 2]) -> int {
    s[0].x - s[1].x
}

/// Coefficient `c` of the implicit line through `s`.
pub open spec fn coef_c(s: [Position; 2]) -> int {
    s[1].x * s[0].y - s[0].x * s[1].y
}

/// The implicit line equation of `s` evaluated at `p`: zero on the line,
/// and of opposite signs on its two sides.
pub open spec fn side(s: [Position; 2], p: Position) -> int {
    coef_a(s) * p.x + coef_b(s) * p.y + coef_c(s)
}

/// The determinant of the two implicit lines; zero when they are parallel.
pub open spec fn cross_denom(s: [Position; 2], t: [Position; 2]) -> int {
    coef_a(s) * coef_b(t) - coef_a(t) * coef_b(s)
}

/// Numerator of the crossing's x-coordinate.
pub open spec fn cross_num_x(s: [Position; 2], t: [Position; 2]) -> int {
    coef_b(s) * coef_c(t) - coef_b(t) * coef_c(s)
}

/// Numerator of the crossing's y-coordinate.
pub open spec fn cross_num_y(s: [Position; 2], t: [Position; 2]) -> int {
    coef_a(t) * coef_c(s) - coef_a(s) * coef_c(t)
}

/// The crossing's x-coordinate, rounded to the nearest integer.
pub open spec fn cross_x(s: [Position; 2], t: [Position; 2]) -> int {
    round_div(cross_num_x(s, t), cross_denom(s, t))
}

/// The crossing's y-coordinate, rounded to the nearest integer.
pub open spec fn cross_y(s: [Position; 2], t: [Position; 2]) -> int {
    round_div(cross_num_y(s, t), cross_denom(s, t))
}

/// Both values nonzero and of one sign.
pub open spec fn one_sided(u: int, v: int) -> bool {
    (u > 0 && v > 0) || (u < 0 && v < 0)
}

/// The rounded crossing of the two supporting lines.
pub open spec fn crossing(s: [Position; 2], t: [Position; 2]) -> LineIntersect {
    LineIntersect::Point(Position { x: cross_x(s, t) as i32, y: cross_y(s, t) as i32 })
}

/// The intersection of the two infinite lines through `s` and `t`: the same
/// line (every endpoint on the other's line) is colinear, other parallel
/// lines do not meet.
pub open spec fn lines_meet(s: [Position; 2], t: [Position; 2]) -> LineIntersect {
    if cross_denom(s, t) == 0 {
        if side(s, t[0]) == 0 && side(s, t[1]) == 0 && side(t, s[0]) == 0 && side(t, s[1]) == 0 {
            LineIntersect::Colinear
        } else {
            LineIntersect::Disjoint
        }
    } else {
        crossing(s, t)
    }
}

/// The intersection of the segments `s` and `t`: none when the endpoints
/// of either lie strictly on one side of the other's line, colinear when
/// the lines are parallel otherwise, else the rounded crossing.
pub open spec fn segments_meet(s: [Position; 2], t: [Position; 2]) -> LineIntersect {
    if one_sided(side(s, t[0]), side(s, t[1])) || one_sided(side(t, s[0]), side(t, s[1])) {
        LineIntersect::Disjoint
    } else if cross_denom(s, t) == 0 {
        LineIntersect::Colinear
    } else {
        crossing(s, t)
    }
}

/// Whether the rounded crossing of the two lines is representable.
pub open spec fn crossing_fits(s: [Position; 2], t: [Position; 2]) -> bool {
    cross_denom(s, t) != 0 ==> (i32::MIN <= cross_x(s, t) <= i32::MAX && i32::MIN <= cross_y(
        s,
        t,
    ) <= i32::MAX)
}

proof fn lemma_mul_bound(a: int, b: int, ma: int, mb: int)
    requires
        -ma <= a <= ma,
        -mb <= b <= mb,
    ensures
        -(ma * mb) <= a * b <= ma * mb,
{
    assert(-(ma * mb) <= a * b <= ma * mb) by (nonlinear_arith)
        requires
            -ma <= a <= ma,
            -mb <= b <= mb,
    ;
}

/// Magnitude bounds on the line coefficients of a segment.
proof fn lemma_coef_bounds(s: [Position; 2])
    ensures
        -0x1_0000_0000 <= coef_a(s) <= 0x1_0000_0000,
        -0x1_0000_0000 <= coef_b(s) <= 0x1_0000_0000,
        -0x8000_0000_0000_0000 <= coef_c(s) <= 0x8000_0000_0000_0000,
{
    lemma_mul_bound(s[1].x as int, s[0].y as int, 0x8000_0000, 0x8000_0000);
    lemma_mul_bound(s[0].x as int, s[1].y as int, 0x8000_0000, 0x8000_0000);
}

/// Returns the coefficients `(a, b, c)` of the implicit line through `s`.
fn coefficients(s: [Position; 2]) -> (r: (i128, i128, i128))
    ensures
        r.0 == coef_a(s),
        r.1 == coef_b(s),
        r.2 == coef_c(s),
{
    let p = s[0];
    let q = s[1];
    proof {
        lemma_mul_bound(q.x as int, p.y as int, 0x8000_0000, 0x8000_0000);
        lemma_mul_bound(p.x as int, q.y as int, 0x8000_0000, 0x8000_0000);
    }
    let a = q.y as i128 - p.y as i128;
    let b = p.x as i128 - q.x as i128;
    let c = q.x as i128 * p.y as i128 - p.x as i128 * q.y as i128;
    (a, b, c)
}

/// Returns the implicit line equation of `s` evaluated at `p`.
fn side_at(s: [Position; 2], p: Position) -> (r: i128)
    ensures
        r == side(s, p),
        -0x4_0000_0000_0000_0000 <= r <= 0x4_0000_0000_0000_0000,
{
    let (a, b, c) = coefficients(s);
    proof {
        lemma_coef_bounds(s);
        lemma_mul_bound(a as int, p.x as int, 0x1_0000_0000, 0x8000_0000);
        lemma_mul_bound(b as int, p.y as int, 0x1_0000_0000, 0x8000_0000);
    }
    a * p.x as i128 + b * p.y as i128 + c
}

/// Returns the determinant and the two numerators of the crossing of the
/// lines through `s` and `t`.
fn crossing_terms(s: [Position; 2], t: [Position; 2]) -> (r: (i128, i128, i128))
    ensures
        r.0 == cross_denom(s, t),
        r.1 == cross_num_x(s, t),
        r.2 == cross_num_y(s, t),
        -0x4_0000_0000_0000_0000 <= r.0 <= 0x4_0000_0000_0000_0000,
        -0x4_0000_0000_0000_0000_0000_0000 <= r.1 <= 0x4_0000_0000_0000_0000_0000_0000,
        -0x4_0000_0000_0000_0000_0000_0000 <= r.2 <= 0x4_0000_0000_0000_0000_0000_0000,
{
    let (a1, b1, c1) = coefficients(s);
    let (a2, b2, c2) = coefficients(t);
    proof {
        lemma_coef_bounds(s);
        lemma_coef_bounds(t);
        lemma_mul_bound(a1 as int, b2 as int, 0x1_0000_0000, 0x1_0000_0000);
        lemma_mul_bound(a2 as int, b1 as int, 0x1_0000_0000, 0x1_0000_0000);
        lemma_mul_bound(b1 as int, c2 as int, 0x1_0000_0000, 0x8000_0000_0000_0000);
        lemma_mul_bound(b2 as int, c1 as int, 0x1_0000_0000, 0x8000_0000_0000_0000);
        lemma_mul_bound(a2 as int, c1 as int, 0x1_0000_0000, 0x8000_0000_0000_0000);
        lemma_mul_bound(a1 as int, c2 as int, 0x1_0000_0000, 0x8000_0000_0000_0000);
    }
    (a1 * b2 - a2 * b1, b1 * c2 - b2 * c1, a2 * c1 - a1 * c2)
}

/// The crossing numerators, written through the side value of the first
/// endpoint: `num = p * denom - (q - p) * side(t, s[0])` on each axis.
proof fn lemma_numerator_identity(s: [Position; 2], t: [Position; 2])
    ensures
        side(t, s[1]) - side(t, s[0]) == cross_denom(s, t),
        cross_num_x(s, t) == s[0].x * cross_denom(s, t) - (s[1].x - s[0].x) * side(t, s[0]),
        cross_num_y(s, t) == s[0].y * cross_denom(s, t) - (s[1].y - s[0].y) * side(t, s[0]),
{
    let (x0, y0, x1, y1) = (s[0].x as int, s[0].y as int, s[1].x as int, s[1].y as int);
    let (u0, v0, u1, v1) = (t[0].x as int, t[0].y as int, t[1].x as int, t[1].y as int);
    assert((u0 * v1 - u1 * v0 + (v1 - v0) * x1 + (u0 - u1) * y1) - (u0 * v1 - u1 * v0 + (v1 - v0)
        * x0 + (u0 - u1) * y0) == (y1 - y0) * (u0 - u1) - (v1 - v0) * (x0 - x1)) by (nonlinear_arith);
    lemma_expand_numerators(x0, y0, x1, y1, coef_a(t), coef_b(t), coef_c(t));
}

/// The algebra behind the numerator identity, with the second line's
/// coefficients `a2`, `b2`, `c2` left free.
proof fn lemma_expand_numerators(x0: int, y0: int, x1: int, y1: int, a2: int, b2: int, c2: int)
    ensures
        ({
            let (a1, b1, c1) = (y1 - y0, x0 - x1, x1 * y0 - x0 * y1);
            let d = a1 * b2 - a2 * b1;
            let r = a2 * x0 + b2 * y0 + c2;
            &&& b1 * c2 - b2 * c1 == x0 * d - (x1 - x0) * r
            &&& a2 * c1 - a1 * c2 == y0 * d - (y1 - y0) * r
        }),
{
    let (a1, b1, c1) = (y1 - y0, x0 - x1, x1 * y0 - x0 * y1);
    let d = a1 * b2 - a2 * b1;
    let r = a2 * x0 + b2 * y0 + c2;
    let e = x1 - x0;
    let f = y1 - y0;
    assert(e * r == e * (a2 * x0) + e * (b2 * y0) + e * c2) by (nonlinear_arith)
        requires
            r == a2 * x0 + b2 * y0 + c2,
    ;
    assert(f * r == f * (a2 * x0) + f * (b2 * y0) + f * c2) by (nonlinear_arith)
        requires
            r == a2 * x0 + b2 * y0 + c2,
    ;
    assert(x0 * d == x0 * (a1 * b2) - x0 * (a2 * b1)) by (nonlinear_arith)
        requires
            d == a1 * b2 - a2 * b1,
    ;
    assert(y0 * d == y0 * (a1 * b2) - y0 * (a2 * b1)) by (nonlinear_arith)
        requires
            d == a1 * b2 - a2 * b1,
    ;
    assert(x0 * (a2 * b1) + e * (a2 * x0) == 0) by (nonlinear_arith)
        requires
            b1 == -e,
    ;
    assert(x0 * (a1 * b2) - e * (b2 * y0) == -(b2 * c1)) by (nonlinear_arith)
        requires
            a1 == y1 - y0,
            e == x1 - x0,
            c1 == x1 * y0 - x0 * y1,
    ;
    assert(b1 * c2 == -(e * c2)) by (nonlinear_arith)
        requires
            b1 == -e,
    ;
    assert(f * (b2 * y0) - y0 * (a1 * b2) == 0) by (nonlinear_arith)
        requires
            a1 == f,
    ;
    assert(a1 * c2 == f * c2);
    assert(a2 * c1 == -(y0 * (a2 * b1)) - f * (a2 * x0)) by (nonlinear_arith)
        requires
            b1 == x0 - x1,
            f == y1 - y0,
            c1 == x1 * y0 - x0 * y1,
    ;
}

/// Where the endpoints of `s` are not strictly on one side of the line
/// through `t`, the rounded crossing lies within the bounding box of `s`.
pub proof fn lemma_crossing_within(s: [Position; 2], t: [Position; 2])
    requires
        cross_denom(s, t) != 0,
        !one_sided(side(t, s[0]), side(t, s[1])),
    ensures
        between(cross_x(s, t), s[0].x as int, s[1].x as int),
        between(cross_y(s, t), s[0].y as int, s[1].y as int),
{
    lemma_numerator_identity(s, t);
    let d = cross_denom(s, t);
    let r0 = side(t, s[0]);
    let nx = cross_num_x(s, t);
    let ny = cross_num_y(s, t);
    let (x0, y0, x1, y1) = (s[0].x as int, s[0].y as int, s[1].x as int, s[1].y as int);
    if d > 0 {
        assert(0 <= -r0 <= d);
        assert(nx == x0 * d + (x1 - x0) * (-r0)) by (nonlinear_arith)
            requires
                nx == x0 * d - (x1 - x0) * r0,
        ;
        assert(ny == y0 * d + (y1 - y0) * (-r0)) by (nonlinear_arith)
            requires
                ny == y0 * d - (y1 - y0) * r0,
        ;
        lemma_partway(x0, x1, -r0, d);
        lemma_partway(y0, y1, -r0, d);
        lemma_round_div_in_range(nx, d, if x0 <= x1 { x0 } else { x1 }, if x0 <= x1 { x1 } else { x0 });
        lemma_round_div_in_range(ny, d, if y0 <= y1 { y0 } else { y1 }, if y0 <= y1 { y1 } else { y0 });
    } else {
        assert(0 <= r0 <= -d);
        assert(-nx == x0 * (-d) + (x1 - x0) * r0) by (nonlinear_arith)
            requires
                nx == x0 * d - (x1 - x0) * r0,
        ;
        assert(-ny == y0 * (-d) + (y1 - y0) * r0) by (nonlinear_arith)
            requires
                ny == y0 * d - (y1 - y0) * r0,
        ;
        lemma_partway(x0, x1, r0, -d);
        lemma_partway(y0, y1, r0, -d);
        lemma_round_div_in_range(-nx, -d, if x0 <= x1 { x0 } else { x1 }, if x0 <= x1 { x1 } else { x0 });
        lemma_round_div_in_range(-ny, -d, if y0 <= y1 { y0 } else { y1 }, if y0 <= y1 { y1 } else { y0 });
        lemma_round_div_neg(-nx, -d);
        lemma_round_div_neg(-ny, -d);
    }
}

/// Computes the intersection of the two infinite lines through the
/// segments `epa` and `epb`, rounding a crossing to the nearest position.
pub fn line_intersect(epa: [Position; 2], epb: [Position; 2]) -> (r: LineIntersect)
    requires
        crossing_fits(epa, epb),
    ensures
        r == lines_meet(epa, epb),
{
    let (denom, num_x, num_y) = crossing_terms(epa, epb);
    if denom == 0 {
        let r3 = side_at(epa, epb[0]);
        let r4 = side_at(epa, epb[1]);
        let r1 = side_at(epb, epa[0]);
        let r2 = side_at(epb, epa[1]);
        if r1 == 0 && r2 == 0 && r3 == 0 && r4 == 0 {
            LineIntersect::Colinear
        } else {
            LineIntersect::Disjoint
        }
    } else {
        let x = rounded_div(num_x, denom);
        let y = rounded_div(num_y, denom);
        LineIntersect::Point(Position { x: x as i32, y: y as i32 })
    }
}

/// Computes the intersection of the segments `epa` and `epb`, rounding a
/// crossing to the nearest position.
///
/// A crossing always lies within the bounding boxes of both segments.
pub fn line_segment_intersect(epa: [Position; 2], epb: [Position; 2]) -> (r: LineIntersect)
    ensures
        r == segments_meet(epa, epb),
        r is Point ==> between(cross_x(epa, epb), epa[0].x as int, epa[1].x as int)
            && between(cross_y(epa, epb), epa[0].y as int, epa[1].y as int)
            && between(cross_x(epa, epb), epb[0].x as int, epb[1].x as int)
            && between(cross_y(epa, epb), epb[0].y as int, epb[1].y as int),
{
    let r3 = side_at(epa, epb[0]);
    let r4 = side_at(epa, epb[1]);
    if crate::utilities::same_sign(r3, r4) {
        return LineIntersect::Disjoint;
    }
    let r1 = side_at(epb, epa[0]);
    let r2 = side_at(epb, epa[1]);
    if crate::utilities::same_sign(r1, r2) {
        return LineIntersect::Disjoint;
    }
    let (denom, num_x, num_y) = crossing_terms(epa, epb);
    if denom == 0 {
        return LineIntersect::Colinear;
    }
    let x = rounded_div(num_x, denom);
    let y = rounded_div(num_y, denom);
    proof {
        lemma_crossing_within(epa, epb);
        lemma_segments_swap(epa, epb);
        lemma_crossing_within(epb, epa);
    }
    LineIntersect::Point(Position { x: x as i32, y: y as i32 })
}

/// The intersection of the infinite line through `l` with the segment `s`:
/// none when the segment's endpoints lie strictly on one side of the line,
/// colinear when both lie on it, else the rounded crossing.
pub open spec fn line_meets_segment(l: [Position; 2], s: [Position; 2]) -> LineIntersect {
    if one_sided(side(l, s[0]), side(l, s[1])) {
        LineIntersect::Disjoint
    } else if side(l, s[0]) == 0 && side(l, s[1]) == 0 {
        LineIntersect::Colinear
    } else {
        crossing(l, s)
    }
}

/// Computes the intersection of the infinite line through the positions
/// `line` with the segment `segment`, rounding a crossing to the nearest
/// position. A crossing lies within the segment's bounding box.
///
/// Both pairs of endpoints must differ: the first determines the line, and
/// a segment with equal endpoints has no line of its own.
pub fn line_with_segment_intersect(line: [Position; 2], segment: [Position; 2]) -> (r: LineIntersect)
    requires
        line[0] != line[1],
        segment[0] != segment[1],
    ensures
        r == line_meets_segment(line, segment),
        r is Point ==> between(cross_x(line, segment), segment[0].x as int, segment[1].x as int)
            && between(cross_y(line, segment), segment[0].y as int, segment[1].y as int),
{
    let r0 = side_at(line, segment[0]);
    let r1 = side_at(line, segment[1]);
    if crate::utilities::same_sign(r0, r1) {
        return LineIntersect::Disjoint;
    }
    if r0 == 0 && r1 == 0 {
        return LineIntersect::Colinear;
    }
    let (denom, num_x, num_y) = crossing_terms(line, segment);
    proof {
        lemma_numerator_identity(segment, line);
        lemma_segments_swap(line, segment);
        lemma_crossing_within(segment, line);
    }
    let x = rounded_div(num_x, denom);
    let y = rounded_div(num_y, denom);
    LineIntersect::Point(Position { x: x as i32, y: y as i32 })
}

/// Swapping the two segments negates the determinant and both numerators,
/// so the rounded crossing stays the same.
proof fn lemma_segments_swap(s: [Position; 2], t: [Position; 2])
    ensures
        cross_denom(t, s) == -cross_denom(s, t),
        cross_denom(s, t) != 0 ==> cross_x(t, s) == cross_x(s, t) && cross_y(t, s) == cross_y(s, t),
{
    let (a1, b1, c1) = (coef_a(s), coef_b(s), coef_c(s));
    let (a2, b2, c2) = (coef_a(t), coef_b(t), coef_c(t));
    assert(a2 * b1 - a1 * b2 == -(a1 * b2 - a2 * b1)) by (nonlinear_arith);
    assert(b2 * c1 - b1 * c2 == -(b1 * c2 - b2 * c1)) by (nonlinear_arith);
    assert(a1 * c2 - a2 * c1 == -(a2 * c1 - a1 * c2)) by (nonlinear_arith);
    if cross_denom(s, t) != 0 {
        lemma_round_div_neg(cross_num_x(s, t), cross_denom(s, t));
        lemma_round_div_neg(cross_num_y(s, t), cross_denom(s, t));
    }
}

/// Segment intersection does not depend on the order of its arguments.
pub proof fn lemma_segments_meet_symmetric(s: [Position; 2], t: [Position; 2])
    ensures
        segments_meet(s, t) == segments_meet(t, s),
{
    lemma_segments_swap(s, t);
}

/// Line intersection does not depend on the order of its arguments.
pub proof fn lemma_lines_meet_symmetric(s: [Position; 2], t: [Position; 2])
    ensures
        lines_meet(s, t) == lines_meet(t, s),
{
    lemma_segments_swap(s, t);
}

} // verus!
