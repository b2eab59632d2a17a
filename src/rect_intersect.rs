//! Clipping a segment to a closed rectangle.
//!
//! The segment `[s0, s1]` is walked as `s0 + t (s1 - s0)` for `t` in
//! `[0, 1]`. Each axis bounds `t` between the parameter at which the segment
//! enters the rectangle's slab and the one at which it leaves it; the clipped
//! segment runs from the latest entry to the earliest exit. Parameters are
//! exact fractions `(numerator, denominator)` with a positive denominator,
//! compared by cross-multiplication; only the endpoints handed back are
//! rounded.
use vstd::prelude::*;
use crate::geometry::{
    Position,
    in_rect,
    rect_wf,
    round_div,
    rounded_div,
    lemma_round_div_in_range,
    lemma_round_div_exact,
};

verus! {

/// `f <= g` for fractions with positive denominators.
pub open spec fn frac_le(f: (int, int), g: (int, int)) -> bool {
    f.0 * g.1 <= g.0 * f.1
}

/// The later of two fractions; on a tie, the first.
pub open spec fn later(f: (int, int), g: (int, int)) -> (int, int) {
    if frac_le(g, f) {
        f
    } else {
        g
    }
}

/// The earlier of two fractions; on a tie, the first.
pub open spec fn earlier(f: (int, int), g: (int, int)) -> (int, int) {
    if frac_le(f, g) {
        f
    } else {
        g
    }
}

/// The parameter at which a coordinate that starts at `p` and moves by `d`
/// enters the slab `[lo, hi]`; zero when it does not move.
pub open spec fn enter(p: int, d: int, lo: int, hi: int) -> (int, int) {
    if d > 0 {
        (lo - p, d)
    } else if d < 0 {
        (p - hi, -d)
    } else {
        (0, 1)
    }
}

/// The parameter at which a coordinate that starts at `p` and moves by `d`
/// leaves the slab `[lo, hi]`; one when it does not move.
pub open spec fn leave(p: int, d: int, lo: int, hi: int) -> (int, int) {
    if d > 0 {
        (hi - p, d)
    } else if d < 0 {
        (p - lo, -d)
    } else {
        (1, 1)
    }
}

/// A coordinate that moves, or stays inside its slab, is not excluded
/// outright.
pub open spec fn slab_open(p: int, d: int, lo: int, hi: int) -> bool {
    d != 0 || (lo <= p && p <= hi)
}

/// The parameter at which the segment enters the rectangle.
pub open spec fn clip_start(s: [Position; 2], rect: [Position; 2]) -> (int, int) {
    later(
        later((0, 1), enter(s[0].x as int, s[1].x - s[0].x, rect[0].x as int, rect[1].x as int)),
        enter(s[0].y as int, s[1].y - s[0].y, rect[0].y as int, rect[1].y as int),
    )
}

/// The parameter at which the segment leaves the rectangle.
pub open spec fn clip_end(s: [Position; 2], rect: [Position; 2]) -> (int, int) {
    earlier(
        earlier((1, 1), leave(s[0].x as int, s[1].x - s[0].x, rect[0].x as int, rect[1].x as int)),
        leave(s[0].y as int, s[1].y - s[0].y, rect[0].y as int, rect[1].y as int),
    )
}

/// Whether some part of the segment lies in the rectangle.
pub open spec fn clip_visible(s: [Position; 2], rect: [Position; 2]) -> bool {
    &&& slab_open(s[0].x as int, s[1].x - s[0].x, rect[0].x as int, rect[1].x as int)
    &&& slab_open(s[0].y as int, s[1].y - s[0].y, rect[0].y as int, rect[1].y as int)
    &&& frac_le(clip_start(s, rect), clip_end(s, rect))
}

/// Numerator of the x-coordinate at parameter `t`, over `t.1`.
pub open spec fn num_x_at(s: [Position; 2], t: (int, int)) -> int {
    s[0].x * t.1 + (s[1].x - s[0].x) * t.0
}

/// Numerator of the y-coordinate at parameter `t`, over `t.1`.
pub open spec fn num_y_at(s: [Position; 2], t: (int, int)) -> int {
    s[0].y * t.1 + (s[1].y - s[0].y) * t.0
}

/// The point of the segment at parameter `t`, rounded to a position.
pub open spec fn rounded_at(s: [Position; 2], t: (int, int)) -> Position {
    Position { x: round_div(num_x_at(s, t), t.1) as i32, y: round_div(num_y_at(s, t), t.1) as i32 }
}

/// Whether the exact point of the segment's supporting line at parameter
/// `t` lies in the closed rectangle.
pub open spec fn line_param_in_rect(s: [Position; 2], rect: [Position; 2], t: (int, int)) -> bool {
    &&& t.1 > 0
    &&& rect[0].x * t.1 <= num_x_at(s, t) <= rect[1].x * t.1
    &&& rect[0].y * t.1 <= num_y_at(s, t) <= rect[1].y * t.1
}

/// Whether `t` is a parameter of the segment (in `[0, 1]`) whose exact point
/// lies in the closed rectangle.
pub open spec fn param_in_rect(s: [Position; 2], rect: [Position; 2], t: (int, int)) -> bool {
    &&& 0 <= t.0 <= t.1
    &&& line_param_in_rect(s, rect, t)
}

/// The part of the segment inside the closed rectangle, from its entry to
/// its exit, with endpoints rounded to positions; `None` when the segment
/// lies entirely outside.
pub open spec fn clip_segment(s: [Position; 2], rect: [Position; 2]) -> Option<[Position; 2]> {
    if clip_visible(s, rect) {
        Some([rounded_at(s, clip_start(s, rect)), rounded_at(s, clip_end(s, rect))])
    } else {
        None
    }
}

/// Fractions with positive denominators are ordered transitively.
proof fn lemma_frac_trans(f: (int, int), g: (int, int), h: (int, int))
    requires
        f.1 > 0,
        g.1 > 0,
        h.1 > 0,
        frac_le(f, g),
        frac_le(g, h),
    ensures
        frac_le(f, h),
{
    assert(f.0 * h.1 <= h.0 * f.1) by (nonlinear_arith)
        requires
            f.1 > 0,
            g.1 > 0,
            h.1 > 0,
            f.0 * g.1 <= g.0 * f.1,
            g.0 * h.1 <= h.0 * g.1,
    ;
}

/// A parameter lies in one slab exactly when it lies between the slab's
/// entry and exit parameters.
proof fn lemma_slab(p: int, d: int, lo: int, hi: int, t: (int, int))
    requires
        t.1 > 0,
        d == 0 ==> 0 <= t.0 <= t.1,
    ensures
        (lo * t.1 <= p * t.1 + d * t.0 <= hi * t.1) <==> (slab_open(p, d, lo, hi) && frac_le(
            enter(p, d, lo, hi),
            t,
        ) && frac_le(t, leave(p, d, lo, hi))),
        enter(p, d, lo, hi).1 > 0,
        leave(p, d, lo, hi).1 > 0,
{
    let (n, q) = t;
    if d == 0 {
        assert(d * n == 0);
        assert(frac_le(enter(p, d, lo, hi), t)) by {
            assert(0 * q == 0);
            assert(n * 1 == n);
        }
        assert(frac_le(t, leave(p, d, lo, hi))) by {
            assert(1 * q == q);
            assert(n * 1 == n);
        }
        assert(lo * q <= p * q <==> lo <= p) by (nonlinear_arith)
            requires
                q > 0,
        ;
        assert(p * q <= hi * q <==> p <= hi) by (nonlinear_arith)
            requires
                q > 0,
        ;
    } else if d > 0 {
        assert((lo - p) * q == lo * q - p * q) by (nonlinear_arith);
        assert((hi - p) * q == hi * q - p * q) by (nonlinear_arith);
        assert(n * d == d * n) by (nonlinear_arith);
        assert(frac_le(enter(p, d, lo, hi), t) <==> lo * q <= p * q + d * n);
        assert(frac_le(t, leave(p, d, lo, hi)) <==> p * q + d * n <= hi * q);
    } else {
        assert((p - hi) * q == p * q - hi * q) by (nonlinear_arith);
        assert((p - lo) * q == p * q - lo * q) by (nonlinear_arith);
        assert(n * (-d) == -(d * n)) by (nonlinear_arith);
        assert(frac_le(enter(p, d, lo, hi), t) <==> p * q + d * n <= hi * q);
        assert(frac_le(t, leave(p, d, lo, hi)) <==> lo * q <= p * q + d * n);
    }
}

/// `t` is at or after the later of `f` and `g` exactly when it is at or
/// after both.
proof fn lemma_later(f: (int, int), g: (int, int), t: (int, int))
    requires
        f.1 > 0,
        g.1 > 0,
        t.1 > 0,
    ensures
        frac_le(later(f, g), t) <==> (frac_le(f, t) && frac_le(g, t)),
        later(f, g).1 > 0,
{
    if frac_le(g, f) {
        if frac_le(f, t) {
            lemma_frac_trans(g, f, t);
        }
    } else {
        assert(frac_le(f, g));
        if frac_le(g, t) {
            lemma_frac_trans(f, g, t);
        }
    }
}

/// `t` is at or before the earlier of `f` and `g` exactly when it is at
/// or before both.
proof fn lemma_earlier(f: (int, int), g: (int, int), t: (int, int))
    requires
        f.1 > 0,
        g.1 > 0,
        t.1 > 0,
    ensures
        frac_le(t, earlier(f, g)) <==> (frac_le(t, f) && frac_le(t, g)),
        earlier(f, g).1 > 0,
{
    if frac_le(f, g) {
        if frac_le(t, f) {
            lemma_frac_trans(t, f, g);
        }
    } else {
        assert(frac_le(g, f));
        if frac_le(t, g) {
            lemma_frac_trans(t, g, f);
        }
    }
}

/// A parameter of the segment has its point in the rectangle exactly when
/// the segment is not excluded by a slab and the parameter lies between the
/// entry and the exit.
pub proof fn lemma_param_in_rect(s: [Position; 2], rect: [Position; 2], t: (int, int))
    requires
        t.1 > 0,
        0 <= t.0 <= t.1,
    ensures
        param_in_rect(s, rect, t) <==> (clip_visible(s, rect) && frac_le(clip_start(s, rect), t)
            && frac_le(t, clip_end(s, rect))),
        clip_start(s, rect).1 > 0,
        clip_end(s, rect).1 > 0,
{
    let (px, dx, l, r) = (s[0].x as int, s[1].x - s[0].x, rect[0].x as int, rect[1].x as int);
    let (py, dy, tp, b) = (s[0].y as int, s[1].y - s[0].y, rect[0].y as int, rect[1].y as int);
    lemma_slab(px, dx, l, r, t);
    lemma_slab(py, dy, tp, b, t);
    lemma_later((0, 1), enter(px, dx, l, r), t);
    lemma_later(later((0, 1), enter(px, dx, l, r)), enter(py, dy, tp, b), t);
    lemma_earlier((1, 1), leave(px, dx, l, r), t);
    lemma_earlier(earlier((1, 1), leave(px, dx, l, r)), leave(py, dy, tp, b), t);
    assert(frac_le((0, 1), t));
    assert(frac_le(t, (1, 1)));
    if param_in_rect(s, rect, t) {
        lemma_frac_trans(clip_start(s, rect), t, clip_end(s, rect));
    }
}

/// Every fraction the clipping handles fits these bounds.
pub open spec fn frac_small(f: (int, int)) -> bool {
    0 < f.1 <= 0x2_0000_0000 && -0x2_0000_0000 <= f.0 <= 0x2_0000_0000
}

/// Where part of the segment is visible, its entry and exit are parameters
/// whose exact points lie in the rectangle, so the rounded endpoints do too.
pub proof fn lemma_clip_sound(s: [Position; 2], rect: [Position; 2])
    requires
        clip_visible(s, rect),
    ensures
        param_in_rect(s, rect, clip_start(s, rect)),
        param_in_rect(s, rect, clip_end(s, rect)),
        in_rect(rounded_at(s, clip_start(s, rect)), rect),
        in_rect(rounded_at(s, clip_end(s, rect)), rect),
{
    let (px, dx, l, r) = (s[0].x as int, s[1].x - s[0].x, rect[0].x as int, rect[1].x as int);
    let (py, dy, tp, b) = (s[0].y as int, s[1].y - s[0].y, rect[0].y as int, rect[1].y as int);
    lemma_slab(px, dx, l, r, (0, 1));
    lemma_slab(py, dy, tp, b, (0, 1));
    let a1 = later((0, 1), enter(px, dx, l, r));
    let st = clip_start(s, rect);
    let z1 = earlier((1, 1), leave(px, dx, l, r));
    let en = clip_end(s, rect);
    assert(frac_le((0, 1), a1));
    assert(frac_le(a1, st));
    assert(a1.1 > 0);
    assert(st.1 > 0);
    lemma_frac_trans((0, 1), a1, st);
    assert(frac_le(z1, (1, 1)));
    assert(frac_le(en, z1));
    assert(z1.1 > 0);
    assert(en.1 > 0);
    lemma_frac_trans(en, z1, (1, 1));
    lemma_frac_trans(st, en, (1, 1));
    lemma_frac_trans((0, 1), st, en);
    lemma_param_in_rect(s, rect, st);
    lemma_param_in_rect(s, rect, en);
    lemma_round_div_in_range(num_x_at(s, st), st.1, l, r);
    lemma_round_div_in_range(num_y_at(s, st), st.1, tp, b);
    lemma_round_div_in_range(num_x_at(s, en), en.1, l, r);
    lemma_round_div_in_range(num_y_at(s, en), en.1, tp, b);
}

/// A segment with some point in the rectangle is visible.
pub proof fn lemma_clip_complete(s: [Position; 2], rect: [Position; 2], t: (int, int))
    requires
        param_in_rect(s, rect, t),
    ensures
        clip_visible(s, rect),
{
    lemma_param_in_rect(s, rect, t);
}

/// Returns whether `f <= g`.
fn frac_at_most(f: (i128, i128), g: (i128, i128)) -> (r: bool)
    requires
        frac_small((f.0 as int, f.1 as int)),
        frac_small((g.0 as int, g.1 as int)),
    ensures
        r == frac_le((f.0 as int, f.1 as int), (g.0 as int, g.1 as int)),
{
    proof {
        lemma_product_bound(f.0 as int, g.1 as int);
        lemma_product_bound(g.0 as int, f.1 as int);
    }
    f.0 * g.1 <= g.0 * f.1
}

/// Products of the magnitudes that the clipping handles fit in an `i128`.
proof fn lemma_product_bound(a: int, b: int)
    requires
        -0x2_0000_0000 <= a <= 0x2_0000_0000,
        -0x2_0000_0000 <= b <= 0x2_0000_0000,
    ensures
        -0x4_0000_0000_0000_0000 <= a * b <= 0x4_0000_0000_0000_0000,
{
    assert(-0x4_0000_0000_0000_0000 <= a * b <= 0x4_0000_0000_0000_0000) by (nonlinear_arith)
        requires
            -0x2_0000_0000 <= a <= 0x2_0000_0000,
            -0x2_0000_0000 <= b <= 0x2_0000_0000,
    ;
}

/// Entry and exit parameters of one slab.
fn slab_params(p: i128, d: i128, lo: i128, hi: i128) -> (r: ((i128, i128), (i128, i128)))
    requires
        -0x8000_0000 <= p < 0x8000_0000,
        -0x1_0000_0000 <= d <= 0x1_0000_0000,
        -0x8000_0000 <= lo < 0x8000_0000,
        -0x8000_0000 <= hi < 0x8000_0000,
    ensures
        (r.0.0 as int, r.0.1 as int) == enter(p as int, d as int, lo as int, hi as int),
        (r.1.0 as int, r.1.1 as int) == leave(p as int, d as int, lo as int, hi as int),
        frac_small((r.0.0 as int, r.0.1 as int)),
        frac_small((r.1.0 as int, r.1.1 as int)),
{
    if d > 0 {
        ((lo - p, d), (hi - p, d))
    } else if d < 0 {
        ((p - hi, -d), (p - lo, -d))
    } else {
        ((0, 1), (1, 1))
    }
}

/// Returns the later of two fractions; on a tie, the first.
fn later_of(f: (i128, i128), g: (i128, i128)) -> (r: (i128, i128))
    requires
        frac_small((f.0 as int, f.1 as int)),
        frac_small((g.0 as int, g.1 as int)),
    ensures
        (r.0 as int, r.1 as int) == later((f.0 as int, f.1 as int), (g.0 as int, g.1 as int)),
        frac_small((r.0 as int, r.1 as int)),
{
    if frac_at_most(g, f) {
        f
    } else {
        g
    }
}

/// Returns the earlier of two fractions; on a tie, the first.
fn earlier_of(f: (i128, i128), g: (i128, i128)) -> (r: (i128, i128))
    requires
        frac_small((f.0 as int, f.1 as int)),
        frac_small((g.0 as int, g.1 as int)),
    ensures
        (r.0 as int, r.1 as int) == earlier((f.0 as int, f.1 as int), (g.0 as int, g.1 as int)),
        frac_small((r.0 as int, r.1 as int)),
{
    if frac_at_most(f, g) {
        f
    } else {
        g
    }
}

/// The point of the segment at parameter `t`, rounded to a position.
fn point_at(s: [Position; 2], t: (i128, i128), rect: [Position; 2]) -> (r: Position)
    requires
        frac_small((t.0 as int, t.1 as int)),
        line_param_in_rect(s, rect, (t.0 as int, t.1 as int)),
    ensures
        r == rounded_at(s, (t.0 as int, t.1 as int)),
{
    let p = s[0];
    let q = s[1];
    proof {
        let tt: (int, int) = (t.0 as int, t.1 as int);
        lemma_product_bound(p.x as int, t.1 as int);
        lemma_product_bound(p.y as int, t.1 as int);
        lemma_product_bound(q.x - p.x, t.0 as int);
        lemma_product_bound(q.y - p.y, t.0 as int);
        lemma_round_div_in_range(num_x_at(s, tt), tt.1, rect[0].x as int, rect[1].x as int);
        lemma_round_div_in_range(num_y_at(s, tt), tt.1, rect[0].y as int, rect[1].y as int);
    }
    let nx = p.x as i128 * t.1 + (q.x as i128 - p.x as i128) * t.0;
    let ny = p.y as i128 * t.1 + (q.y as i128 - p.y as i128) * t.0;
    let x = rounded_div(nx, t.1);
    let y = rounded_div(ny, t.1);
    Position { x: x as i32, y: y as i32 }
}

/// Clips the segment to the closed rectangle with corners `rect[0]` (least
/// coordinates) and `rect[1]` (greatest). Returns the part of the segment
/// inside, from where it enters to where it leaves, with endpoints rounded
/// to the nearest positions, or `None` if the segment lies entirely outside.
pub fn line_rect_intersect(segment: [Position; 2], rect: [Position; 2]) -> (r: Option<
    [Position; 2],
>)
    requires
        rect_wf(rect),
    ensures
        r == clip_segment(segment, rect),
        r is Some ==> in_rect(r->0[0], rect) && in_rect(r->0[1], rect),
{
    let p = segment[0];
    let q = segment[1];
    let (px, py) = (p.x as i128, p.y as i128);
    let dx = q.x as i128 - px;
    let dy = q.y as i128 - py;
    let (left, top) = (rect[0].x as i128, rect[0].y as i128);
    let (right, bottom) = (rect[1].x as i128, rect[1].y as i128);
    if (dx == 0 && (px < left || px > right)) || (dy == 0 && (py < top || py > bottom)) {
        return None;
    }
    let (enter_x, leave_x) = slab_params(px, dx, left, right);
    let (enter_y, leave_y) = slab_params(py, dy, top, bottom);
    let start = later_of(later_of((0, 1), enter_x), enter_y);
    let end = earlier_of(earlier_of((1, 1), leave_x), leave_y);
    if !frac_at_most(start, end) {
        return None;
    }
    proof {
        lemma_clip_sound(segment, rect);
    }
    Some([point_at(segment, start, rect), point_at(segment, end, rect)])
}

/// A segment with both endpoints in the rectangle is its own clipping.
pub proof fn lemma_clip_inside(s: [Position; 2], rect: [Position; 2])
    requires
        in_rect(s[0], rect),
        in_rect(s[1], rect),
    ensures
        clip_visible(s, rect),
        clip_start(s, rect) == (0int, 1int),
        clip_end(s, rect) == (1int, 1int),
        clip_segment(s, rect) == Some(s),
{
    let (px, dx, l, r) = (s[0].x as int, s[1].x - s[0].x, rect[0].x as int, rect[1].x as int);
    let (py, dy, tp, b) = (s[0].y as int, s[1].y - s[0].y, rect[0].y as int, rect[1].y as int);
    let (ex, ey) = (enter(px, dx, l, r), enter(py, dy, tp, b));
    let (lx, ly) = (leave(px, dx, l, r), leave(py, dy, tp, b));
    assert(ex.0 <= 0 && ey.0 <= 0 && lx.1 <= lx.0 && ly.1 <= ly.0);
    assert(ex.0 * 1 == ex.0 && 0 * ex.1 == 0 && ey.0 * 1 == ey.0 && 0 * ey.1 == 0);
    assert(lx.0 * 1 == lx.0 && 1 * lx.1 == lx.1 && ly.0 * 1 == ly.0 && 1 * ly.1 == ly.1);
    assert(frac_le(ex, (0, 1)));
    assert(frac_le(ey, (0, 1)));
    assert(frac_le((1, 1), lx));
    assert(frac_le((1, 1), ly));
    assert(clip_start(s, rect) == (0int, 1int));
    assert(clip_end(s, rect) == (1int, 1int));
    assert(clip_visible(s, rect));
    lemma_round_div_exact(px, 1);
    lemma_round_div_exact(py, 1);
    lemma_round_div_exact(s[1].x as int, 1);
    lemma_round_div_exact(s[1].y as int, 1);
    let c = [rounded_at(s, (0, 1)), rounded_at(s, (1, 1))];
    assert(c[0] == s[0]);
    assert(c[1] == s[1]);
    assert(c =~= s);
}

/// Clipping an already clipped segment to the same rectangle gives it back
/// unchanged.
pub proof fn lemma_clip_idempotent(s: [Position; 2], rect: [Position; 2])
    requires
        clip_segment(s, rect) is Some,
    ensures
        clip_segment(clip_segment(s, rect)->0, rect) == clip_segment(s, rect),
{
    lemma_clip_sound(s, rect);
    lemma_clip_inside(clip_segment(s, rect)->0, rect);
}

/// Every point of a clipped segment lies in the closed rectangle.
pub proof fn lemma_clip_all_inside(s: [Position; 2], rect: [Position; 2], u: (int, int))
    requires
        clip_segment(s, rect) is Some,
        u.1 > 0,
        0 <= u.0 <= u.1,
    ensures
        param_in_rect(clip_segment(s, rect)->0, rect, u),
{
    let c = clip_segment(s, rect)->0;
    lemma_clip_sound(s, rect);
    lemma_clip_inside(c, rect);
    lemma_param_in_rect(c, rect, u);
    assert(frac_le((0, 1), u)) by {
        assert(0 * u.1 == 0);
        assert(u.0 * 1 == u.0);
    }
    assert(frac_le(u, (1, 1))) by {
        assert(1 * u.1 == u.1);
        assert(u.0 * 1 == u.0);
    }
}

/// Whether `c` is one of the rectangle's four corners.
pub open spec fn is_corner(c: Position, rect: [Position; 2]) -> bool {
    (c.x == rect[0].x || c.x == rect[1].x) && (c.y == rect[0].y || c.y == rect[1].y)
}

/// Whether the segment, through corner `c`, misses the rectangle's
/// interior: along its direction, moving inward on one axis means moving
/// outward on the other.
pub open spec fn misses_interior_at(s: [Position; 2], rect: [Position; 2], c: Position) -> bool {
    let ox: int = if c.x == rect[1].x { 1 } else { -1 };
    let oy: int = if c.y == rect[1].y { 1 } else { -1 };
    (ox * (s[1].x - s[0].x)) * (oy * (s[1].y - s[0].y)) < 0
}

/// The exact point of the segment's supporting line at parameter `t` is
/// `c`.
pub open spec fn passes_at(s: [Position; 2], t: (int, int), c: Position) -> bool {
    &&& t.1 > 0
    &&& num_x_at(s, t) == c.x * t.1
    &&& num_y_at(s, t) == c.y * t.1
}

/// Offsets from the corner along the segment are the direction scaled by
/// the difference of parameters.
proof fn lemma_offset(p: int, d: int, cv: int, t0: int, t1: int, u0: int, u1: int)
    requires
        p * t1 + d * t0 == cv * t1,
    ensures
        t1 * (p * u1 + d * u0 - cv * u1) == d * (u0 * t1 - t0 * u1),
{
    assert(t1 * (p * u1 + d * u0 - cv * u1) == u1 * (p * t1 - cv * t1) + d * (u0 * t1)) by (
    nonlinear_arith);
    assert(u1 * (p * t1 - cv * t1) == u1 * (-(d * t0))) by (nonlinear_arith)
        requires
            p * t1 + d * t0 == cv * t1,
    ;
    assert(u1 * (-(d * t0)) + d * (u0 * t1) == d * (u0 * t1 - t0 * u1)) by (nonlinear_arith);
}

/// Through a corner at which it misses the interior, the segment has no
/// point in the rectangle other than the corner.
proof fn lemma_only_corner(
    s: [Position; 2],
    rect: [Position; 2],
    c: Position,
    t: (int, int),
    u: (int, int),
)
    requires
        is_corner(c, rect),
        passes_at(s, t, c),
        misses_interior_at(s, rect, c),
        line_param_in_rect(s, rect, u),
    ensures
        num_x_at(s, u) == c.x * u.1,
        num_y_at(s, u) == c.y * u.1,
{
    let (px, dx) = (s[0].x as int, s[1].x - s[0].x);
    let (py, dy) = (s[0].y as int, s[1].y - s[0].y);
    let w = u.0 * t.1 - t.0 * u.1;
    lemma_offset(px, dx, c.x as int, t.0, t.1, u.0, u.1);
    lemma_offset(py, dy, c.y as int, t.0, t.1, u.0, u.1);
    let ex = num_x_at(s, u) - c.x * u.1;
    let ey = num_y_at(s, u) - c.y * u.1;
    let ox: int = if c.x == rect[1].x { 1 } else { -1 };
    let oy: int = if c.y == rect[1].y { 1 } else { -1 };
    if c.x == rect[1].x {
        assert(ex <= 0);
    } else {
        assert(ex >= 0);
    }
    if c.y == rect[1].y {
        assert(ey <= 0);
    } else {
        assert(ey >= 0);
    }
    assert(ox * ex <= 0);
    assert(oy * ey <= 0);
    assert(t.1 * (ox * ex) == (ox * dx) * w) by (nonlinear_arith)
        requires
            t.1 * ex == dx * w,
    ;
    assert(t.1 * (oy * ey) == (oy * dy) * w) by (nonlinear_arith)
        requires
            t.1 * ey == dy * w,
    ;
    assert(w == 0) by (nonlinear_arith)
        requires
            t.1 > 0,
            ox * ex <= 0,
            oy * ey <= 0,
            t.1 * (ox * ex) == (ox * dx) * w,
            t.1 * (oy * ey) == (oy * dy) * w,
            (ox * dx) * (oy * dy) < 0,
    ;
    assert(ex == 0) by (nonlinear_arith)
        requires
            t.1 > 0,
            t.1 * ex == dx * w,
            w == 0,
    ;
    assert(ey == 0) by (nonlinear_arith)
        requires
            t.1 > 0,
            t.1 * ey == dy * w,
            w == 0,
    ;
}

/// A segment that passes through a corner of the rectangle and otherwise
/// misses it clips to the zero-length segment at that corner.
pub proof fn lemma_corner_tangent(s: [Position; 2], rect: [Position; 2], c: Position, t: (int, int))
    requires
        rect_wf(rect),
        is_corner(c, rect),
        passes_at(s, t, c),
        0 <= t.0 <= t.1,
        misses_interior_at(s, rect, c),
    ensures
        clip_segment(s, rect) == Some([c, c]),
{
    assert(rect[0].x * t.1 <= c.x * t.1 <= rect[1].x * t.1) by (nonlinear_arith)
        requires
            t.1 > 0,
            rect[0].x <= c.x <= rect[1].x,
    ;
    assert(rect[0].y * t.1 <= c.y * t.1 <= rect[1].y * t.1) by (nonlinear_arith)
        requires
            t.1 > 0,
            rect[0].y <= c.y <= rect[1].y,
    ;
    lemma_clip_complete(s, rect, t);
    lemma_clip_sound(s, rect);
    let st = clip_start(s, rect);
    let en = clip_end(s, rect);
    lemma_only_corner(s, rect, c, t, st);
    lemma_only_corner(s, rect, c, t, en);
    lemma_round_div_exact(c.x as int, st.1);
    lemma_round_div_exact(c.y as int, st.1);
    lemma_round_div_exact(c.x as int, en.1);
    lemma_round_div_exact(c.y as int, en.1);
    let r = [rounded_at(s, st), rounded_at(s, en)];
    assert(r[0] == c);
    assert(r[1] == c);
    assert(r =~= [c, c]);
}

/// The parameter at which the segment's supporting line enters the
/// rectangle, for a line along neither axis.
pub open spec fn extend_start(s: [Position; 2], rect: [Position; 2]) -> (int, int) {
    later(
        enter(s[0].x as int, s[1].x - s[0].x, rect[0].x as int, rect[1].x as int),
        enter(s[0].y as int, s[1].y - s[0].y, rect[0].y as int, rect[1].y as int),
    )
}

/// The parameter at which the segment's supporting line leaves the
/// rectangle, for a line along neither axis.
pub open spec fn extend_end(s: [Position; 2], rect: [Position; 2]) -> (int, int) {
    earlier(
        leave(s[0].x as int, s[1].x - s[0].x, rect[0].x as int, rect[1].x as int),
        leave(s[0].y as int, s[1].y - s[0].y, rect[0].y as int, rect[1].y as int),
    )
}

/// The chord that the segment's supporting line cuts from the closed
/// rectangle, endpoints rounded to positions: a horizontal line spans from
/// the left to the right bound, a vertical one from the top to the bottom
/// bound, any other runs from where it enters to where it leaves. `None`
/// when the line misses the rectangle.
pub open spec fn extended(s: [Position; 2], rect: [Position; 2]) -> Option<[Position; 2]> {
    let (px, py) = (s[0].x as int, s[0].y as int);
    if s[1].y == s[0].y {
        if rect[0].y <= py <= rect[1].y {
            Some([Position { x: rect[0].x, y: s[0].y }, Position { x: rect[1].x, y: s[0].y }])
        } else {
            None
        }
    } else if s[1].x == s[0].x {
        if rect[0].x <= px <= rect[1].x {
            Some([Position { x: s[0].x, y: rect[0].y }, Position { x: s[0].x, y: rect[1].y }])
        } else {
            None
        }
    } else if frac_le(extend_start(s, rect), extend_end(s, rect)) {
        Some([rounded_at(s, extend_start(s, rect)), rounded_at(s, extend_end(s, rect))])
    } else {
        None
    }
}

/// For a line along neither axis, a parameter has its point in the
/// rectangle exactly when it lies between the entry and the exit.
pub proof fn lemma_line_param_in_rect(s: [Position; 2], rect: [Position; 2], t: (int, int))
    requires
        s[0].x != s[1].x,
        s[0].y != s[1].y,
        t.1 > 0,
    ensures
        line_param_in_rect(s, rect, t) <==> (frac_le(extend_start(s, rect), t) && frac_le(
            t,
            extend_end(s, rect),
        )),
        extend_start(s, rect).1 > 0,
        extend_end(s, rect).1 > 0,
{
    let (px, dx, l, r) = (s[0].x as int, s[1].x - s[0].x, rect[0].x as int, rect[1].x as int);
    let (py, dy, tp, b) = (s[0].y as int, s[1].y - s[0].y, rect[0].y as int, rect[1].y as int);
    lemma_slab(px, dx, l, r, t);
    lemma_slab(py, dy, tp, b, t);
    lemma_later(enter(px, dx, l, r), enter(py, dy, tp, b), t);
    lemma_earlier(leave(px, dx, l, r), leave(py, dy, tp, b), t);
}

/// Where the line along neither axis meets the rectangle, its entry and
/// exit points lie in it, and so do their roundings.
pub proof fn lemma_extend_sound(s: [Position; 2], rect: [Position; 2])
    requires
        s[0].x != s[1].x,
        s[0].y != s[1].y,
        frac_le(extend_start(s, rect), extend_end(s, rect)),
    ensures
        line_param_in_rect(s, rect, extend_start(s, rect)),
        line_param_in_rect(s, rect, extend_end(s, rect)),
        in_rect(rounded_at(s, extend_start(s, rect)), rect),
        in_rect(rounded_at(s, extend_end(s, rect)), rect),
{
    lemma_line_param_in_rect(s, rect, (0, 1));
    let st = extend_start(s, rect);
    let en = extend_end(s, rect);
    lemma_line_param_in_rect(s, rect, st);
    lemma_line_param_in_rect(s, rect, en);
    lemma_round_div_in_range(num_x_at(s, st), st.1, rect[0].x as int, rect[1].x as int);
    lemma_round_div_in_range(num_y_at(s, st), st.1, rect[0].y as int, rect[1].y as int);
    lemma_round_div_in_range(num_x_at(s, en), en.1, rect[0].x as int, rect[1].x as int);
    lemma_round_div_in_range(num_y_at(s, en), en.1, rect[0].y as int, rect[1].y as int);
}

/// A line with some point in the rectangle is extended to a chord.
pub proof fn lemma_extend_complete(s: [Position; 2], rect: [Position; 2], t: (int, int))
    requires
        rect_wf(rect),
        s[0] != s[1],
        line_param_in_rect(s, rect, t),
    ensures
        extended(s, rect) is Some,
{
    if s[0].x != s[1].x && s[0].y != s[1].y {
        lemma_line_param_in_rect(s, rect, t);
        lemma_frac_trans(extend_start(s, rect), t, extend_end(s, rect));
    } else if s[1].y == s[0].y {
        assert((s[1].y - s[0].y) * t.0 == 0) by (nonlinear_arith)
            requires
                s[1].y == s[0].y,
        ;
        assert(num_y_at(s, t) == s[0].y * t.1);
        assert(rect[0].y <= s[0].y <= rect[1].y) by (nonlinear_arith)
            requires
                t.1 > 0,
                rect[0].y * t.1 <= s[0].y * t.1 <= rect[1].y * t.1,
        ;
    } else {
        assert((s[1].x - s[0].x) * t.0 == 0) by (nonlinear_arith)
            requires
                s[1].x == s[0].x,
        ;
        assert(num_x_at(s, t) == s[0].x * t.1);
        assert(rect[0].x <= s[0].x <= rect[1].x) by (nonlinear_arith)
            requires
                t.1 > 0,
                rect[0].x * t.1 <= s[0].x * t.1 <= rect[1].x * t.1,
        ;
    }
}

/// A line through a corner of the rectangle that otherwise misses it is
/// extended to the zero-length segment at that corner.
pub proof fn lemma_extend_corner_tangent(
    s: [Position; 2],
    rect: [Position; 2],
    c: Position,
    t: (int, int),
)
    requires
        rect_wf(rect),
        is_corner(c, rect),
        passes_at(s, t, c),
        misses_interior_at(s, rect, c),
    ensures
        extended(s, rect) == Some([c, c]),
{
    let ox: int = if c.x == rect[1].x { 1 } else { -1 };
    let oy: int = if c.y == rect[1].y { 1 } else { -1 };
    let (dx, dy) = (s[1].x - s[0].x, s[1].y - s[0].y);
    assert(dx != 0 && dy != 0) by (nonlinear_arith)
        requires
            (ox * dx) * (oy * dy) < 0,
    ;
    assert(rect[0].x * t.1 <= c.x * t.1 <= rect[1].x * t.1) by (nonlinear_arith)
        requires
            t.1 > 0,
            rect[0].x <= c.x <= rect[1].x,
    ;
    assert(rect[0].y * t.1 <= c.y * t.1 <= rect[1].y * t.1) by (nonlinear_arith)
        requires
            t.1 > 0,
            rect[0].y <= c.y <= rect[1].y,
    ;
    lemma_line_param_in_rect(s, rect, t);
    lemma_frac_trans(extend_start(s, rect), t, extend_end(s, rect));
    lemma_extend_sound(s, rect);
    let st = extend_start(s, rect);
    let en = extend_end(s, rect);
    lemma_only_corner(s, rect, c, t, st);
    lemma_only_corner(s, rect, c, t, en);
    lemma_round_div_exact(c.x as int, st.1);
    lemma_round_div_exact(c.y as int, st.1);
    lemma_round_div_exact(c.x as int, en.1);
    lemma_round_div_exact(c.y as int, en.1);
    let r = [rounded_at(s, st), rounded_at(s, en)];
    assert(r[0] == c);
    assert(r[1] == c);
    assert(r =~= [c, c]);
}

/// Extends the segment's supporting line to the boundaries of the closed
/// rectangle with corners `rect[0]` (least coordinates) and `rect[1]`
/// (greatest). Returns `None` if the line misses the rectangle. A line
/// through a single corner gives the zero-length segment at that corner.
///
/// The segment's endpoints must differ, so that they determine a line.
pub fn extend_segment_to_rect(segment: [Position; 2], rect: [Position; 2]) -> (r: Option<
    [Position; 2],
>)
    requires
        rect_wf(rect),
        segment[0] != segment[1],
    ensures
        r == extended(segment, rect),
        r is Some ==> in_rect(r->0[0], rect) && in_rect(r->0[1], rect),
{
    let p = segment[0];
    let q = segment[1];
    if q.y == p.y {
        if rect[0].y <= p.y && p.y <= rect[1].y {
            return Some([Position { x: rect[0].x, y: p.y }, Position { x: rect[1].x, y: p.y }]);
        }
        return None;
    }
    if q.x == p.x {
        if rect[0].x <= p.x && p.x <= rect[1].x {
            return Some([Position { x: p.x, y: rect[0].y }, Position { x: p.x, y: rect[1].y }]);
        }
        return None;
    }
    let (px, py) = (p.x as i128, p.y as i128);
    let dx = q.x as i128 - px;
    let dy = q.y as i128 - py;
    let (enter_x, leave_x) = slab_params(px, dx, rect[0].x as i128, rect[1].x as i128);
    let (enter_y, leave_y) = slab_params(py, dy, rect[0].y as i128, rect[1].y as i128);
    let start = later_of(enter_x, enter_y);
    let end = earlier_of(leave_x, leave_y);
    if !frac_at_most(start, end) {
        return None;
    }
    proof {
        lemma_extend_sound(segment, rect);
    }
    Some([point_at(segment, start, rect), point_at(segment, end, rect)])
}

} // verus!
