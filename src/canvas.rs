//! A pixel buffer addressed by integer positions, and the cheap clamps that
//! line-drawing primitives use to keep a segment on it.
//!
//! The canvas covers the closed rectangle from `(0, 0)` to
//! `(stride - 1, rows - 1)`; both clamps use these closed bounds.
use vstd::prelude::*;
use crate::geometry::{Position, between, in_rect, interp, interpolate};
use crate::utilities::clamp_int;

verus! {

/// A row-major buffer of `rows` rows of `stride` pixels each.
pub struct Canvas {
    pub buffer: Vec<u32>,
    pub stride: usize,
    pub rows: usize,
}

/// The largest extent of a canvas side: positions on it must fit in `i32`.
pub const MAX_SIDE: usize = 0x7fff_ffff;

impl Canvas {
    /// Whether the buffer holds exactly `rows` rows of `stride` pixels, with
    /// at least one of each.
    pub open spec fn wf(&self) -> bool {
        &&& 1 <= self.stride <= MAX_SIDE
        &&& 1 <= self.rows <= MAX_SIDE
        &&& self.stride * self.rows <= usize::MAX
        &&& self.buffer@.len() == self.stride * self.rows
    }

    /// The closed rectangle the canvas covers.
    pub open spec fn bounds(&self) -> [Position; 2] {
        [Position { x: 0, y: 0 }, Position { x: (self.stride - 1) as i32, y: (self.rows - 1) as i32 }]
    }

    /// Whether `p` addresses a pixel of the canvas.
    pub open spec fn holds(&self, p: Position) -> bool {
        0 <= p.x < self.stride && 0 <= p.y < self.rows
    }

    /// The index in the buffer of the pixel at `p`.
    pub open spec fn index_of(&self, p: Position) -> int {
        p.y * self.stride + p.x
    }

    /// Returns a canvas of `stride` by `rows` pixels, all zero.
    pub fn new(stride: usize, rows: usize) -> (r: Canvas)
        requires
            1 <= stride <= MAX_SIDE,
            1 <= rows <= MAX_SIDE,
            stride * rows <= usize::MAX,
        ensures
            r.wf(),
            r.stride == stride,
            r.rows == rows,
            r.buffer@ == Seq::new((stride * rows) as nat, |i: int| 0u32),
    {
        let len = stride * rows;
        let mut buffer: Vec<u32> = Vec::new();
        let mut i: usize = 0;
        while i < len
            invariant
                i <= len,
                buffer@ == Seq::new(i as nat, |k: int| 0u32),
            decreases len - i,
        {
            buffer.push(0);
            i = i + 1;
        }
        Canvas { buffer, stride, rows }
    }

    /// Returns a square canvas of `stride` by `stride` pixels, all zero.
    pub fn square(stride: usize) -> (r: Canvas)
        requires
            1 <= stride <= MAX_SIDE,
            stride * stride <= usize::MAX,
        ensures
            r.wf(),
            r.stride == stride,
            r.rows == stride,
            r.buffer@ == Seq::new((stride * stride) as nat, |i: int| 0u32),
    {
        Canvas::new(stride, stride)
    }

    /// Returns the pixel at `pt`, or `None` if `pt` lies outside the canvas.
    pub fn pixel(&self, pt: Position) -> (r: Option<u32>)
        requires
            self.wf(),
        ensures
            r == if self.holds(pt) { Some(self.buffer@[self.index_of(pt)]) } else { None::<u32> },
    {
        if pt.x < 0 || pt.y < 0 || pt.x as usize >= self.stride || pt.y as usize >= self.rows {
            return None;
        }
        let i = self.index(pt);
        Some(self.buffer[i])
    }

    /// Sets the pixel at `pt` to `value`; returns whether `pt` lies on the
    /// canvas. A position outside leaves the canvas unchanged.
    pub fn set_pixel(&mut self, pt: Position, value: u32) -> (r: bool)
        requires
            old(self).wf(),
        ensures
            final(self).wf(),
            final(self).stride == old(self).stride,
            final(self).rows == old(self).rows,
            r == old(self).holds(pt),
            final(self).buffer@ == if r {
                old(self).buffer@.update(old(self).index_of(pt), value)
            } else {
                old(self).buffer@
            },
    {
        if pt.x < 0 || pt.y < 0 || pt.x as usize >= self.stride || pt.y as usize >= self.rows {
            return false;
        }
        let i = self.index(pt);
        self.buffer.set(i, value);
        true
    }

    fn index(&self, pt: Position) -> (r: usize)
        requires
            self.wf(),
            self.holds(pt),
        ensures
            r == self.index_of(pt),
            r < self.buffer@.len(),
    {
        let (x, y) = (pt.x as usize, pt.y as usize);
        proof {
            assert(y * self.stride + x < self.rows * self.stride) by (nonlinear_arith)
                requires
                    y < self.rows,
                    x < self.stride,
            ;
            assert(self.rows * self.stride == self.stride * self.rows) by (nonlinear_arith);
        }
        y * self.stride + x
    }

    /// Returns the (inclusive) left boundary coordinate of the canvas.
    pub fn left(&self) -> (r: i32)
        ensures
            r == 0,
    {
        0
    }

    /// Returns the (inclusive) top boundary coordinate of the canvas.
    pub fn top(&self) -> (r: i32)
        ensures
            r == 0,
    {
        0
    }

    /// Returns the (inclusive) right boundary coordinate of the canvas.
    pub fn right(&self) -> (r: i32)
        requires
            self.wf(),
        ensures
            r == self.stride - 1,
    {
        (self.stride - 1) as i32
    }

    /// Returns the (inclusive) bottom boundary coordinate of the canvas.
    pub fn bottom(&self) -> (r: i32)
        requires
            self.wf(),
        ensures
            r == self.rows - 1,
    {
        (self.rows - 1) as i32
    }

    /// Returns the closed rectangle the canvas covers, as its least and
    /// greatest corners.
    pub fn bounding_rect(&self) -> (r: [Position; 2])
        requires
            self.wf(),
        ensures
            r == self.bounds(),
    {
        [Position { x: 0, y: 0 }, Position { x: self.right(), y: self.bottom() }]
    }
}

/// Whether both endpoints lie beyond the same side of the rectangle, so
/// that the segment's bounding box misses it.
pub open spec fn beyond_one_side(s: [Position; 2], rect: [Position; 2]) -> bool {
    ||| (s[0].x < rect[0].x && s[1].x < rect[0].x)
    ||| (s[0].x > rect[1].x && s[1].x > rect[1].x)
    ||| (s[0].y < rect[0].y && s[1].y < rect[0].y)
    ||| (s[0].y > rect[1].y && s[1].y > rect[1].y)
}

/// `p` with each coordinate clamped into the rectangle's range.
pub open spec fn clamp_point(p: Position, rect: [Position; 2]) -> Position {
    Position {
        x: clamp_int(p.x as int, rect[0].x as int, rect[1].x as int) as i32,
        y: clamp_int(p.y as int, rect[0].y as int, rect[1].y as int) as i32,
    }
}

/// Each endpoint clamped into the rectangle on its own; `None` when the
/// segment's bounding box misses the rectangle.
pub open spec fn box_clamped(s: [Position; 2], rect: [Position; 2]) -> Option<[Position; 2]> {
    if beyond_one_side(s, rect) {
        None
    } else {
        Some([clamp_point(s[0], rect), clamp_point(s[1], rect)])
    }
}

/// `p` moved to x-coordinate `x`, its y-coordinate taken from the line
/// through `a` and `b`.
pub open spec fn at_x(a: Position, b: Position, x: int) -> Position {
    Position { x: x as i32, y: interp(a.x as int, b.x as int, a.y as int, b.y as int, x) as i32 }
}

/// `p` moved to y-coordinate `y`, its x-coordinate taken from the line
/// through `a` and `b` and kept within `[lo, hi]`.
pub open spec fn at_y(a: Position, b: Position, y: int, lo: int, hi: int) -> Position {
    Position {
        x: clamp_int(interp(a.y as int, b.y as int, a.x as int, b.x as int, y), lo, hi) as i32,
        y: y as i32,
    }
}

/// The segment clamped into the rectangle along its own line: ordered by x
/// and cut at the left and right bounds, then ordered by y and cut at the
/// top and bottom bounds. An axis-aligned segment is clamped along its axis
/// only. `None` when the segment lies beyond one side.
pub open spec fn linear_clamped(s: [Position; 2], rect: [Position; 2]) -> Option<[Position; 2]> {
    let a = if s[0].x > s[1].x { s[1] } else { s[0] };
    let b = if s[0].x > s[1].x { s[0] } else { s[1] };
    let (l, t, r, bt) = (rect[0].x as int, rect[0].y as int, rect[1].x as int, rect[1].y as int);
    if a.x == b.x {
        if a.x < l || a.x > r || (a.y < t && b.y < t) || (a.y > bt && b.y > bt) {
            None
        } else {
            Some(
                [
                    Position { x: a.x, y: clamp_int(a.y as int, t, bt) as i32 },
                    Position { x: b.x, y: clamp_int(b.y as int, t, bt) as i32 },
                ],
            )
        }
    } else if a.y == b.y {
        if a.y < t || a.y > bt || b.x < l || a.x > r {
            None
        } else {
            Some(
                [
                    Position { x: clamp_int(a.x as int, l, r) as i32, y: a.y },
                    Position { x: clamp_int(b.x as int, l, r) as i32, y: b.y },
                ],
            )
        }
    } else if b.x < l || a.x > r {
        None
    } else {
        let a1 = if a.x < l { at_x(a, b, l) } else { a };
        let b1 = if b.x > r { at_x(a, b, r) } else { b };
        let c = if a1.y > b1.y { b1 } else { a1 };
        let d = if a1.y > b1.y { a1 } else { b1 };
        if d.y < t || c.y > bt {
            None
        } else {
            Some(
                [
                    if c.y < t { at_y(a, b, t, l, r) } else { c },
                    if d.y > bt { at_y(a, b, bt, l, r) } else { d },
                ],
            )
        }
    }
}

impl Canvas {
    /// Clamps each endpoint of the segment into the canvas bounds on its
    /// own. This may change the segment's slope. Returns `None` when the
    /// segment's bounding box misses the canvas.
    pub fn box_clamp(&self, segment: [Position; 2]) -> (r: Option<[Position; 2]>)
        requires
            self.wf(),
        ensures
            r == box_clamped(segment, self.bounds()),
            r is Some ==> in_rect(r->0[0], self.bounds()) && in_rect(r->0[1], self.bounds()),
    {
        let (right, bottom) = (self.right(), self.bottom());
        let p = segment[0];
        let q = segment[1];
        if (p.x < 0 && q.x < 0) || (p.x > right && q.x > right) || (p.y < 0 && q.y < 0) || (p.y
            > bottom && q.y > bottom) {
            return None;
        }
        Some([p.clamp_x(0, right).clamp_y(0, bottom), q.clamp_x(0, right).clamp_y(0, bottom)])
    }

    /// Clamps the segment into the canvas bounds along its own line, so
    /// that its slope is kept up to rounding. Returns `None` when the
    /// segment lies beyond one side of the canvas.
    pub fn linear_clamp(&self, segment: [Position; 2]) -> (r: Option<[Position; 2]>)
        requires
            self.wf(),
        ensures
            r == linear_clamped(segment, self.bounds()),
            r is Some ==> in_rect(r->0[0], self.bounds()) && in_rect(r->0[1], self.bounds()),
    {
        let (right, bottom) = (self.right(), self.bottom());
        let pair = Position::x_ordered(segment);
        let a = pair[0];
        let b = pair[1];
        if a.x == b.x {
            if a.x < 0 || a.x > right || (a.y < 0 && b.y < 0) || (a.y > bottom && b.y > bottom) {
                return None;
            }
            return Some([a.clamp_y(0, bottom), b.clamp_y(0, bottom)]);
        }
        if a.y == b.y {
            if a.y < 0 || a.y > bottom || b.x < 0 || a.x > right {
                return None;
            }
            return Some([a.clamp_x(0, right), b.clamp_x(0, right)]);
        }
        if b.x < 0 || a.x > right {
            return None;
        }
        let a1 = if a.x < 0 {
            Position { x: 0, y: interpolate(a.x, b.x, a.y, b.y, 0) }
        } else {
            a
        };
        let b1 = if b.x > right {
            Position { x: right, y: interpolate(a.x, b.x, a.y, b.y, right) }
        } else {
            b
        };
        let pair = Position::y_ordered([a1, b1]);
        let c = pair[0];
        let d = pair[1];
        if d.y < 0 || c.y > bottom {
            return None;
        }
        let c1 = if c.y < 0 {
            Position { x: crate::utilities::clamped(interpolate(a.y, b.y, a.x, b.x, 0), 0, right), y: 0 }
        } else {
            c
        };
        let d1 = if d.y > bottom {
            Position {
                x: crate::utilities::clamped(interpolate(a.y, b.y, a.x, b.x, bottom), 0, right),
                y: bottom,
            }
        } else {
            d
        };
        Some([c1, d1])
    }
}

} // verus!
