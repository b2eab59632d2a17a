//! Integer positions and the exact rounding shared by the intersection
//! routines.
use vstd::prelude::*;

verus! {

/// A point in a 2-dimensional integer plane.
#[derive(Clone, Copy, Debug, PartialEq, Eq, Structural, Hash)]
pub struct Position {
    pub x: i32,
    pub y: i32,
}

impl Position {
    /// Returns a new `Position` with the given `x`, `y` coordinates.
    pub fn new(x: i32, y: i32) -> (r: Self)
        ensures
            r.x == x,
            r.y == y,
    {
        Position { x, y }
    }

    /// Returns a new `Position` with coordinates `(1, 1)`.
    pub fn one() -> (r: Self)
        ensures
            r.x == 1,
            r.y == 1,
    {
        Position { x: 1, y: 1 }
    }

    /// Returns the pair ordered by ascending x-coordinate; a pair already in
    /// order, or tied, comes back unchanged.
    pub fn x_ordered(pair: [Position; 2]) -> (r: [Position; 2])
        ensures
            r@ == if pair[0].x > pair[1].x { seq![pair[1], pair[0]] } else { pair@ },
    {
        if pair[0].x > pair[1].x {
            [pair[1], pair[0]]
        } else {
            pair
        }
    }

    /// Returns the pair ordered by ascending y-coordinate; a pair already in
    /// order, or tied, comes back unchanged.
    pub fn y_ordered(pair: [Position; 2]) -> (r: [Position; 2])
        ensures
            r@ == if pair[0].y > pair[1].y { seq![pair[1], pair[0]] } else { pair@ },
    {
        if pair[0].y > pair[1].y {
            [pair[1], pair[0]]
        } else {
            pair
        }
    }

    /// Returns this position with its x-coordinate clamped to `[lower, upper]`.
    pub fn clamp_x(self, lower: i32, upper: i32) -> (r: Position)
        requires
            lower <= upper,
        ensures
            r.x == crate::utilities::clamp_int(self.x as int, lower as int, upper as int),
            r.y == self.y,
    {
        Position { x: crate::utilities::clamped(self.x, lower, upper), y: self.y }
    }

    /// Returns this position with its y-coordinate clamped to `[lower, upper]`.
    pub fn clamp_y(self, lower: i32, upper: i32) -> (r: Position)
        requires
            lower <= upper,
        ensures
            r.x == self.x,
            r.y == crate::utilities::clamp_int(self.y as int, lower as int, upper as int),
    {
        Position { x: self.x, y: crate::utilities::clamped(self.y, lower, upper) }
    }

    /// Returns whether this position lies in the closed rectangle spanned by
    /// the corners `rect[0]` (least coordinates) and `rect[1]` (greatest).
    pub fn contained_in(self, rect: [Position; 2]) -> (r: bool)
        ensures
            r == in_rect(self, rect),
    {
        rect[0].x <= self.x && self.x <= rect[1].x && rect[0].y <= self.y && self.y <= rect[1].y
    }
}

impl Default for Position {
    fn default() -> (r: Self)
        ensures
            r.x == 0,
            r.y == 0,
    {
        Position { x: 0, y: 0 }
    }
}

/// Whether `v` fits in an `i32`.
pub open spec fn fits_i32(v: int) -> bool {
    i32::MIN <= v <= i32::MAX
}

impl core::ops::Add<Position> for Position {
    type Output = Position;

    fn add(self, other: Position) -> (r: Position) {
        Position { x: self.x + other.x, y: self.y + other.y }
    }
}

impl vstd::std_specs::ops::AddSpecImpl<Position> for Position {
    open spec fn obeys_add_spec() -> bool {
        true
    }

    open spec fn add_req(self, other: Position) -> bool {
        fits_i32(self.x + other.x) && fits_i32(self.y + other.y)
    }

    open spec fn add_spec(self, other: Position) -> Position {
        Position { x: (self.x + other.x) as i32, y: (self.y + other.y) as i32 }
    }
}

impl core::ops::Sub<Position> for Position {
    type Output = Position;

    fn sub(self, other: Position) -> (r: Position) {
        Position { x: self.x - other.x, y: self.y - other.y }
    }
}

impl vstd::std_specs::ops::SubSpecImpl<Position> for Position {
    open spec fn obeys_sub_spec() -> bool {
        true
    }

    open spec fn sub_req(self, other: Position) -> bool {
        fits_i32(self.x - other.x) && fits_i32(self.y - other.y)
    }

    open spec fn sub_spec(self, other: Position) -> Position {
        Position { x: (self.x - other.x) as i32, y: (self.y - other.y) as i32 }
    }
}

impl core::ops::Neg for Position {
    type Output = Position;

    fn neg(self) -> (r: Position) {
        Position { x: -self.x, y: -self.y }
    }
}

impl vstd::std_specs::ops::NegSpecImpl for Position {
    open spec fn obeys_neg_spec() -> bool {
        true
    }

    open spec fn neg_req(self) -> bool {
        self.x != i32::MIN && self.y != i32::MIN
    }

    open spec fn neg_spec(self) -> Position {
        Position { x: -self.x as i32, y: -self.y as i32 }
    }
}

impl From<(i32, i32)> for Position {
    fn from(pt: (i32, i32)) -> (r: Position) {
        Position { x: pt.0, y: pt.1 }
    }
}

impl vstd::std_specs::convert::FromSpecImpl<(i32, i32)> for Position {
    open spec fn obeys_from_spec() -> bool {
        true
    }

    open spec fn from_spec(pt: (i32, i32)) -> Position {
        Position { x: pt.0, y: pt.1 }
    }
}

impl From<Position> for (i32, i32) {
    fn from(pos: Position) -> (r: (i32, i32)) {
        (pos.x, pos.y)
    }
}

impl vstd::std_specs::convert::FromSpecImpl<Position> for (i32, i32) {
    open spec fn obeys_from_spec() -> bool {
        true
    }

    open spec fn from_spec(pos: Position) -> (i32, i32) {
        (pos.x, pos.y)
    }
}

/// Whether `p` lies in the closed rectangle with corners `rect[0]` (least
/// coordinates) and `rect[1]` (greatest).
pub open spec fn in_rect(p: Position, rect: [Position; 2]) -> bool {
    rect[0].x <= p.x <= rect[1].x && rect[0].y <= p.y <= rect[1].y
}

/// Whether the corners describe a rectangle: least coordinates first.
pub open spec fn rect_wf(rect: [Position; 2]) -> bool {
    rect[0].x <= rect[1].x && rect[0].y <= rect[1].y
}

/// Absolute value.
pub open spec fn abs(v: int) -> int {
    if v < 0 {
        -v
    } else {
        v
    }
}

/// The quotient `n / d` rounded to the nearest integer, halves away from
/// zero.
pub open spec fn round_div(n: int, d: int) -> int {
    let q = (abs(n) + abs(d) / 2) / abs(d);
    if (n < 0) != (d < 0) {
        -q
    } else {
        q
    }
}

/// The largest magnitude the rounding division takes on.
pub const ROUND_LIMIT: i128 = 0x1000_0000_0000_0000_0000_0000_0000_0000;

/// Returns `n / d` rounded to the nearest integer, halves away from zero.
pub fn rounded_div(n: i128, d: i128) -> (r: i128)
    requires
        d != 0,
        -ROUND_LIMIT <= n <= ROUND_LIMIT,
        -ROUND_LIMIT <= d <= ROUND_LIMIT,
    ensures
        r == round_div(n as int, d as int),
{
    let an: i128 = if n < 0 { -n } else { n };
    let ad: i128 = if d < 0 { -d } else { d };
    let q: i128 = (an + ad / 2) / ad;
    if (n < 0) != (d < 0) {
        -q
    } else {
        q
    }
}

/// Floor division bounds for a positive divisor.
pub proof fn lemma_div_bounds(x: int, d: int, k: int)
    requires
        d > 0,
    ensures
        x < (k + 1) * d ==> x / d <= k,
        x >= k * d ==> x / d >= k,
{
    vstd::arithmetic::div_mod::lemma_fundamental_div_mod(x, d);
    let q = x / d;
    let r = x % d;
    assert(0 <= r < d);
    if x < (k + 1) * d && q > k {
        assert(q * d >= (k + 1) * d) by (nonlinear_arith)
            requires
                q >= k + 1,
                d > 0,
        ;
        assert(x == d * q + r);
        assert(d * q == q * d) by (nonlinear_arith);
    }
    if x >= k * d && q < k {
        assert(q * d <= (k - 1) * d) by (nonlinear_arith)
            requires
                q <= k - 1,
                d > 0,
        ;
        assert(x == d * q + r);
        assert(d * q == q * d) by (nonlinear_arith);
        assert((k - 1) * d == k * d - d) by (nonlinear_arith);
    }
}

/// Rounding a quotient that lies in `[lo, hi]` gives an integer in
/// `[lo, hi]`.
pub proof fn lemma_round_div_in_range(n: int, d: int, lo: int, hi: int)
    requires
        d > 0,
        lo * d <= n <= hi * d,
    ensures
        lo <= round_div(n, d) <= hi,
{
    let h = d / 2;
    assert(0 <= h < d);
    if n >= 0 {
        assert(hi >= 0) by (nonlinear_arith)
            requires
                d > 0,
                0 <= n <= hi * d,
        ;
        assert(n + h < (hi + 1) * d) by (nonlinear_arith)
            requires
                n <= hi * d,
                h < d,
        ;
        lemma_div_bounds(n + h, d, hi);
        if lo > 0 {
            lemma_div_bounds(n + h, d, lo);
        } else {
            lemma_div_bounds(n + h, d, 0);
        }
    } else {
        assert(lo < 0) by (nonlinear_arith)
            requires
                d > 0,
                lo * d <= n < 0,
        ;
        assert(-n + h < (-lo + 1) * d) by (nonlinear_arith)
            requires
                lo * d <= n,
                h < d,
        ;
        lemma_div_bounds(-n + h, d, -lo);
        if hi < 0 {
            assert(-n >= (-hi) * d) by (nonlinear_arith)
                requires
                    n <= hi * d,
            ;
            lemma_div_bounds(-n + h, d, -hi);
        } else {
            lemma_div_bounds(-n + h, d, 0);
        }
    }
}

/// Rounding an exact quotient gives that quotient.
pub proof fn lemma_round_div_exact(k: int, d: int)
    requires
        d > 0,
    ensures
        round_div(k * d, d) == k,
{
    lemma_round_div_in_range(k * d, d, k, k);
}

/// Negating both operands leaves the rounded quotient unchanged.
pub proof fn lemma_round_div_neg(n: int, d: int)
    requires
        d != 0,
    ensures
        round_div(-n, -d) == round_div(n, d),
{
    if n == 0 {
        assert(abs(-n) == abs(n));
        assert((abs(d) / 2) / abs(d) == 0) by {
            lemma_div_bounds(abs(d) / 2, abs(d), 0);
        }
    }
}

/// A point a fraction `w / d` of the way from `p` to `q` lies between them.
pub proof fn lemma_partway(p: int, q: int, w: int, d: int)
    requires
        d > 0,
        0 <= w <= d,
    ensures
        (if p <= q { p } else { q }) * d <= p * d + (q - p) * w <= (if p <= q { q } else { p }) * d,
{
    assert((if p <= q { p } else { q }) * d <= p * d + (q - p) * w <= (if p <= q { q } else { p })
        * d) by (nonlinear_arith)
        requires
            d > 0,
            0 <= w <= d,
    ;
}

/// Whether `v` lies between `p` and `q`, inclusive, in either order.
pub open spec fn between(v: int, p: int, q: int) -> bool {
    (p <= v <= q) || (q <= v <= p)
}

/// The value at `v` of the line through `(p, pv)` and `(q, qv)`, rounded to
/// the nearest integer.
pub open spec fn interp(p: int, q: int, pv: int, qv: int, v: int) -> int {
    round_div(pv * (q - p) + (qv - pv) * (v - p), q - p)
}

/// Between `p` and `q` the interpolated value stays between `pv` and `qv`.
pub proof fn lemma_interp_between(p: int, q: int, pv: int, qv: int, v: int)
    requires
        p != q,
        between(v, p, q),
    ensures
        between(interp(p, q, pv, qv, v), pv, qv),
{
    let d = q - p;
    let n = pv * (q - p) + (qv - pv) * (v - p);
    let lo = if pv <= qv { pv } else { qv };
    let hi = if pv <= qv { qv } else { pv };
    if d > 0 {
        lemma_partway(pv, qv, v - p, d);
        lemma_round_div_in_range(n, d, lo, hi);
    } else {
        assert(-n == pv * (-d) + (qv - pv) * (p - v)) by (nonlinear_arith)
            requires
                n == pv * (q - p) + (qv - pv) * (v - p),
                d == q - p,
        ;
        lemma_partway(pv, qv, p - v, -d);
        lemma_round_div_in_range(-n, -d, lo, hi);
        lemma_round_div_neg(-n, -d);
    }
}

/// Returns the value at `v` of the line through `(p, pv)` and `(q, qv)`,
/// rounded to the nearest integer.
pub fn interpolate(p: i32, q: i32, pv: i32, qv: i32, v: i32) -> (r: i32)
    requires
        p != q,
        between(v as int, p as int, q as int),
    ensures
        r == interp(p as int, q as int, pv as int, qv as int, v as int),
        between(r as int, pv as int, qv as int),
{
    let d = q as i128 - p as i128;
    proof {
        lemma_interp_between(p as int, q as int, pv as int, qv as int, v as int);
        assert(-0x1_0000_0000_0000_0000 <= pv * d <= 0x1_0000_0000_0000_0000) by (nonlinear_arith)
            requires
                -0x8000_0000 <= pv <= 0x8000_0000,
                -0x1_0000_0000 <= d <= 0x1_0000_0000,
        ;
        assert(-0x1_0000_0000_0000_0000 <= (qv - pv) * (v - p) <= 0x1_0000_0000_0000_0000)
            by (nonlinear_arith)
            requires
                -0x1_0000_0000 <= qv - pv <= 0x1_0000_0000,
                -0x1_0000_0000 <= v - p <= 0x1_0000_0000,
        ;
    }
    let n = pv as i128 * d + (qv as i128 - pv as i128) * (v as i128 - p as i128);
    rounded_div(n, d) as i32
}

} // verus!
