//! Scalar helpers shared by the geometry routines.
use vstd::prelude::*;

verus! {

/// The value `v` restricted to the closed range `[lo, hi]`.
pub open spec fn clamp_int(v: int, lo: int, hi: int) -> int {
    if v < lo {
        lo
    } else if v > hi {
        hi
    } else {
        v
    }
}

/// Whether `v` lies in the closed range `[lo, hi]`.
pub open spec fn in_range(v: int, lo: int, hi: int) -> bool {
    lo <= v && v <= hi
}

/// Returns whether `a` and `b` are both strictly positive or both strictly
/// negative. Zero has no sign here: it matches neither.
pub fn same_sign(a: i128, b: i128) -> (r: bool)
    ensures
        r == ((a > 0 && b > 0) || (a < 0 && b < 0)),
{
    (a > 0 && b > 0) || (a < 0 && b < 0)
}

/// Returns the given value clamped between the provided bounds.
pub fn clamped(value: i32, lower_bound: i32, upper_bound: i32) -> (r: i32)
    requires
        lower_bound <= upper_bound,
    ensures
        r == clamp_int(value as int, lower_bound as int, upper_bound as int),
{
    if value < lower_bound {
        lower_bound
    } else if value > upper_bound {
        upper_bound
    } else {
        value
    }
}

/// Returns the two values in ascending order.
pub fn ordered(a: i32, b: i32) -> (r: (i32, i32))
    ensures
        r.0 <= r.1,
        r == (if a <= b { (a, b) } else { (b, a) }),
{
    if a <= b {
        (a, b)
    } else {
        (b, a)
    }
}

/// Returns the given value pair clamped between the provided bounds if
/// either value lies between them, or `None` otherwise.
pub fn clipped(values: (i32, i32), lower_bound: i32, upper_bound: i32) -> (r: Option<(i32, i32)>)
    requires
        lower_bound <= upper_bound,
    ensures
        r is Some <==> (in_range(values.0 as int, lower_bound as int, upper_bound as int)
            || in_range(values.1 as int, lower_bound as int, upper_bound as int)),
        r is Some ==> r == Some(
            (
                clamp_int(values.0 as int, lower_bound as int, upper_bound as int) as i32,
                clamp_int(values.1 as int, lower_bound as int, upper_bound as int) as i32,
            ),
        ),
{
    if (values.0 >= lower_bound && values.0 <= upper_bound) || (values.1 >= lower_bound
        && values.1 <= upper_bound) {
        Some(
            (clamped(values.0, lower_bound, upper_bound), clamped(values.1, lower_bound, upper_bound)),
        )
    } else {
        None
    }
}

/// Returns the distance between the given values.
pub fn distance(a: i32, b: i32) -> (r: u32)
    ensures
        r as int == if a > b { a - b } else { b - a },
{
    if a > b {
        (a as i64 - b as i64) as u32
    } else {
        (b as i64 - a as i64) as u32
    }
}

/// A container of zero, one or two values.
#[derive(Clone, Copy, Debug, PartialEq, Eq, Hash)]
pub enum Split<T> {
    /// No value present.
    Zero,
    /// One value present.
    One(T),
    /// Two values present.
    Two(T, T),
}

impl<T> Split<T> {
    /// The values held, in order.
    pub open spec fn values(&self) -> Seq<T> {
        match self {
            Split::Zero => seq![],
            Split::One(v) => seq![*v],
            Split::Two(a, b) => seq![*a, *b],
        }
    }

    /// Returns the number of values held.
    pub fn len(&self) -> (r: usize)
        ensures
            r == self.values().len(),
    {
        match self {
            Split::Zero => 0,
            Split::One(_) => 1,
            Split::Two(_, _) => 2,
        }
    }

    /// Removes and returns the first value held, or `None` when empty.
    pub fn next(&mut self) -> (r: Option<T>)
        ensures
            old(self).values().len() == 0 ==> r is None && final(self).values().len() == 0,
            old(self).values().len() > 0 ==> r == Some(old(self).values()[0])
                && final(self).values() == old(self).values().drop_first(),
    {
        let mut cur = Split::Zero;
        core::mem::swap(self, &mut cur);
        match cur {
            Split::Zero => None,
            Split::One(v) => Some(v),
            Split::Two(a, b) => {
                *self = Split::One(b);
                Some(a)
            },
        }
    }
}

impl<T> Default for Split<T> {
    fn default() -> (r: Self)
        ensures
            r.values().len() == 0,
    {
        Split::Zero
    }
}

impl<T> From<T> for Split<T> {
    fn from(value: T) -> (r: Self) {
        Split::One(value)
    }
}

impl<T> vstd::std_specs::convert::FromSpecImpl<T> for Split<T> {
    open spec fn obeys_from_spec() -> bool {
        true
    }

    open spec fn from_spec(value: T) -> Split<T> {
        Split::One(value)
    }
}

impl<T> From<(T, T)> for Split<T> {
    fn from(value: (T, T)) -> (r: Self) {
        Split::Two(value.0, value.1)
    }
}

impl<T> vstd::std_specs::convert::FromSpecImpl<(T, T)> for Split<T> {
    open spec fn obeys_from_spec() -> bool {
        true
    }

    open spec fn from_spec(value: (T, T)) -> Split<T> {
        Split::Two(value.0, value.1)
    }
}

} // verus!
