//! Exact integer geometry for clipping lines and segments against
//! axis-aligned rectangles.
//!
//! Every decision (which side of a line a point lies on, whether a crossing
//! falls inside a rectangle, whether two candidate points coincide) is taken
//! in exact integer arithmetic; only the coordinates handed back are rounded
//! to the nearest grid position.
//!
//! Rectangles are given by two corners, least coordinates first, and are
//! closed: a point on the boundary is inside. Equality is exact throughout.

pub mod canvas;
pub mod geometry;
pub mod line_intersect;
pub mod rect_intersect;
pub mod utilities;

pub use canvas::Canvas;
pub use geometry::Position;
pub use line_intersect::{line_intersect, line_segment_intersect, LineIntersect};
pub use rect_intersect::{extend_segment_to_rect, line_rect_intersect};
