//! A no-fit-polygon (NFP) library for irregular nesting, over fixed-point
//! integer coordinates.
//!
//! The NFP of a stationary and an orbiting polygon is the set of translations
//! at which the orbiting polygon touches but does not overlap the stationary
//! one; it is the primitive from which irregular bin packing is built.
//! Coordinates are `i64` values on a fixed grid of `SCALE` steps per world
//! unit, with a single tolerance `EPS` in grid steps. At `SCALE` of a
//! million, `EPS` is five hundredths of a thousandth of a world unit:
//! coarser than the billionth a floating-point kernel would use, and as
//! fine as the grid can distinguish.

pub mod bounding_box;
pub mod multi_polygon;
pub mod nfp;
pub mod no_fit_polygon;
pub mod problem;
pub mod num;
pub mod point;
pub mod polygon;
pub mod raster;
pub mod segment;

use vstd::prelude::*;

verus! {

/// Grid steps per world unit: a coordinate of `SCALE` is one world unit.
pub const SCALE: i64 = 1000000;

/// Tolerance, in grid steps, for the coincidence tests of the geometry.
pub const EPS: i64 = 50;

/// Resolution of normalized direction vectors: a unit direction has
/// magnitude close to `UNIT`.
pub const UNIT: i64 = 536870912;

/// Largest magnitude allowed for a local vertex coordinate.
pub const VERT_MAX: i64 = 536870912;

/// Largest number of vertices a polygon may have.
pub const N_MAX: usize = 1000000;

/// Largest magnitude allowed for a polygon offset coordinate.
pub const OFFSET_MAX: i64 = 2147483656;

/// Largest magnitude of any working coordinate the primitives accept
/// (a transformed vertex is bounded by `VERT_MAX` rotated plus `OFFSET_MAX`).
pub const COORD_LIMIT: i64 = 3221225488;

/// Largest distance value the distance primitives report; farther
/// interactions count as none at all.
pub const DIST_LIMIT: i64 = 12884901952;

/// Tolerance on dot and cross products of two `UNIT`-scaled directions,
/// for the tests that two directions are parallel or perpendicular:
/// about a sixteen-thousandth of a radian, wide enough to absorb the
/// direction error of rotation-quantized vertices and far below any
/// genuine corner.
pub const DIR_EPS: i64 = 17592186044416;

/// Largest magnitude accepted for the components of a raw direction
/// vector, wider than `COORD_LIMIT` so that edge differences qualify.
pub const WIDE_LIMIT: i64 = 51539607808;

} // verus!
