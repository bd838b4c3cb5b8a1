//! Points and direction vectors on the fixed coordinate grid.
//!
//! A `Point2D` doubles as a coordinate and as a displacement, as callers
//! choose. Approximate equality means coordinatewise distance at most `EPS`
//! grid steps.

use vstd::prelude::*;

use crate::num::{
    abs_i, cross2, div_round, div_round_i128, dot2, isqrt_u128, lemma_abs_mul,
    lemma_div_round_bound, lemma_dot_cross_bound, lemma_sqrt_floor, max_i, min_i, mul_i64,
    sqrt_floor,
};
use crate::segment::{seg_in_range, Segment};
use crate::{COORD_LIMIT, DIST_LIMIT, EPS, SCALE, UNIT, WIDE_LIMIT};

verus! {

/// A point (or displacement) on the fixed grid.
#[derive(Clone, Copy, Debug, PartialEq, Eq, Structural)]
pub struct Point2D {
    pub x: i64,
    pub y: i64,
}

/// A rotation, stored as a direction: `cos` and `sin` scaled by `UNIT`.
#[derive(Clone, Copy, Debug, PartialEq, Eq, Structural)]
pub struct Rotation {
    pub cos: i64,
    pub sin: i64,
}

/// Both coordinates within the working range of the primitives.
pub open spec fn pt_in_range(p: Point2D) -> bool {
    abs_i(p.x as int) <= COORD_LIMIT && abs_i(p.y as int) <= COORD_LIMIT
}

/// Both coordinates within the wider range accepted for raw directions.
pub open spec fn pt_in_wide(p: Point2D) -> bool {
    abs_i(p.x as int) <= WIDE_LIMIT && abs_i(p.y as int) <= WIDE_LIMIT
}

/// Scalar approximate equality: within `EPS` grid steps.
pub open spec fn close(a: int, b: int) -> bool {
    abs_i(a - b) <= EPS
}

/// Point approximate equality, coordinatewise.
pub open spec fn pt_close(p: Point2D, q: Point2D) -> bool {
    close(p.x as int, q.x as int) && close(p.y as int, q.y as int)
}

/// Squared magnitude of a point taken as a vector.
pub open spec fn norm2(p: Point2D) -> int {
    (p.x as int) * (p.x as int) + (p.y as int) * (p.y as int)
}

/// The x component of `p` normalized to magnitude `UNIT`.
pub open spec fn unit_sx(p: Point2D) -> int
    recommends
        norm2(p) > 0,
{
    div_round(p.x as int * UNIT, sqrt_floor(norm2(p)))
}

/// The y component of `p` normalized to magnitude `UNIT`.
pub open spec fn unit_sy(p: Point2D) -> int
    recommends
        norm2(p) > 0,
{
    div_round(p.y as int * UNIT, sqrt_floor(norm2(p)))
}

/// A rotation is well formed when both components are bounded by `UNIT`.
pub open spec fn rot_wf(r: Rotation) -> bool {
    abs_i(r.cos as int) <= UNIT && abs_i(r.sin as int) <= UNIT
}

/// The x coordinate of `p` rotated by `r`, rounded to the grid.
pub open spec fn rot_x(p: Point2D, r: Rotation) -> int {
    div_round(p.x as int * r.cos - p.y as int * r.sin, UNIT as int)
}

/// The y coordinate of `p` rotated by `r`, rounded to the grid.
pub open spec fn rot_y(p: Point2D, r: Rotation) -> int {
    div_round(p.x as int * r.sin + p.y as int * r.cos, UNIT as int)
}

impl Rotation {
    /// The identity rotation.
    pub fn identity() -> (r: Rotation)
        ensures
            r.cos == UNIT,
            r.sin == 0,
            rot_wf(r),
    {
        Rotation { cos: UNIT, sin: 0 }
    }

    /// A rotation from its direction components, each scaled by `UNIT`.
    pub fn new(cos: i64, sin: i64) -> (r: Rotation)
        requires
            abs_i(cos as int) <= UNIT,
            abs_i(sin as int) <= UNIT,
        ensures
            r.cos == cos,
            r.sin == sin,
            rot_wf(r),
    {
        Rotation { cos, sin }
    }

    /// Whether this is the identity rotation.
    pub fn is_identity(&self) -> (b: bool)
        ensures
            b == (self.cos == UNIT && self.sin == 0),
    {
        self.cos == UNIT && self.sin == 0
    }
}

impl Point2D {
    /// A point from its coordinates.
    pub fn from_xy(x: i64, y: i64) -> (p: Point2D)
        ensures
            p.x == x,
            p.y == y,
    {
        Point2D { x, y }
    }

    /// The origin.
    pub fn zero() -> (p: Point2D)
        ensures
            p.x == 0,
            p.y == 0,
    {
        Point2D { x: 0, y: 0 }
    }

    /// The x coordinate.
    pub fn x(&self) -> (r: i64)
        ensures
            r == self.x,
    {
        self.x
    }

    /// The y coordinate.
    pub fn y(&self) -> (r: i64)
        ensures
            r == self.y,
    {
        self.y
    }

    /// Replaces the x coordinate.
    pub fn set_x(&mut self, x: i64)
        ensures
            final(self).x == x,
            final(self).y == old(self).y,
    {
        self.x = x;
    }

    /// Replaces the y coordinate.
    pub fn set_y(&mut self, y: i64)
        ensures
            final(self).x == old(self).x,
            final(self).y == y,
    {
        self.y = y;
    }

    /// Whether both coordinates are zero.
    pub fn is_zero(&self) -> (b: bool)
        ensures
            b == (self.x == 0 && self.y == 0),
    {
        self.x == 0 && self.y == 0
    }

    /// The componentwise sum, as a new point.
    pub fn translate(&self, other: &Point2D) -> (r: Point2D)
        requires
            pt_in_range(*self),
            pt_in_range(*other),
        ensures
            r.x == self.x + other.x,
            r.y == self.y + other.y,
    {
        Point2D { x: self.x + other.x, y: self.y + other.y }
    }

    /// The componentwise difference, as a new point.
    pub fn minus(&self, other: &Point2D) -> (r: Point2D)
        requires
            pt_in_range(*self),
            pt_in_range(*other),
        ensures
            r.x == self.x - other.x,
            r.y == self.y - other.y,
    {
        Point2D { x: self.x - other.x, y: self.y - other.y }
    }

    /// The componentwise negation.
    pub fn negated(&self) -> (r: Point2D)
        requires
            pt_in_wide(*self),
        ensures
            r.x == -self.x,
            r.y == -self.y,
    {
        Point2D { x: -self.x, y: -self.y }
    }

    /// Approximate equality: both coordinates within `EPS` grid steps.
    pub fn close_to(&self, other: &Point2D) -> (b: bool)
        requires
            pt_in_range(*self),
            pt_in_range(*other),
        ensures
            b == pt_close(*self, *other),
    {
        let dx: i64 = self.x - other.x;
        let dy: i64 = self.y - other.y;
        let adx: i64 = if dx < 0 {
            -dx
        } else {
            dx
        };
        let ady: i64 = if dy < 0 {
            -dy
        } else {
            dy
        };
        adx <= EPS && ady <= EPS
    }

    /// The dot product, exact.
    pub fn dot(&self, other: &Point2D) -> (r: i128)
        requires
            pt_in_range(*self),
            pt_in_range(*other),
        ensures
            r == self.x * other.x + self.y * other.y,
    {
        dot2(self.x, self.y, other.x, other.y)
    }

    /// The cross product `self.x * other.y - self.y * other.x`, exact.
    pub fn cross(&self, other: &Point2D) -> (r: i128)
        requires
            pt_in_range(*self),
            pt_in_range(*other),
        ensures
            r == self.x * other.y - self.y * other.x,
    {
        cross2(self.x, self.y, other.x, other.y)
    }

    /// Whether this point is strictly within `distance` of `other`
    /// (by squared euclidean distance, exact).
    pub fn within_distance(&self, other: &Point2D, distance: i64) -> (b: bool)
        requires
            pt_in_range(*self),
            pt_in_range(*other),
        ensures
            b == ((self.x - other.x) * (self.x - other.x) + (self.y - other.y) * (self.y - other.y)
                < distance * distance),
    {
        let dx: i64 = self.x - other.x;
        let dy: i64 = self.y - other.y;
        let d2: i128 = dot2(dx, dy, dx, dy);
        let dist2: i128 = mul_i64(distance, distance);
        d2 < dist2
    }

    /// Rotates the point about the origin, rounding to the grid.
    pub fn rotate(&self, rot: &Rotation) -> (r: Point2D)
        requires
            pt_in_range(*self),
            rot_wf(*rot),
        ensures
            r.x == rot_x(*self, *rot),
            r.y == rot_y(*self, *rot),
            abs_i(r.x as int) <= abs_i(self.x as int) + abs_i(self.y as int) + 1,
            abs_i(r.y as int) <= abs_i(self.x as int) + abs_i(self.y as int) + 1,
    {
        let nx: i128 = cross2(self.x, self.y, rot.sin, rot.cos);
        let ny: i128 = dot2(self.x, self.y, rot.sin, rot.cos);
        proof {
            let m = abs_i(self.x as int) + abs_i(self.y as int) + 1;
            lemma_rot_parts(self.x as int, self.y as int, rot.cos as int, rot.sin as int, m);
            lemma_div_round_bound(nx as int, UNIT as int, m);
            lemma_div_round_bound(ny as int, UNIT as int, m);
        }
        let rx: i128 = div_round_i128(nx, UNIT as i128);
        let ry: i128 = div_round_i128(ny, UNIT as i128);
        Point2D { x: rx as i64, y: ry as i64 }
    }

    /// The direction of this vector at resolution `UNIT`, or `None` for the
    /// zero vector. The result's components are bounded by `UNIT`.
    pub fn unit_dir(&self) -> (r: Option<(i64, i64)>)
        requires
            pt_in_wide(*self),
        ensures
            r is Some <==> norm2(*self) > 0,
            r matches Some(u) ==> u.0 == unit_sx(*self) && u.1 == unit_sy(*self),
            r matches Some(u) ==> abs_i(u.0 as int) <= UNIT && abs_i(u.1 as int) <= UNIT,
    {
        let n2: i128 = dot2(self.x, self.y, self.x, self.y);
        proof {
            assert(n2 >= 0 && (self.x as int) * (self.x as int) <= n2 && (self.y as int) * (self.y
                as int) <= n2) by (nonlinear_arith)
                requires
                    n2 == (self.x as int) * (self.x as int) + (self.y as int) * (self.y as int),
            ;
        }
        if n2 == 0 {
            proof {
                assert(self.x == 0 && self.y == 0) by (nonlinear_arith)
                    requires
                        (self.x as int) * (self.x as int) + (self.y as int) * (self.y as int) == 0,
                ;
            }
            return None;
        }
        let root: u128 = isqrt_u128(n2 as u128);
        proof {
            lemma_sqrt_floor(n2 as int);
            if root == 0 {
                assert((root + 1) as int * (root + 1) as int == 1) by (nonlinear_arith)
                    requires
                        root == 0,
                ;
            }
            assert(root >= 1);
            assert(abs_i(self.x as int) <= root && abs_i(self.y as int) <= root)
                by (nonlinear_arith)
                requires
                    (self.x as int) * (self.x as int) <= n2,
                    (self.y as int) * (self.y as int) <= n2,
                    n2 < (root + 1) * (root + 1),
                    root >= 0,
            ;
            lemma_abs_mul_unit(self.x as int, root as int);
            lemma_abs_mul_unit(self.y as int, root as int);
            lemma_abs_mul(self.x as int, UNIT as int, WIDE_LIMIT as int, UNIT as int);
            lemma_abs_mul(self.y as int, UNIT as int, WIDE_LIMIT as int, UNIT as int);
        }
        let ux: i128 = div_round_i128(mul_i64(self.x, UNIT), root as i128);
        let uy: i128 = div_round_i128(mul_i64(self.y, UNIT), root as i128);
        proof {
            lemma_div_round_bound(self.x as int * UNIT, root as int, UNIT as int);
            lemma_div_round_bound(self.y as int * UNIT, root as int, UNIT as int);
        }
        Some((ux as i64, uy as i64))
    }

    /// The vector scaled to magnitude `SCALE` (one world unit), or `None`
    /// for the zero vector. A vector already of unit length is rescaled
    /// like any other, so each component lands within one grid step of
    /// itself rather than being returned unchanged.
    pub fn normalized(&self) -> (r: Option<Point2D>)
        requires
            pt_in_wide(*self),
        ensures
            r is Some <==> norm2(*self) > 0,
            r matches Some(u) ==> u.x == div_round(self.x as int * SCALE, sqrt_floor(norm2(*self)))
                && u.y == div_round(self.y as int * SCALE, sqrt_floor(norm2(*self))),
            r matches Some(u) ==> abs_i(u.x as int) <= SCALE && abs_i(u.y as int) <= SCALE,
    {
        let n2: i128 = dot2(self.x, self.y, self.x, self.y);
        proof {
            assert(n2 >= 0 && (self.x as int) * (self.x as int) <= n2 && (self.y as int) * (self.y
                as int) <= n2) by (nonlinear_arith)
                requires
                    n2 == (self.x as int) * (self.x as int) + (self.y as int) * (self.y as int),
            ;
        }
        if n2 == 0 {
            proof {
                assert(self.x == 0 && self.y == 0) by (nonlinear_arith)
                    requires
                        (self.x as int) * (self.x as int) + (self.y as int) * (self.y as int) == 0,
                ;
            }
            return None;
        }
        let root: u128 = isqrt_u128(n2 as u128);
        proof {
            lemma_sqrt_floor(n2 as int);
            if root == 0 {
                assert((root + 1) as int * (root + 1) as int == 1) by (nonlinear_arith)
                    requires
                        root == 0,
                ;
            }
            assert(root >= 1);
            assert(abs_i(self.x as int) <= root && abs_i(self.y as int) <= root)
                by (nonlinear_arith)
                requires
                    (self.x as int) * (self.x as int) <= n2,
                    (self.y as int) * (self.y as int) <= n2,
                    n2 < (root + 1) * (root + 1),
                    root >= 0,
            ;
            lemma_abs_mul_scale(self.x as int, root as int);
            lemma_abs_mul_scale(self.y as int, root as int);
            lemma_abs_mul(self.x as int, SCALE as int, WIDE_LIMIT as int, SCALE as int);
            lemma_abs_mul(self.y as int, SCALE as int, WIDE_LIMIT as int, SCALE as int);
        }
        let ux: i128 = div_round_i128(mul_i64(self.x, SCALE), root as i128);
        let uy: i128 = div_round_i128(mul_i64(self.y, SCALE), root as i128);
        proof {
            lemma_div_round_bound(self.x as int * SCALE, root as int, SCALE as int);
            lemma_div_round_bound(self.y as int * SCALE, root as int, SCALE as int);
        }
        Some(Point2D { x: ux as i64, y: uy as i64 })
    }
}

/// Whether `p` lies strictly between the endpoints of the segment `a` to
/// `b`, endpoints excluded: the decision follows the axis-aligned special
/// cases, then a bounding-box test, then a cross-product collinearity test
/// with a dot-product range test, all with tolerance `EPS`.
pub open spec fn spec_on_segment(p: Point2D, a: Point2D, b: Point2D) -> bool {
    if close(a.x as int, b.x as int) && close(p.x as int, a.x as int) {
        !close(p.y as int, b.y as int) && !close(p.y as int, a.y as int) && (p.y as int) < max_i(
            a.y as int,
            b.y as int,
        ) && (p.y as int) > min_i(a.y as int, b.y as int)
    } else if close(a.y as int, b.y as int) && close(p.y as int, a.y as int) {
        !close(p.x as int, b.x as int) && !close(p.x as int, a.x as int) && (p.x as int) < max_i(
            a.x as int,
            b.x as int,
        ) && (p.x as int) > min_i(a.x as int, b.x as int)
    } else if (p.x as int) < min_i(a.x as int, b.x as int) || (p.x as int) > max_i(
        a.x as int,
        b.x as int,
    ) || (p.y as int) < min_i(a.y as int, b.y as int) || (p.y as int) > max_i(
        a.y as int,
        b.y as int,
    ) {
        false
    } else if pt_close(p, a) || pt_close(p, b) {
        false
    } else {
        let crossv = (p.y - a.y) * (b.x - a.x) - (p.x - a.x) * (b.y - a.y);
        let len2 = (b.x - a.x) * (b.x - a.x) + (b.y - a.y) * (b.y - a.y);
        let sl = sqrt_floor(len2);
        let ddv = (p.x - a.x) * (b.x - a.x) + (p.y - a.y) * (b.y - a.y);
        abs_i(crossv) <= EPS * sl && EPS * sl < ddv && ddv < len2 - EPS * sl
    }
}

/// Dot product of the difference `p - q` with a direction `(ux, uy)`.
pub open spec fn dd_s(p: Point2D, q: Point2D, ux: int, uy: int) -> int {
    (p.x - q.x) * ux + (p.y - q.y) * uy
}

/// Signed distance from `p` to the segment `s1` to `s2`, measured along the
/// direction `n`; negative means `p` is behind the segment. `None` when the
/// direction is zero, when the perpendicular projection of `p` falls outside
/// the segment's span and `infinite` is not set, when the segment has no
/// span along the sweep axis, or when the distance is beyond `DIST_LIMIT`.
pub open spec fn spec_distance_to_segment(
    p: Point2D,
    s1: Point2D,
    s2: Point2D,
    n: Point2D,
    infinite: bool,
) -> Option<int> {
    if norm2(n) == 0 {
        Option::None
    } else {
        let ux = unit_sx(n);
        let uy = unit_sy(n);
        let dx = uy;
        let dy = -ux;
        let c1 = dd_s(p, s1, dx, dy);
        let c2 = dd_s(p, s2, dx, dy);
        let eu = (EPS as int) * (UNIT as int);
        if !infinite && ((c1 <= eu && c2 <= eu) || (c1 >= -eu && c2 >= -eu)) {
            Option::None
        } else {
            let d_span = dd_s(s1, s2, dx, dy);
            if d_span == 0 {
                Option::None
            } else {
                let a1 = dd_s(p, s1, ux, uy);
                let b_u = dd_s(s1, s2, ux, uy);
                let num = -(a1 * d_span - b_u * c1);
                let v = if d_span > 0 {
                    div_round(num, d_span * UNIT)
                } else {
                    div_round(-num, -d_span * UNIT)
                };
                if abs_i(v) > DIST_LIMIT {
                    Option::None
                } else {
                    Option::Some(v)
                }
            }
        }
    }
}

impl Point2D {
    /// Whether this point lies strictly between the endpoints of `segment`,
    /// endpoints excluded.
    pub fn on_segment(&self, segment: &Segment) -> (b: bool)
        requires
            pt_in_range(*self),
            seg_in_range(*segment),
        ensures
            b == spec_on_segment(*self, segment.start, segment.end),
    {
        let a = segment.start;
        let bp = segment.end;
        let p = *self;
        if close_c(a.x, bp.x) && close_c(p.x, a.x) {
            return !close_c(p.y, bp.y) && !close_c(p.y, a.y) && p.y < max_c(a.y, bp.y) && p.y
                > min_c(a.y, bp.y);
        }
        if close_c(a.y, bp.y) && close_c(p.y, a.y) {
            return !close_c(p.x, bp.x) && !close_c(p.x, a.x) && p.x < max_c(a.x, bp.x) && p.x
                > min_c(a.x, bp.x);
        }
        if p.x < min_c(a.x, bp.x) || p.x > max_c(a.x, bp.x) || p.y < min_c(a.y, bp.y) || p.y
            > max_c(a.y, bp.y) {
            return false;
        }
        if (close_c(p.x, a.x) && close_c(p.y, a.y)) || (close_c(p.x, bp.x) && close_c(p.y, bp.y)) {
            return false;
        }
        let dbx: i64 = bp.x - a.x;
        let dby: i64 = bp.y - a.y;
        let dax: i64 = p.x - a.x;
        let day: i64 = p.y - a.y;
        let crossv: i128 = cross2(day, dax, dby, dbx);
        let len2: i128 = dot2(dbx, dby, dbx, dby);
        proof {
            assert(len2 >= 0) by (nonlinear_arith)
                requires
                    len2 == (dbx as int) * (dbx as int) + (dby as int) * (dby as int),
            ;
            lemma_dot_cross_bound(
                day as int,
                dax as int,
                dby as int,
                dbx as int,
                2 * COORD_LIMIT,
                2 * COORD_LIMIT,
            );
        }
        let sl: u128 = isqrt_u128(len2 as u128);
        let esl: i128 = (EPS as i128) * (sl as i128);
        let acr: i128 = if crossv < 0 {
            -crossv
        } else {
            crossv
        };
        let ddv: i128 = dot2(dax, day, dbx, dby);
        acr <= esl && esl < ddv && ddv < len2 - esl
    }

    /// Signed distance from this point to `segment`, measured along
    /// `normal`; negative means the point is behind the segment. See
    /// [`spec_distance_to_segment`] for the exact cases that yield `None`.
    pub fn distance_to_segment(&self, segment: &Segment, normal: &Point2D, infinite: bool) -> (r:
        Option<i64>)
        requires
            pt_in_range(*self),
            seg_in_range(*segment),
            pt_in_wide(*normal),
        ensures
            r matches Some(v) ==> spec_distance_to_segment(
                *self,
                segment.start,
                segment.end,
                *normal,
                infinite,
            ) == Option::<int>::Some(v as int),
            r is None ==> spec_distance_to_segment(
                *self,
                segment.start,
                segment.end,
                *normal,
                infinite,
            ) is None,
            r matches Some(v) ==> abs_i(v as int) <= DIST_LIMIT,
    {
        let s1 = segment.start;
        let s2 = segment.end;
        let p = *self;
        proof {
            assert(norm2(*normal) >= 0) by (nonlinear_arith);
        }
        let u = match normal.unit_dir() {
            Some(u) => u,
            Option::None => {
                return Option::None;
            },
        };
        let (ux, uy) = u;
        let dx: i64 = uy;
        let dy: i64 = -ux;
        let c1: i128 = dot2(p.x - s1.x, p.y - s1.y, dx, dy);
        let c2: i128 = dot2(p.x - s2.x, p.y - s2.y, dx, dy);
        let eu: i128 = (EPS as i128) * (UNIT as i128);
        if !infinite && ((c1 <= eu && c2 <= eu) || (c1 >= -eu && c2 >= -eu)) {
            return Option::None;
        }
        let d_span: i128 = dot2(s1.x - s2.x, s1.y - s2.y, dx, dy);
        if d_span == 0 {
            return Option::None;
        }
        let a1: i128 = dot2(p.x - s1.x, p.y - s1.y, ux, uy);
        let b_u: i128 = dot2(s1.x - s2.x, s1.y - s2.y, ux, uy);
        proof {
            let ddm: int = 4 * (COORD_LIMIT as int) * (UNIT as int);
            lemma_dot_cross_bound(
                p.x - s1.x,
                p.y - s1.y,
                ux as int,
                uy as int,
                2 * COORD_LIMIT,
                UNIT as int,
            );
            lemma_dot_cross_bound(
                p.x - s1.x,
                p.y - s1.y,
                dx as int,
                dy as int,
                2 * COORD_LIMIT,
                UNIT as int,
            );
            lemma_dot_cross_bound(
                s1.x - s2.x,
                s1.y - s2.y,
                ux as int,
                uy as int,
                2 * COORD_LIMIT,
                UNIT as int,
            );
            lemma_dot_cross_bound(
                s1.x - s2.x,
                s1.y - s2.y,
                dx as int,
                dy as int,
                2 * COORD_LIMIT,
                UNIT as int,
            );
            assert(2 * (2 * (COORD_LIMIT as int)) * (UNIT as int) == 4 * (COORD_LIMIT as int) * (
            UNIT as int)) by (nonlinear_arith);
            lemma_abs_mul(a1 as int, d_span as int, ddm, ddm);
            lemma_abs_mul(b_u as int, c1 as int, ddm, ddm);
            assert(ddm * ddm + ddm * ddm < 0x8000_0000_0000_0000_0000_0000_0000_0000)
                by (nonlinear_arith)
                requires
                    ddm == 4 * (COORD_LIMIT as int) * (UNIT as int),
            ;
            lemma_abs_mul(d_span as int, UNIT as int, ddm, UNIT as int);
        }
        let num: i128 = -(a1 * d_span - b_u * c1);
        let v128: i128 = if d_span > 0 {
            div_round_i128(num, d_span * (UNIT as i128))
        } else {
            div_round_i128(-num, -d_span * (UNIT as i128))
        };
        if v128 > (DIST_LIMIT as i128) || v128 < -(DIST_LIMIT as i128) {
            return Option::None;
        }
        Some(v128 as i64)
    }
}

/// Scalar approximate equality, executable.
pub(crate) fn close_c(a: i64, b: i64) -> (r: bool)
    requires
        abs_i(a as int) <= COORD_LIMIT,
        abs_i(b as int) <= COORD_LIMIT,
    ensures
        r == close(a as int, b as int),
{
    let d: i64 = a - b;
    let ad: i64 = if d < 0 {
        -d
    } else {
        d
    };
    ad <= EPS
}

/// The smaller coordinate, executable.
pub(crate) fn min_c(a: i64, b: i64) -> (r: i64)
    ensures
        r == min_i(a as int, b as int),
{
    if a < b {
        a
    } else {
        b
    }
}

/// The larger coordinate, executable.
pub(crate) fn max_c(a: i64, b: i64) -> (r: i64)
    ensures
        r == max_i(a as int, b as int),
{
    if a < b {
        b
    } else {
        a
    }
}

/// A point is never strictly between the endpoints of a segment it
/// bounds: `spec_on_segment` excludes both endpoints, so a segment's own
/// ends never lie on it.
pub proof fn lemma_on_segment_excludes_endpoints(p: Point2D, q: Point2D)
    ensures
        !spec_on_segment(p, p, q),
        !spec_on_segment(q, p, q),
{
}

/// Bounds on the two components of a rotated point.
proof fn lemma_rot_parts(x: int, y: int, c: int, s: int, m: int)
    by (nonlinear_arith)
    requires
        abs_i(c) <= UNIT,
        abs_i(s) <= UNIT,
        m >= abs_i(x) + abs_i(y),
    ensures
        abs_i(x * c - y * s) <= m * UNIT,
        abs_i(x * s + y * c) <= m * UNIT,
{
}

/// `|a| <= r` implies `|a * UNIT| <= UNIT * r`.
proof fn lemma_abs_mul_unit(a: int, r: int)
    by (nonlinear_arith)
    requires
        abs_i(a) <= r,
    ensures
        abs_i(a * UNIT) <= UNIT * r,
{
}

/// `|a| <= r` implies `|a * SCALE| <= SCALE * r`.
proof fn lemma_abs_mul_scale(a: int, r: int)
    by (nonlinear_arith)
    requires
        abs_i(a) <= r,
    ensures
        abs_i(a * SCALE) <= SCALE * r,
{
}

} // verus!
