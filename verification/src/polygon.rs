//! Polygons: a cyclic vertex list with a rigid-body transform.
//!
//! The vertex list is local; queries either ignore the transform (`local`)
//! or apply the rotation first and the offset second. Winding convention:
//! clockwise vertex order gives a positive signed area, and solid regions
//! are wound clockwise.

use vstd::prelude::*;

use crate::bounding_box::{bb_in_range, BoundingBox};
use crate::num::{abs_i, div_round, lemma_div_round_bound, lemma_rot_parts_pub, max_i, min_i};
use crate::point::{norm2, pt_close, pt_in_range, pt_in_wide, rot_wf, rot_x, rot_y,
    spec_distance_to_segment, spec_on_segment, unit_sx, unit_sy, Point2D, Rotation};
use crate::segment::{opt_as_int, spec_distance_along, spec_intersects_segment, Segment,
    SegmentSegmentIntersection, seg_in_range};
use crate::{COORD_LIMIT, DIST_LIMIT, EPS, N_MAX, OFFSET_MAX, UNIT, VERT_MAX};

verus! {

/// A polygon: local vertices (no closing repeat), an offset and a rotation.
#[derive(Clone, Debug)]
pub struct Polygon {
    pub vertices: Vec<Point2D>,
    pub offset: Point2D,
    pub rotation: Rotation,
}

/// Well-formed: bounded vertex count, local vertices within `VERT_MAX`,
/// offset within `OFFSET_MAX`, rotation components within `UNIT`.
pub open spec fn poly_wf(p: Polygon) -> bool {
    p.vertices.len() <= N_MAX && (forall|i: int|
        0 <= i < p.vertices.len() ==> abs_i(#[trigger] p.vertices[i].x as int) <= VERT_MAX
            && abs_i(p.vertices[i].y as int) <= VERT_MAX) && abs_i(p.offset.x as int) <= OFFSET_MAX
        && abs_i(p.offset.y as int) <= OFFSET_MAX && rot_wf(p.rotation)
}

/// The x coordinate of vertex `i` after rotation and translation.
pub open spec fn tvx(p: Polygon, i: int) -> int {
    rot_x(p.vertices[i], p.rotation) + p.offset.x
}

/// The y coordinate of vertex `i` after rotation and translation.
pub open spec fn tvy(p: Polygon, i: int) -> int {
    rot_y(p.vertices[i], p.rotation) + p.offset.y
}

/// Vertex `i` after rotation and translation.
pub open spec fn tv(p: Polygon, i: int) -> Point2D {
    Point2D { x: tvx(p, i) as i64, y: tvy(p, i) as i64 }
}

/// The index that follows `i` in the cyclic vertex order.
pub open spec fn wrap(p: Polygon, i: int) -> int {
    if i + 1 == p.vertices.len() {
        0int
    } else {
        i + 1
    }
}

/// The transformed edge from vertex `i` to the next vertex.
pub open spec fn tseg(p: Polygon, i: int) -> Segment {
    Segment { start: tv(p, i), end: tv(p, wrap(p, i)) }
}

/// The local edge from vertex `i` to the next vertex.
pub open spec fn lseg(p: Polygon, i: int) -> Segment {
    Segment { start: p.vertices[i], end: p.vertices[wrap(p, i)] }
}

/// A transformed vertex of a well-formed polygon stays in the working
/// range, and its coordinates are the untruncated sums.
pub proof fn lemma_tv(p: Polygon, i: int)
    requires
        poly_wf(p),
        0 <= i < p.vertices.len(),
    ensures
        tv(p, i).x == tvx(p, i),
        tv(p, i).y == tvy(p, i),
        pt_in_range(tv(p, i)),
        abs_i(tvx(p, i)) <= COORD_LIMIT,
        abs_i(tvy(p, i)) <= COORD_LIMIT,
{
    let v = p.vertices[i];
    lemma_rot_parts_pub(v.x as int, v.y as int, p.rotation.cos as int, p.rotation.sin as int);
    lemma_div_round_bound(
        v.x as int * p.rotation.cos - v.y as int * p.rotation.sin,
        crate::UNIT as int,
        abs_i(v.x as int) + abs_i(v.y as int),
    );
    lemma_div_round_bound(
        v.x as int * p.rotation.sin + v.y as int * p.rotation.cos,
        crate::UNIT as int,
        abs_i(v.x as int) + abs_i(v.y as int),
    );
}

/// Twice the signed area of the first `n` cyclic edges, by the shoelace sum.
pub open spec fn area2_partial(p: Polygon, n: int) -> int
    decreases n,
{
    if n <= 0 {
        0
    } else {
        area2_partial(p, n - 1) + (p.vertices[n - 1].x + p.vertices[wrap(p, n - 1)].x) * (p.vertices[
            n - 1].y - p.vertices[wrap(p, n - 1)].y)
    }
}

/// Twice the signed area of the polygon over its local vertices.
pub open spec fn area2(p: Polygon) -> int {
    area2_partial(p, p.vertices.len() as int)
}

/// The signed area: half the shoelace sum, rounded toward zero. Positive
/// for clockwise winding, negative for counter-clockwise.
pub open spec fn spec_area(p: Polygon) -> int {
    if area2(p) >= 0 {
        area2(p) / 2
    } else {
        -((-area2(p)) / 2)
    }
}

/// Each term of the shoelace sum is bounded.
proof fn lemma_area2_partial_bound(p: Polygon, n: int)
    requires
        poly_wf(p),
        0 <= n <= p.vertices.len(),
    ensures
        abs_i(area2_partial(p, n)) <= n * 8 * (VERT_MAX as int) * (VERT_MAX as int),
    decreases n,
{
    if n > 0 {
        lemma_area2_partial_bound(p, n - 1);
        let a = p.vertices[n - 1];
        let b = p.vertices[wrap(p, n - 1)];
        assert(abs_i((a.x + b.x) * (a.y - b.y)) <= 8 * (VERT_MAX as int) * (VERT_MAX as int)
            && (n - 1) * 8 * (VERT_MAX as int) * (VERT_MAX as int) + 8 * (VERT_MAX as int) * (
        VERT_MAX as int) == n * 8 * (VERT_MAX as int) * (VERT_MAX as int)) by (nonlinear_arith)
            requires
                abs_i(a.x as int) <= VERT_MAX,
                abs_i(a.y as int) <= VERT_MAX,
                abs_i(b.x as int) <= VERT_MAX,
                abs_i(b.y as int) <= VERT_MAX,
        ;
    }
}

impl Polygon {
    /// A polygon from local vertices, with no offset and no rotation, or
    /// `None` when a vertex is out of range or there are too many.
    pub fn from_vertices(vertices: Vec<Point2D>) -> (r: Option<Polygon>)
        ensures
            r is Some <==> (vertices.len() <= N_MAX && (forall|i: int|
                0 <= i < vertices.len() ==> abs_i(#[trigger] vertices[i].x as int) <= VERT_MAX
                    && abs_i(vertices[i].y as int) <= VERT_MAX)),
            r matches Some(p) ==> p.vertices == vertices && p.offset == (Point2D { x: 0, y: 0 })
                && p.rotation == (Rotation { cos: crate::UNIT, sin: 0 }) && poly_wf(p),
    {
        if vertices.len() > N_MAX as usize {
            return Option::None;
        }
        let n = vertices.len();
        let mut i: usize = 0;
        while i < n
            invariant
                0 <= i <= n,
                n == vertices.len(),
                forall|j: int|
                    0 <= j < i ==> abs_i(#[trigger] vertices[j].x as int) <= VERT_MAX && abs_i(
                        vertices[j].y as int,
                    ) <= VERT_MAX,
            decreases n - i,
        {
            let v = vertices[i];
            if v.x > VERT_MAX || v.x < -VERT_MAX || v.y > VERT_MAX || v.y < -VERT_MAX {
                return Option::None;
            }
            i = i + 1;
        }
        Some(
            Polygon {
                vertices,
                offset: Point2D { x: 0, y: 0 },
                rotation: Rotation { cos: crate::UNIT, sin: 0 },
            },
        )
    }

    /// The number of vertices.
    pub fn length(&self) -> (r: usize)
        ensures
            r == self.vertices.len(),
    {
        self.vertices.len()
    }

    /// The offset.
    pub fn offset(&self) -> (r: Point2D)
        ensures
            r == self.offset,
    {
        self.offset
    }

    /// Replaces the offset.
    pub fn set_offset(&mut self, offset: Point2D)
        requires
            abs_i(offset.x as int) <= OFFSET_MAX,
            abs_i(offset.y as int) <= OFFSET_MAX,
        ensures
            final(self).offset == offset,
            final(self).vertices == old(self).vertices,
            final(self).rotation == old(self).rotation,
            poly_wf(*old(self)) ==> poly_wf(*final(self)),
    {
        self.offset = offset;
    }

    /// The rotation.
    pub fn rotation(&self) -> (r: Rotation)
        ensures
            r == self.rotation,
    {
        self.rotation
    }

    /// Replaces the rotation.
    pub fn set_rotation(&mut self, rotation: Rotation)
        requires
            rot_wf(rotation),
        ensures
            final(self).rotation == rotation,
            final(self).vertices == old(self).vertices,
            final(self).offset == old(self).offset,
            poly_wf(*old(self)) ==> poly_wf(*final(self)),
    {
        self.rotation = rotation;
    }

    /// Local vertex `i`.
    pub fn local_vertex(&self, i: usize) -> (r: Point2D)
        requires
            i < self.vertices.len(),
        ensures
            r == self.vertices[i as int],
    {
        self.vertices[i]
    }

    /// Vertex `i` after rotation and translation.
    pub fn get_vertex(&self, i: usize) -> (r: Point2D)
        requires
            poly_wf(*self),
            i < self.vertices.len(),
        ensures
            r == tv(*self, i as int),
            pt_in_range(r),
    {
        proof {
            lemma_tv(*self, i as int);
        }
        let v = self.vertices[i];
        let rotated = v.rotate(&self.rotation);
        rotated.translate(&self.offset)
    }

    /// The transformed edge from vertex `i` to the next vertex.
    pub fn segment(&self, i: usize) -> (r: Segment)
        requires
            poly_wf(*self),
            i < self.vertices.len(),
        ensures
            r == tseg(*self, i as int),
            seg_in_range(r),
    {
        let j: usize = if i + 1 == self.vertices.len() {
            0
        } else {
            i + 1
        };
        Segment { start: self.get_vertex(i), end: self.get_vertex(j) }
    }

    /// The local edge from vertex `i` to the next vertex.
    pub fn segment_local(&self, i: usize) -> (r: Segment)
        requires
            i < self.vertices.len(),
        ensures
            r == lseg(*self, i as int),
    {
        let j: usize = if i + 1 == self.vertices.len() {
            0
        } else {
            i + 1
        };
        Segment { start: self.vertices[i], end: self.vertices[j] }
    }

    /// The transformed edge `i` with its two cyclic successors.
    pub fn poly_segments_3(&self, i: usize) -> (r: (Segment, Segment, Segment))
        requires
            poly_wf(*self),
            i < self.vertices.len(),
        ensures
            r.0 == tseg(*self, i as int),
            r.1 == tseg(*self, wrap(*self, i as int)),
            r.2 == tseg(*self, wrap(*self, wrap(*self, i as int))),
    {
        let j: usize = if i + 1 == self.vertices.len() {
            0
        } else {
            i + 1
        };
        let k: usize = if j + 1 == self.vertices.len() {
            0
        } else {
            j + 1
        };
        (self.segment(i), self.segment(j), self.segment(k))
    }

    /// Moves the polygon by `(dx, dy)`: only the offset changes, so the
    /// local vertices, the rotation, and the signed area are untouched.
    pub fn translate(&mut self, dx: i64, dy: i64)
        requires
            abs_i(old(self).offset.x + dx) <= OFFSET_MAX,
            abs_i(old(self).offset.y + dy) <= OFFSET_MAX,
            abs_i(old(self).offset.x as int) <= OFFSET_MAX,
            abs_i(old(self).offset.y as int) <= OFFSET_MAX,
        ensures
            final(self).offset.x == old(self).offset.x + dx,
            final(self).offset.y == old(self).offset.y + dy,
            final(self).vertices == old(self).vertices,
            final(self).rotation == old(self).rotation,
            poly_wf(*old(self)) ==> poly_wf(*final(self)),
            spec_area(*final(self)) == spec_area(*old(self)),
    {
        proof {
            lemma_abs_le(old(self).offset.x + dx, OFFSET_MAX as int);
            lemma_abs_le(old(self).offset.y + dy, OFFSET_MAX as int);
        }
        let offset = Point2D { x: self.offset.x + dx, y: self.offset.y + dy };
        self.offset = offset;
        proof {
            lemma_area_offset_free(*old(self), *self);
        }
    }

    /// Moves the polygon so that its offset becomes `point`.
    pub fn translate_to_point(&mut self, point: &Point2D)
        requires
            abs_i(point.x as int) <= OFFSET_MAX,
            abs_i(point.y as int) <= OFFSET_MAX,
            abs_i(old(self).offset.x as int) <= OFFSET_MAX,
            abs_i(old(self).offset.y as int) <= OFFSET_MAX,
        ensures
            final(self).offset == *point,
            final(self).vertices == old(self).vertices,
            final(self).rotation == old(self).rotation,
            poly_wf(*old(self)) ==> poly_wf(*final(self)),
            spec_area(*final(self)) == spec_area(*old(self)),
    {
        let dx: i64 = point.x - self.offset.x;
        let dy: i64 = point.y - self.offset.y;
        self.translate(dx, dy);
        proof {
            assert(self.offset.x == point.x && self.offset.y == point.y);
            assert(final(self).offset == *point);
        }
    }

    /// Moves the polygon's offset to `point` less the center of its
    /// bounding box (clamped into the offset range), as a relative
    /// placement aid.
    pub fn translate_center_to_point(&mut self, point: &Point2D)
        requires
            poly_wf(*old(self)),
            old(self).vertices.len() >= 1,
            abs_i(point.x as int) <= crate::VERT_MAX,
            abs_i(point.y as int) <= crate::VERT_MAX,
        ensures
            final(self).vertices == old(self).vertices,
            final(self).rotation == old(self).rotation,
            poly_wf(*final(self)),
            spec_area(*final(self)) == spec_area(*old(self)),
            final(self).offset == (Point2D {
                x: clamp_offset(point.x - spec_bb_center(*old(self)).x),
                y: clamp_offset(point.y - spec_bb_center(*old(self)).y),
            }),
    {
        let center = self.bounding_box().center();
        let target = Point2D { x: point.x - center.x, y: point.y - center.y };
        let clamped = Point2D {
            x: if target.x > OFFSET_MAX {
                OFFSET_MAX
            } else if target.x < -OFFSET_MAX {
                -OFFSET_MAX
            } else {
                target.x
            },
            y: if target.y > OFFSET_MAX {
                OFFSET_MAX
            } else if target.y < -OFFSET_MAX {
                -OFFSET_MAX
            } else {
                target.y
            },
        };
        self.translate_to_point(&clamped);
    }

    /// The signed area over the local vertices: half the shoelace sum,
    /// positive for clockwise winding. Independent of offset and rotation.
    pub fn area(&self) -> (r: i128)
        requires
            poly_wf(*self),
        ensures
            r == spec_area(*self),
    {
        let n = self.vertices.len();
        let mut sum: i128 = 0;
        let mut i: usize = 0;
        while i < n
            invariant
                0 <= i <= n,
                n == self.vertices.len(),
                poly_wf(*self),
                sum == area2_partial(*self, i as int),
                abs_i(sum as int) <= (i as int) * 8 * (VERT_MAX as int) * (VERT_MAX as int),
            decreases n - i,
        {
            let a = self.vertices[i];
            let j: usize = if i + 1 == n {
                0
            } else {
                i + 1
            };
            let b = self.vertices[j];
            let term: i128 = crate::num::mul_i64(a.x + b.x, a.y - b.y);
            proof {
                assert(abs_i((a.x + b.x) * (a.y - b.y)) <= 8 * (VERT_MAX as int) * (VERT_MAX as int)
                    && (i as int) * 8 * (VERT_MAX as int) * (VERT_MAX as int) + 8 * (VERT_MAX
                    as int) * (VERT_MAX as int) == (i + 1) * 8 * (VERT_MAX as int) * (VERT_MAX
                    as int) && (i + 1) * 8 * (VERT_MAX as int) * (VERT_MAX as int) <= (N_MAX as int)
                    * 8 * (VERT_MAX as int) * (VERT_MAX as int)) by (nonlinear_arith)
                    requires
                        abs_i(a.x as int) <= VERT_MAX,
                        abs_i(a.y as int) <= VERT_MAX,
                        abs_i(b.x as int) <= VERT_MAX,
                        abs_i(b.y as int) <= VERT_MAX,
                        0 <= i < N_MAX,
                ;
            }
            sum = sum + term;
            i = i + 1;
        }
        if sum >= 0 {
            sum / 2
        } else {
            -((-sum) / 2)
        }
    }

    /// The axis-aligned bounding box of the local vertices.
    pub fn bounding_box_local(&self) -> (r: BoundingBox)
        requires
            poly_wf(*self),
            self.vertices.len() >= 1,
        ensures
            forall|i: int|
                0 <= i < self.vertices.len() ==> r.min_x <= (#[trigger] self.vertices[i]).x
                    <= r.max_x && r.min_y <= self.vertices[i].y <= r.max_y,
            exists|i: int| 0 <= i < self.vertices.len() && (#[trigger] self.vertices[i]).x == r.min_x,
            exists|i: int| 0 <= i < self.vertices.len() && (#[trigger] self.vertices[i]).x == r.max_x,
            exists|i: int| 0 <= i < self.vertices.len() && (#[trigger] self.vertices[i]).y == r.min_y,
            exists|i: int| 0 <= i < self.vertices.len() && (#[trigger] self.vertices[i]).y == r.max_y,
            bb_in_range(r),
    {
        let n = self.vertices.len();
        let first = self.vertices[0];
        let mut min_x: i64 = first.x;
        let mut min_y: i64 = first.y;
        let mut max_x: i64 = first.x;
        let mut max_y: i64 = first.y;
        let mut i: usize = 1;
        while i < n
            invariant
                1 <= i <= n,
                n == self.vertices.len(),
                poly_wf(*self),
                forall|j: int|
                    0 <= j < i ==> min_x <= (#[trigger] self.vertices[j]).x <= max_x && min_y
                        <= self.vertices[j].y <= max_y,
                exists|j: int| 0 <= j < i && (#[trigger] self.vertices[j]).x == min_x,
                exists|j: int| 0 <= j < i && (#[trigger] self.vertices[j]).x == max_x,
                exists|j: int| 0 <= j < i && (#[trigger] self.vertices[j]).y == min_y,
                exists|j: int| 0 <= j < i && (#[trigger] self.vertices[j]).y == max_y,
            decreases n - i,
        {
            let v = self.vertices[i];
            if v.x < min_x {
                min_x = v.x;
            }
            if v.x > max_x {
                max_x = v.x;
            }
            if v.y < min_y {
                min_y = v.y;
            }
            if v.y > max_y {
                max_y = v.y;
            }
            i = i + 1;
        }
        BoundingBox { min_x, min_y, max_x, max_y }
    }

    /// The axis-aligned bounding box of the transformed vertices.
    pub fn bounding_box(&self) -> (r: BoundingBox)
        requires
            poly_wf(*self),
            self.vertices.len() >= 1,
        ensures
            forall|i: int|
                0 <= i < self.vertices.len() ==> r.min_x <= #[trigger] tv(*self, i).x <= r.max_x
                    && r.min_y <= tv(*self, i).y <= r.max_y,
            exists|i: int| 0 <= i < self.vertices.len() && #[trigger] tv(*self, i).x == r.min_x,
            exists|i: int| 0 <= i < self.vertices.len() && #[trigger] tv(*self, i).x == r.max_x,
            exists|i: int| 0 <= i < self.vertices.len() && #[trigger] tv(*self, i).y == r.min_y,
            exists|i: int| 0 <= i < self.vertices.len() && #[trigger] tv(*self, i).y == r.max_y,
            bb_in_range(r),
            r == spec_bb(*self),
    {
        let n = self.vertices.len();
        let first = self.get_vertex(0);
        let mut min_x: i64 = first.x;
        let mut min_y: i64 = first.y;
        let mut max_x: i64 = first.x;
        let mut max_y: i64 = first.y;
        proof {
            lemma_tv(*self, 0);
        }
        let mut i: usize = 1;
        while i < n
            invariant
                1 <= i <= n,
                n == self.vertices.len(),
                poly_wf(*self),
                forall|j: int|
                    0 <= j < i ==> min_x <= #[trigger] tv(*self, j).x <= max_x && min_y <= tv(
                        *self,
                        j,
                    ).y <= max_y,
                exists|j: int| 0 <= j < i && #[trigger] tv(*self, j).x == min_x,
                exists|j: int| 0 <= j < i && #[trigger] tv(*self, j).x == max_x,
                exists|j: int| 0 <= j < i && #[trigger] tv(*self, j).y == min_y,
                exists|j: int| 0 <= j < i && #[trigger] tv(*self, j).y == max_y,
                min_x_from(*self, i as int, min_x as int) == min_x_from(*self, 1, tv(*self, 0).x
                    as int),
                max_x_from(*self, i as int, max_x as int) == max_x_from(*self, 1, tv(*self, 0).x
                    as int),
                bb_min_y_from(*self, i as int, min_y as int) == bb_min_y_from(*self, 1, tv(
                    *self,
                    0,
                ).y as int),
                bb_max_y_from(*self, i as int, max_y as int) == bb_max_y_from(*self, 1, tv(
                    *self,
                    0,
                ).y as int),
                abs_i(min_x as int) <= COORD_LIMIT,
                abs_i(min_y as int) <= COORD_LIMIT,
                abs_i(max_x as int) <= COORD_LIMIT,
                abs_i(max_y as int) <= COORD_LIMIT,
            decreases n - i,
        {
            let v = self.get_vertex(i);
            proof {
                lemma_tv(*self, i as int);
            }
            let ghost old_min_x = min_x;
            let ghost old_max_x = max_x;
            let ghost old_min_y = min_y;
            let ghost old_max_y = max_y;
            if v.x < min_x {
                min_x = v.x;
            }
            if v.x > max_x {
                max_x = v.x;
            }
            if v.y < min_y {
                min_y = v.y;
            }
            if v.y > max_y {
                max_y = v.y;
            }
            proof {
                assert(min_x <= old_min_x && max_x >= old_max_x && min_y <= old_min_y && max_y
                    >= old_max_y);
                assert(min_x <= v.x <= max_x && min_y <= v.y <= max_y);
                assert forall|j: int| 0 <= j < i + 1 implies min_x <= #[trigger] tv(*self, j).x
                    <= max_x && min_y <= tv(*self, j).y <= max_y by {
                    if j < i {
                        assert(old_min_x <= tv(*self, j).x <= old_max_x && old_min_y <= tv(
                            *self,
                            j,
                        ).y <= old_max_y);
                    } else {
                        assert(tv(*self, j) == v);
                    }
                }
            }
            i = i + 1;
        }
        BoundingBox { min_x, min_y, max_x, max_y }
    }
}

/// Whether the rightward ray from `p` crosses the edge `s` to `e`: the edge
/// straddles the ray's height and the crossing lies right of `p` (by an
/// exact cross-multiplied comparison).
pub open spec fn spec_ray_hit(p: Point2D, s: Point2D, e: Point2D) -> bool {
    ((s.y > p.y) != (e.y > p.y)) && {
        let t = (e.x - s.x) * (p.y - s.y) - (p.x - s.x) * (e.y - s.y);
        if e.y > s.y {
            t > 0
        } else {
            t < 0
        }
    }
}

/// The parity walk of the ray-casting test from edge `i` on, with the
/// parity so far: `None` as soon as `p` sits on a vertex or an edge,
/// degenerate edges skipped.
pub open spec fn in_poly_from(p: Point2D, poly: Polygon, i: int, inside: bool) -> Option<bool>
    decreases poly.vertices.len() - i,
{
    if i >= poly.vertices.len() {
        Option::Some(inside)
    } else {
        let s = tv(poly, i);
        let e = tv(poly, wrap(poly, i));
        if pt_close(s, p) {
            Option::None
        } else if spec_on_segment(p, s, e) {
            Option::None
        } else if pt_close(s, e) {
            in_poly_from(p, poly, i + 1, inside)
        } else {
            in_poly_from(p, poly, i + 1, inside != spec_ray_hit(p, s, e))
        }
    }
}

/// Ray-casting point-in-polygon over the transformed edges: `Some(true)`
/// strictly inside, `Some(false)` strictly outside, `None` when the point
/// sits on the boundary or the polygon has fewer than three vertices.
pub open spec fn spec_in_polygon(p: Point2D, poly: Polygon) -> Option<bool> {
    if poly.vertices.len() < 3 {
        Option::None
    } else {
        in_poly_from(p, poly, 0, false)
    }
}

impl Point2D {
    /// Whether this point is inside `poly` (`Some(true)`), outside
    /// (`Some(false)`), or on its boundary or a vertex (`None`); also
    /// `None` when `poly` has fewer than three vertices.
    pub fn in_polygon(&self, poly: &Polygon) -> (r: Option<bool>)
        requires
            pt_in_range(*self),
            poly_wf(*poly),
        ensures
            r == spec_in_polygon(*self, *poly),
    {
        let n = poly.length();
        if n < 3 {
            return Option::None;
        }
        let mut inside: bool = false;
        let mut i: usize = 0;
        while i < n
            invariant
                0 <= i <= n,
                n == poly.vertices.len(),
                poly_wf(*poly),
                pt_in_range(*self),
                in_poly_from(*self, *poly, 0, false) == in_poly_from(*self, *poly, i as int, inside),
            decreases n - i,
        {
            let seg = poly.segment(i);
            let s = seg.start;
            let e = seg.end;
            if s.close_to(self) {
                return Option::None;
            }
            if self.on_segment(&seg) {
                return Option::None;
            }
            if !s.close_to(&e) {
                let t0: i64 = e.x - s.x;
                let t1: i64 = self.y - s.y;
                let t2: i64 = self.x - s.x;
                let t3: i64 = e.y - s.y;
                let t: i128 = crate::num::cross2(t0, t2, t3, t1);
                let hit: bool = ((s.y > self.y) != (e.y > self.y)) && (if e.y > s.y {
                    t > 0
                } else {
                    t < 0
                });
                proof {
                    assert(hit == spec_ray_hit(*self, s, e));
                }
                inside = inside != hit;
            }
            i = i + 1;
        }
        Some(inside)
    }
}

/// Whether the edge pair `(i, j)` witnesses a true boundary crossing of the
/// two polygons: a touching vertex whose neighbours alternate between
/// inside and outside the other polygon, or a proper segment crossing.
pub open spec fn pair_verdict(a: Polygon, b: Polygon, i: int, j: int) -> bool {
    let a0 = tv(a, i);
    let a1 = tv(a, wrap(a, i));
    let a2 = tv(a, wrap(a, wrap(a, i)));
    let a3 = tv(a, wrap(a, wrap(a, wrap(a, i))));
    let b0 = tv(b, j);
    let b1 = tv(b, wrap(b, j));
    let b2 = tv(b, wrap(b, wrap(b, j)));
    let b3 = tv(b, wrap(b, wrap(b, wrap(b, j))));
    if spec_on_segment(b1, a1, a2) || pt_close(a1, b1) {
        (spec_in_polygon(b0, a) == Option::Some(true)) != (spec_in_polygon(b2, a)
            == Option::Some(true))
    } else if spec_on_segment(b2, a1, a2) || pt_close(a2, b2) {
        (spec_in_polygon(b1, a) == Option::Some(true)) != (spec_in_polygon(b3, a)
            == Option::Some(true))
    } else if spec_on_segment(a1, b1, b2) || pt_close(a1, b2) {
        (spec_in_polygon(a0, b) == Option::Some(true)) != (spec_in_polygon(a2, b)
            == Option::Some(true))
    } else if spec_on_segment(a2, b1, b2) || pt_close(a2, b1) {
        (spec_in_polygon(a1, b) == Option::Some(true)) != (spec_in_polygon(a3, b)
            == Option::Some(true))
    } else {
        spec_intersects_segment(
            Segment { start: a1, end: a2 },
            Segment { start: b1, end: b2 },
            false,
        ) is Intersection
    }
}

/// Two polygons intersect when some edge pair witnesses a boundary
/// crossing; mere touching does not count.
pub open spec fn spec_intersects_polygon(a: Polygon, b: Polygon) -> bool {
    exists|i: int, j: int|
        0 <= i < a.vertices.len() && 0 <= j < b.vertices.len() && pair_verdict(a, b, i, j)
}

/// The running minimum of the sliding distances of all transformed edge
/// pairs from `(i, j)` on, skipping degenerate edges; with
/// `ign` set, a negative candidate below `-EPS` is not taken.
pub open spec fn slide_from(
    a: Polygon,
    b: Polygon,
    g: Point2D,
    ign: bool,
    i: int,
    j: int,
    acc: Option<int>,
) -> Option<int>
    decreases a.vertices.len() - i, b.vertices.len() + 1 - j,
{
    if i < 0 || j < 0 || i >= a.vertices.len() {
        acc
    } else if j >= b.vertices.len() {
        slide_from(a, b, g, ign, i + 1, 0, acc)
    } else {
        let sa = tseg(a, i);
        let sb = tseg(b, j);
        let acc2 = if pt_close(sa.start, sa.end) || pt_close(sb.start, sb.end) {
            acc
        } else {
            match spec_distance_along(sa, sb, g) {
                Option::None => acc,
                Option::Some(d) => {
                    let better = match acc {
                        Option::None => true,
                        Option::Some(av) => d < av,
                    };
                    if better && (!ign || d > 0 || abs_i(d) <= EPS) {
                        Option::Some(d)
                    } else {
                        acc
                    }
                },
            }
        };
        slide_from(a, b, g, ign, i, j + 1, acc2)
    }
}

/// How far `b` can slide along `g` before touching `a`: the least sliding
/// distance over all edge pairs, `None` for a zero direction or when no
/// pair interacts.
pub open spec fn spec_slide_distance(a: Polygon, b: Polygon, g: Point2D, ign: bool) -> Option<
    int,
> {
    if norm2(g) == 0 {
        Option::None
    } else {
        slide_from(a, b, g, ign, 0, 0, Option::None)
    }
}

/// The least distance from the point `v` to the edges of `a` along `g`,
/// from edge `j` on, skipping edges parallel to `g` (cross product with
/// the `UNIT`-scaled direction within `EPS * UNIT`).
pub open spec fn proj_vertex_min(
    a: Polygon,
    v: Point2D,
    g: Point2D,
    ux: int,
    uy: int,
    j: int,
    acc: Option<int>,
) -> Option<int>
    decreases a.vertices.len() - j,
{
    if j < 0 || j >= a.vertices.len() {
        acc
    } else {
        let sa = tseg(a, j);
        let crossv = (sa.end.y - sa.start.y) * ux - (sa.end.x - sa.start.x) * uy;
        let acc2 = if abs_i(crossv) <= EPS * UNIT {
            acc
        } else {
            match spec_distance_to_segment(v, sa.start, sa.end, g, false) {
                Option::None => acc,
                Option::Some(d) => match acc {
                    Option::None => Option::Some(d),
                    Option::Some(av) => if d < av {
                        Option::Some(d)
                    } else {
                        acc
                    },
                },
            }
        };
        proj_vertex_min(a, v, g, ux, uy, j + 1, acc2)
    }
}

/// The largest, over the transformed vertices of `b` from `i` on, of the
/// least projection distance of that vertex onto `a` along `g`.
pub open spec fn proj_from(a: Polygon, b: Polygon, g: Point2D, ux: int, uy: int, i: int,
    acc: Option<int>) -> Option<int>
    decreases b.vertices.len() - i,
{
    if i < 0 || i >= b.vertices.len() {
        acc
    } else {
        let mv = proj_vertex_min(a, tv(b, i), g, ux, uy, 0, Option::None);
        let acc2 = match mv {
            Option::None => acc,
            Option::Some(m) => match acc {
                Option::None => Option::Some(m),
                Option::Some(av) => if m > av {
                    Option::Some(m)
                } else {
                    acc
                },
            },
        };
        proj_from(a, b, g, ux, uy, i + 1, acc2)
    }
}

/// How far the whole of `b` must travel along `g` before it could clear
/// `a`: the largest per-vertex least projection distance.
pub open spec fn spec_project_distance(a: Polygon, b: Polygon, g: Point2D) -> Option<int> {
    if norm2(g) == 0 {
        Option::None
    } else {
        proj_from(a, b, g, unit_sx(g), unit_sy(g), 0, Option::None)
    }
}

impl Polygon {
    /// Whether the boundaries of the two polygons truly cross; polygons
    /// that merely touch at vertices or edges do not intersect. See
    /// [`spec_intersects_polygon`].
    pub fn intersects_polygon(&self, other: &Polygon) -> (r: bool)
        requires
            poly_wf(*self),
            poly_wf(*other),
        ensures
            r == spec_intersects_polygon(*self, *other),
    {
        let n = self.vertices.len();
        let m = other.vertices.len();
        let mut i: usize = 0;
        while i < n
            invariant
                0 <= i <= n,
                n == self.vertices.len(),
                m == other.vertices.len(),
                poly_wf(*self),
                poly_wf(*other),
                forall|i2: int, j2: int|
                    0 <= i2 < i && 0 <= j2 < m ==> !pair_verdict(*self, *other, i2, j2),
            decreases n - i,
        {
            let mut j: usize = 0;
            while j < m
                invariant
                    0 <= i < n,
                    0 <= j <= m,
                    n == self.vertices.len(),
                    m == other.vertices.len(),
                    poly_wf(*self),
                    poly_wf(*other),
                    forall|i2: int, j2: int|
                        0 <= i2 < i && 0 <= j2 < m ==> !pair_verdict(*self, *other, i2, j2),
                    forall|j2: int| 0 <= j2 < j ==> !pair_verdict(*self, *other, i as int, j2),
                decreases m - j,
            {
                if self.pair_crossing(other, i, j) {
                    proof {
                        assert(pair_verdict(*self, *other, i as int, j as int));
                    }
                    return true;
                }
                j = j + 1;
            }
            i = i + 1;
        }
        false
    }

    /// One edge-pair test of the crossing search; matches [`pair_verdict`].
    #[verifier::rlimit(100)]
    fn pair_crossing(&self, other: &Polygon, i: usize, j: usize) -> (r: bool)
        requires
            poly_wf(*self),
            poly_wf(*other),
            i < self.vertices.len(),
            j < other.vertices.len(),
        ensures
            r == pair_verdict(*self, *other, i as int, j as int),
    {
        let n = self.vertices.len();
        let m = other.vertices.len();
        let i1: usize = if i + 1 == n { 0 } else { i + 1 };
        let i2: usize = if i1 + 1 == n { 0 } else { i1 + 1 };
        let i3: usize = if i2 + 1 == n { 0 } else { i2 + 1 };
        let j1: usize = if j + 1 == m { 0 } else { j + 1 };
        let j2: usize = if j1 + 1 == m { 0 } else { j1 + 1 };
        let j3: usize = if j2 + 1 == m { 0 } else { j2 + 1 };
        let a0 = self.get_vertex(i);
        let a1 = self.get_vertex(i1);
        let a2 = self.get_vertex(i2);
        let a3 = self.get_vertex(i3);
        let b0 = other.get_vertex(j);
        let b1 = other.get_vertex(j1);
        let b2 = other.get_vertex(j2);
        let b3 = other.get_vertex(j3);
        let s01 = Segment { start: a1, end: a2 };
        let s11 = Segment { start: b1, end: b2 };
        if b1.on_segment(&s01) || a1.close_to(&b1) {
            let b0in: bool = match b0.in_polygon(self) {
                Some(t) => t,
                Option::None => false,
            };
            let b2in: bool = match b2.in_polygon(self) {
                Some(t) => t,
                Option::None => false,
            };
            return b0in != b2in;
        }
        if b2.on_segment(&s01) || a2.close_to(&b2) {
            let b1in: bool = match b1.in_polygon(self) {
                Some(t) => t,
                Option::None => false,
            };
            let b3in: bool = match b3.in_polygon(self) {
                Some(t) => t,
                Option::None => false,
            };
            return b1in != b3in;
        }
        if a1.on_segment(&s11) || a1.close_to(&b2) {
            let a0in: bool = match a0.in_polygon(other) {
                Some(t) => t,
                Option::None => false,
            };
            let a2in: bool = match a2.in_polygon(other) {
                Some(t) => t,
                Option::None => false,
            };
            return a0in != a2in;
        }
        if a2.on_segment(&s11) || a2.close_to(&b1) {
            let a1in: bool = match a1.in_polygon(other) {
                Some(t) => t,
                Option::None => false,
            };
            let a3in: bool = match a3.in_polygon(other) {
                Some(t) => t,
                Option::None => false,
            };
            return a1in != a3in;
        }
        matches!(s01.intersects_segment(&s11, false), SegmentSegmentIntersection::Intersection(_))
    }

    /// How far `other` can slide along `direction` before touching this
    /// polygon; see [`spec_slide_distance`].
    pub fn slide_distance_on_polygon(&self, other: &Polygon, direction: &Point2D,
        ignore_negative: bool) -> (r: Option<i64>)
        requires
            poly_wf(*self),
            poly_wf(*other),
            pt_in_wide(*direction),
        ensures
            opt_as_int(r) == spec_slide_distance(*self, *other, *direction, ignore_negative),
            r matches Some(v) ==> abs_i(v as int) <= DIST_LIMIT,
    {
        proof {
            assert(norm2(*direction) >= 0) by (nonlinear_arith);
        }
        if direction.is_zero() {
            proof {
                assert(norm2(*direction) == 0);
            }
            return Option::None;
        }
        proof {
            assert(norm2(*direction) > 0) by (nonlinear_arith)
                requires
                    !(direction.x == 0 && direction.y == 0),
            ;
        }
        let ghost target = spec_slide_distance(*self, *other, *direction, ignore_negative);
        let n = self.vertices.len();
        let m = other.vertices.len();
        let mut acc: Option<i64> = Option::None;
        let mut i: usize = 0;
        while i < n
            invariant
                0 <= i <= n,
                n == self.vertices.len(),
                m == other.vertices.len(),
                poly_wf(*self),
                poly_wf(*other),
                pt_in_wide(*direction),
                norm2(*direction) > 0,
                target == spec_slide_distance(*self, *other, *direction, ignore_negative),
                target == slide_from(*self, *other, *direction, ignore_negative, i as int, 0,
                    opt_as_int(acc)),
                acc matches Some(v) ==> abs_i(v as int) <= DIST_LIMIT,
            decreases n - i,
        {
            let mut j: usize = 0;
            while j < m
                invariant
                    0 <= i < n,
                    0 <= j <= m,
                    n == self.vertices.len(),
                    m == other.vertices.len(),
                    poly_wf(*self),
                    poly_wf(*other),
                    pt_in_wide(*direction),
                    norm2(*direction) > 0,
                    target == spec_slide_distance(*self, *other, *direction, ignore_negative),
                    target == slide_from(*self, *other, *direction, ignore_negative, i as int,
                        j as int, opt_as_int(acc)),
                    acc matches Some(v) ==> abs_i(v as int) <= DIST_LIMIT,
                decreases m - j,
            {
                let sa = self.segment(i);
                let sb = other.segment(j);
                if !sa.is_degenerate() && !sb.is_degenerate() {
                    let d = sa.distance_to_segment_along_direction(&sb, direction);
                    if let Some(dv) = d {
                        let better: bool = match acc {
                            Some(av) => dv < av,
                            Option::None => true,
                        };
                        let adv: i64 = if dv < 0 {
                            -dv
                        } else {
                            dv
                        };
                        if better && (!ignore_negative || dv > 0 || adv <= EPS) {
                            acc = Some(dv);
                        }
                    }
                }
                j = j + 1;
            }
            i = i + 1;
        }
        acc
    }

    /// How far every vertex of `other` must travel along `direction`
    /// before it could clear this polygon; see [`spec_project_distance`].
    pub fn project_distance_on_polygon(&self, other: &Polygon, direction: &Point2D) -> (r: Option<
        i64>)
        requires
            poly_wf(*self),
            poly_wf(*other),
            pt_in_wide(*direction),
        ensures
            opt_as_int(r) == spec_project_distance(*self, *other, *direction),
            r matches Some(v) ==> abs_i(v as int) <= DIST_LIMIT,
    {
        proof {
            assert(norm2(*direction) >= 0) by (nonlinear_arith);
        }
        let u = match direction.unit_dir() {
            Some(u) => u,
            Option::None => {
                return Option::None;
            },
        };
        let (ux, uy) = u;
        let ghost target = spec_project_distance(*self, *other, *direction);
        let n = self.vertices.len();
        let m = other.vertices.len();
        let mut acc: Option<i64> = Option::None;
        let mut i: usize = 0;
        while i < m
            invariant
                0 <= i <= m,
                n == self.vertices.len(),
                m == other.vertices.len(),
                poly_wf(*self),
                poly_wf(*other),
                pt_in_wide(*direction),
                norm2(*direction) > 0,
                ux == unit_sx(*direction),
                uy == unit_sy(*direction),
                abs_i(ux as int) <= UNIT,
                abs_i(uy as int) <= UNIT,
                target == spec_project_distance(*self, *other, *direction),
                target == proj_from(*self, *other, *direction, ux as int, uy as int, i as int,
                    opt_as_int(acc)),
                acc matches Some(v) ==> abs_i(v as int) <= DIST_LIMIT,
            decreases m - i,
        {
            let v = other.get_vertex(i);
            let mut mp: Option<i64> = Option::None;
            let mut j: usize = 0;
            while j < n
                invariant
                    0 <= i < m,
                    0 <= j <= n,
                    n == self.vertices.len(),
                    m == other.vertices.len(),
                    poly_wf(*self),
                    poly_wf(*other),
                    pt_in_wide(*direction),
                    norm2(*direction) > 0,
                    ux == unit_sx(*direction),
                    uy == unit_sy(*direction),
                    abs_i(ux as int) <= UNIT,
                    abs_i(uy as int) <= UNIT,
                    v == tv(*other, i as int),
                    pt_in_range(v),
                    proj_vertex_min(*self, v, *direction, ux as int, uy as int, 0, Option::None)
                        == proj_vertex_min(*self, v, *direction, ux as int, uy as int, j as int,
                        opt_as_int(mp)),
                    mp matches Some(w) ==> abs_i(w as int) <= DIST_LIMIT,
                decreases n - j,
            {
                let sa = self.segment(j);
                let cv: i128 = crate::num::cross2(sa.end.y - sa.start.y, sa.end.x - sa.start.x,
                    uy, ux);
                proof {
                    crate::num::lemma_dot_cross_bound((sa.end.y - sa.start.y) as int, (sa.end.x
                        - sa.start.x) as int, uy as int, ux as int, 2 * (COORD_LIMIT as int),
                        UNIT as int);
                }
                let acv: i128 = if cv < 0 {
                    -cv
                } else {
                    cv
                };
                if acv > (EPS as i128) * (UNIT as i128) {
                    let d = v.distance_to_segment(&sa, direction, false);
                    if let Some(dv) = d {
                        let better: bool = match mp {
                            Some(pv) => dv < pv,
                            Option::None => true,
                        };
                        if better {
                            mp = Some(dv);
                        }
                    }
                }
                j = j + 1;
            }
            if let Some(mv) = mp {
                let take: bool = match acc {
                    Some(av) => mv > av,
                    Option::None => true,
                };
                if take {
                    acc = Some(mv);
                }
            }
            i = i + 1;
        }
        acc
    }
}

/// Vertex `i` rotated but not translated: the transformed vertex of the
/// polygon with its offset removed.
pub open spec fn rv(p: Polygon, i: int) -> Point2D {
    Point2D { x: rot_x(p.vertices[i], p.rotation) as i64, y: rot_y(p.vertices[i], p.rotation) as i64 }
}

/// The same polygon carried to another offset.
pub open spec fn with_offset(p: Polygon, off: Point2D) -> Polygon {
    Polygon { vertices: p.vertices, offset: off, rotation: p.rotation }
}

/// A rotated vertex of a well-formed polygon is bounded by twice the
/// vertex range.
pub proof fn lemma_rv(p: Polygon, i: int)
    requires
        poly_wf(p),
        0 <= i < p.vertices.len(),
    ensures
        rv(p, i).x == rot_x(p.vertices[i], p.rotation),
        rv(p, i).y == rot_y(p.vertices[i], p.rotation),
        abs_i(rv(p, i).x as int) <= 2 * VERT_MAX + 1,
        abs_i(rv(p, i).y as int) <= 2 * VERT_MAX + 1,
        pt_in_range(rv(p, i)),
{
    let v = p.vertices[i];
    lemma_rot_parts_pub(v.x as int, v.y as int, p.rotation.cos as int, p.rotation.sin as int);
    lemma_div_round_bound(
        v.x as int * p.rotation.cos - v.y as int * p.rotation.sin,
        crate::UNIT as int,
        abs_i(v.x as int) + abs_i(v.y as int),
    );
    lemma_div_round_bound(
        v.x as int * p.rotation.sin + v.y as int * p.rotation.cos,
        crate::UNIT as int,
        abs_i(v.x as int) + abs_i(v.y as int),
    );
}

impl Polygon {
    /// Vertex `i` rotated but not translated.
    pub fn rotated_vertex(&self, i: usize) -> (r: Point2D)
        requires
            poly_wf(*self),
            i < self.vertices.len(),
        ensures
            r == rv(*self, i as int),
            abs_i(r.x as int) <= 2 * VERT_MAX + 1,
            abs_i(r.y as int) <= 2 * VERT_MAX + 1,
            pt_in_range(r),
    {
        proof {
            lemma_rv(*self, i as int);
        }
        self.vertices[i].rotate(&self.rotation)
    }
}

/// The signed area of a well-formed polygon is bounded.
pub proof fn lemma_area_bound(p: Polygon)
    requires
        poly_wf(p),
    ensures
        abs_i(spec_area(p)) <= (N_MAX as int) * 4 * (VERT_MAX as int) * (VERT_MAX as int),
{
    lemma_area2_partial_bound(p, p.vertices.len() as int);
    assert(p.vertices.len() as int * 8 * (VERT_MAX as int) * (VERT_MAX as int) <= (N_MAX as int)
        * 8 * (VERT_MAX as int) * (VERT_MAX as int)) by (nonlinear_arith)
        requires
            p.vertices.len() <= N_MAX,
    ;
    assert(abs_i(spec_area(p)) * 2 <= abs_i(area2(p)) * 2 && abs_i(area2(p)) <= (N_MAX as int) * 8
        * (VERT_MAX as int) * (VERT_MAX as int) ==> abs_i(spec_area(p)) <= (N_MAX as int) * 4 * (
    VERT_MAX as int) * (VERT_MAX as int)) by (nonlinear_arith);
    assert(abs_i(spec_area(p)) * 2 <= abs_i(area2(p)) * 2);
}

/// Translation invariance of the signed area: moving a polygon to any
/// offset leaves its area unchanged, since the shoelace sum reads only the
/// local vertices.
pub proof fn lemma_translate_keeps_area(p: Polygon, off: Point2D)
    ensures
        spec_area(with_offset(p, off)) == spec_area(p),
{
    lemma_area_offset_free(with_offset(p, off), p);
}

/// The point-in-polygon test is undefined on fewer than three vertices:
/// every query point yields `None`.
pub proof fn lemma_in_polygon_degenerate(p: Point2D, poly: Polygon)
    requires
        poly.vertices.len() < 3,
    ensures
        spec_in_polygon(p, poly) is None,
{
}

/// Two polygons of the same shape: equal vertex views, equal offset,
/// equal rotation. Every spec function here reads polygons only through
/// these, so results agree on same-shape polygons.
pub open spec fn same_shape(p: Polygon, q: Polygon) -> bool {
    p.vertices@ == q.vertices@ && p.offset == q.offset && p.rotation == q.rotation
}

/// Transformed and rotated vertices, indices and edges depend only on the
/// shape.
pub proof fn lemma_tv_cong(p: Polygon, q: Polygon, i: int)
    requires
        same_shape(p, q),
    ensures
        tv(p, i) == tv(q, i),
        rv(p, i) == rv(q, i),
        wrap(p, i) == wrap(q, i),
        tseg(p, i) == tseg(q, i),
        lseg(p, i) == lseg(q, i),
{
    assert(p.vertices[i] == q.vertices[i]);
    assert(p.vertices[wrap(p, i)] == q.vertices[wrap(q, i)]);
}

/// The ray-casting walk depends only on the shape.
proof fn lemma_in_poly_from_cong(pt: Point2D, p: Polygon, q: Polygon, i: int, inside: bool)
    requires
        same_shape(p, q),
    ensures
        in_poly_from(pt, p, i, inside) == in_poly_from(pt, q, i, inside),
    decreases p.vertices.len() - i,
{
    if i < p.vertices.len() {
        lemma_tv_cong(p, q, i);
        lemma_tv_cong(p, q, wrap(p, i));
        let s = tv(p, i);
        let e = tv(p, wrap(p, i));
        lemma_in_poly_from_cong(pt, p, q, i + 1, inside);
        lemma_in_poly_from_cong(pt, p, q, i + 1, inside != spec_ray_hit(pt, s, e));
    }
}

/// The point-in-polygon verdict depends only on the shape.
pub proof fn lemma_in_polygon_cong(pt: Point2D, p: Polygon, q: Polygon)
    requires
        same_shape(p, q),
    ensures
        spec_in_polygon(pt, p) == spec_in_polygon(pt, q),
{
    lemma_in_poly_from_cong(pt, p, q, 0, false);
}

/// An edge-pair crossing verdict depends only on the shapes.
proof fn lemma_pair_verdict_cong(a1: Polygon, a2: Polygon, b1: Polygon, b2: Polygon, i: int, j: int)
    requires
        same_shape(a1, a2),
        same_shape(b1, b2),
    ensures
        pair_verdict(a1, b1, i, j) == pair_verdict(a2, b2, i, j),
{
    lemma_tv_cong(a1, a2, i);
    lemma_tv_cong(a1, a2, wrap(a1, i));
    lemma_tv_cong(a1, a2, wrap(a1, wrap(a1, i)));
    lemma_tv_cong(a1, a2, wrap(a1, wrap(a1, wrap(a1, i))));
    lemma_tv_cong(b1, b2, j);
    lemma_tv_cong(b1, b2, wrap(b1, j));
    lemma_tv_cong(b1, b2, wrap(b1, wrap(b1, j)));
    lemma_tv_cong(b1, b2, wrap(b1, wrap(b1, wrap(b1, j))));
    lemma_in_polygon_cong(tv(b1, j), a1, a2);
    lemma_in_polygon_cong(tv(b1, wrap(b1, j)), a1, a2);
    lemma_in_polygon_cong(tv(b1, wrap(b1, wrap(b1, j))), a1, a2);
    lemma_in_polygon_cong(tv(b1, wrap(b1, wrap(b1, wrap(b1, j)))), a1, a2);
    lemma_in_polygon_cong(tv(a1, i), b1, b2);
    lemma_in_polygon_cong(tv(a1, wrap(a1, i)), b1, b2);
    lemma_in_polygon_cong(tv(a1, wrap(a1, wrap(a1, i))), b1, b2);
    lemma_in_polygon_cong(tv(a1, wrap(a1, wrap(a1, wrap(a1, i)))), b1, b2);
}

/// The polygon-crossing verdict depends only on the shapes.
pub proof fn lemma_intersects_polygon_cong(a1: Polygon, a2: Polygon, b1: Polygon, b2: Polygon)
    requires
        same_shape(a1, a2),
        same_shape(b1, b2),
    ensures
        spec_intersects_polygon(a1, b1) == spec_intersects_polygon(a2, b2),
{
    assert forall|i: int, j: int|
        0 <= i < a1.vertices.len() && 0 <= j < b1.vertices.len() implies pair_verdict(a1, b1, i, j)
        == pair_verdict(a2, b2, i, j) by {
        lemma_pair_verdict_cong(a1, a2, b1, b2, i, j);
    }
    if spec_intersects_polygon(a1, b1) {
        let (i, j) = choose|i: int, j: int|
            0 <= i < a1.vertices.len() && 0 <= j < b1.vertices.len() && pair_verdict(a1, b1, i, j);
        assert(pair_verdict(a2, b2, i, j));
    }
    if spec_intersects_polygon(a2, b2) {
        let (i, j) = choose|i: int, j: int|
            0 <= i < a2.vertices.len() && 0 <= j < b2.vertices.len() && pair_verdict(a2, b2, i, j);
        assert(pair_verdict(a1, b1, i, j));
    }
}

/// The sliding-distance scan depends only on the shapes.
proof fn lemma_slide_from_cong(a1: Polygon, a2: Polygon, b1: Polygon, b2: Polygon, g: Point2D,
    ign: bool, i: int, j: int, acc: Option<int>)
    requires
        same_shape(a1, a2),
        same_shape(b1, b2),
    ensures
        slide_from(a1, b1, g, ign, i, j, acc) == slide_from(a2, b2, g, ign, i, j, acc),
    decreases a1.vertices.len() - i, b1.vertices.len() + 1 - j,
{
    if !(i < 0 || j < 0 || i >= a1.vertices.len()) {
        if j >= b1.vertices.len() {
            lemma_slide_from_cong(a1, a2, b1, b2, g, ign, i + 1, 0, acc);
        } else {
            lemma_tv_cong(a1, a2, i);
            lemma_tv_cong(b1, b2, j);
            let sa = tseg(a1, i);
            let sb = tseg(b1, j);
            let acc2 = if pt_close(sa.start, sa.end) || pt_close(sb.start, sb.end) {
                acc
            } else {
                match spec_distance_along(sa, sb, g) {
                    Option::None => acc,
                    Option::Some(d) => {
                        let better = match acc {
                            Option::None => true,
                            Option::Some(av) => d < av,
                        };
                        if better && (!ign || d > 0 || abs_i(d) <= EPS) {
                            Option::Some(d)
                        } else {
                            acc
                        }
                    },
                }
            };
            lemma_slide_from_cong(a1, a2, b1, b2, g, ign, i, j + 1, acc2);
        }
    }
}

/// The slide distance depends only on the shapes.
pub proof fn lemma_slide_distance_cong(a1: Polygon, a2: Polygon, b1: Polygon, b2: Polygon,
    g: Point2D, ign: bool)
    requires
        same_shape(a1, a2),
        same_shape(b1, b2),
    ensures
        spec_slide_distance(a1, b1, g, ign) == spec_slide_distance(a2, b2, g, ign),
{
    lemma_slide_from_cong(a1, a2, b1, b2, g, ign, 0, 0, Option::None);
}

/// The per-vertex projection scan depends only on the shapes.
proof fn lemma_proj_vertex_min_cong(a1: Polygon, a2: Polygon, v: Point2D, g: Point2D, ux: int,
    uy: int, j: int, acc: Option<int>)
    requires
        same_shape(a1, a2),
    ensures
        proj_vertex_min(a1, v, g, ux, uy, j, acc) == proj_vertex_min(a2, v, g, ux, uy, j, acc),
    decreases a1.vertices.len() - j,
{
    if !(j < 0 || j >= a1.vertices.len()) {
        lemma_tv_cong(a1, a2, j);
        let sa = tseg(a1, j);
        let crossv = (sa.end.y - sa.start.y) * ux - (sa.end.x - sa.start.x) * uy;
        let acc2 = if abs_i(crossv) <= EPS * UNIT {
            acc
        } else {
            match spec_distance_to_segment(v, sa.start, sa.end, g, false) {
                Option::None => acc,
                Option::Some(d) => match acc {
                    Option::None => Option::Some(d),
                    Option::Some(av) => if d < av {
                        Option::Some(d)
                    } else {
                        acc
                    },
                },
            }
        };
        lemma_proj_vertex_min_cong(a1, a2, v, g, ux, uy, j + 1, acc2);
    }
}

/// The projection scan over the vertices depends only on the shapes.
proof fn lemma_proj_from_cong(a1: Polygon, a2: Polygon, b1: Polygon, b2: Polygon, g: Point2D,
    ux: int, uy: int, i: int, acc: Option<int>)
    requires
        same_shape(a1, a2),
        same_shape(b1, b2),
    ensures
        proj_from(a1, b1, g, ux, uy, i, acc) == proj_from(a2, b2, g, ux, uy, i, acc),
    decreases b1.vertices.len() - i,
{
    if !(i < 0 || i >= b1.vertices.len()) {
        lemma_tv_cong(b1, b2, i);
        lemma_proj_vertex_min_cong(a1, a2, tv(b1, i), g, ux, uy, 0, Option::None);
        let mv = proj_vertex_min(a1, tv(b1, i), g, ux, uy, 0, Option::None);
        let acc2 = match mv {
            Option::None => acc,
            Option::Some(m) => match acc {
                Option::None => Option::Some(m),
                Option::Some(av) => if m > av {
                    Option::Some(m)
                } else {
                    acc
                },
            },
        };
        lemma_proj_from_cong(a1, a2, b1, b2, g, ux, uy, i + 1, acc2);
    }
}

/// The projection distance depends only on the shapes.
pub proof fn lemma_project_distance_cong(a1: Polygon, a2: Polygon, b1: Polygon, b2: Polygon,
    g: Point2D)
    requires
        same_shape(a1, a2),
        same_shape(b1, b2),
    ensures
        spec_project_distance(a1, b1, g) == spec_project_distance(a2, b2, g),
{
    if norm2(g) != 0 {
        lemma_proj_from_cong(a1, a2, b1, b2, g, unit_sx(g), unit_sy(g), 0, Option::None);
    }
}

/// The least x coordinate of the transformed vertices from `i` on.
pub open spec fn min_x_from(p: Polygon, i: int, best: int) -> int
    decreases p.vertices.len() - i,
{
    if i < 0 || i >= p.vertices.len() {
        best
    } else {
        min_x_from(p, i + 1, min_i(tv(p, i).x as int, best))
    }
}

/// The greatest x coordinate of the transformed vertices from `i` on.
pub open spec fn max_x_from(p: Polygon, i: int, best: int) -> int
    decreases p.vertices.len() - i,
{
    if i < 0 || i >= p.vertices.len() {
        best
    } else {
        max_x_from(p, i + 1, max_i(tv(p, i).x as int, best))
    }
}

/// The least y coordinate of the transformed vertices from `i` on.
pub open spec fn bb_min_y_from(p: Polygon, i: int, best: int) -> int
    decreases p.vertices.len() - i,
{
    if i < 0 || i >= p.vertices.len() {
        best
    } else {
        bb_min_y_from(p, i + 1, min_i(tv(p, i).y as int, best))
    }
}

/// The greatest y coordinate of the transformed vertices from `i` on.
pub open spec fn bb_max_y_from(p: Polygon, i: int, best: int) -> int
    decreases p.vertices.len() - i,
{
    if i < 0 || i >= p.vertices.len() {
        best
    } else {
        bb_max_y_from(p, i + 1, max_i(tv(p, i).y as int, best))
    }
}

/// The bounding box of the transformed vertices, as a value.
pub open spec fn spec_bb(p: Polygon) -> BoundingBox {
    BoundingBox {
        min_x: min_x_from(p, 1, tv(p, 0).x as int) as i64,
        min_y: bb_min_y_from(p, 1, tv(p, 0).y as int) as i64,
        max_x: max_x_from(p, 1, tv(p, 0).x as int) as i64,
        max_y: bb_max_y_from(p, 1, tv(p, 0).y as int) as i64,
    }
}

/// An offset component clamped into the allowed offset range.
pub open spec fn clamp_offset(v: int) -> i64 {
    if v > OFFSET_MAX {
        OFFSET_MAX
    } else if v < -OFFSET_MAX {
        (-OFFSET_MAX) as i64
    } else {
        v as i64
    }
}

/// The center of the transformed bounding box, rounded to the grid.
pub open spec fn spec_bb_center(p: Polygon) -> Point2D {
    Point2D {
        x: div_round(spec_bb(p).min_x + spec_bb(p).max_x, 2) as i64,
        y: div_round(spec_bb(p).min_y + spec_bb(p).max_y, 2) as i64,
    }
}

/// `|n| <= m` written out for the solver.
proof fn lemma_abs_le(n: int, m: int)
    requires
        abs_i(n) <= m,
    ensures
        -m <= n <= m,
{
}

/// The shoelace sum reads only the local vertices, so two polygons that
/// share them have the same area.
pub proof fn lemma_area_offset_free(a: Polygon, b: Polygon)
    requires
        a.vertices == b.vertices,
    ensures
        spec_area(a) == spec_area(b),
{
    lemma_area2_partial_same(a, b, a.vertices.len() as int);
}

/// Helper: the partial shoelace sums agree step by step.
proof fn lemma_area2_partial_same(a: Polygon, b: Polygon, n: int)
    requires
        a.vertices == b.vertices,
    ensures
        area2_partial(a, n) == area2_partial(b, n),
    decreases n,
{
    if n > 0 {
        lemma_area2_partial_same(a, b, n - 1);
    }
}

} // verus!
