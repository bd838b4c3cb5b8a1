//! Directed segments and their intersection classification.
//!
//! Segments are ephemeral: they are built on demand from adjacent polygon
//! vertices and never stored. A degenerate segment (both endpoints close)
//! is skipped by callers, never an error.

use vstd::prelude::*;

use crate::num::{abs_i, div_round, div_round_i128, dot2, isqrt_u128, lemma_abs_mul,
    lemma_div_round_bound, lemma_dot_cross_bound, max_i, min_i, mul_i64, sdiv_round,
    sdiv_round_i128, sqrt_floor};
use crate::point::{close_c, dd_s, max_c, min_c, norm2, pt_close, pt_in_range, pt_in_wide, rot_wf,
    rot_x, rot_y, spec_distance_to_segment, spec_on_segment, unit_sx, unit_sy, Point2D, Rotation};
use crate::{COORD_LIMIT, DIR_EPS, DIST_LIMIT, EPS, UNIT};

verus! {

/// A directed segment between two grid points.
#[derive(Clone, Copy, Debug, PartialEq, Eq, Structural)]
pub struct Segment {
    pub start: Point2D,
    pub end: Point2D,
}

/// Both endpoints within the working coordinate range.
pub open spec fn seg_in_range(s: Segment) -> bool {
    pt_in_range(s.start) && pt_in_range(s.end)
}

/// How two segments meet: not at all, as the same segment, at a single
/// touching point, at a proper crossing, or along a shared stretch.
#[derive(Clone, Copy, Debug, PartialEq, Eq, Structural)]
pub enum SegmentSegmentIntersection {
    NoIntersection,
    Equal,
    Touching(Point2D),
    Intersection(Point2D),
    Overlap(Point2D, Point2D),
}

impl Segment {
    /// A segment from its two endpoints.
    pub fn new(start: Point2D, end: Point2D) -> (s: Segment)
        ensures
            s.start == start,
            s.end == end,
    {
        Segment { start, end }
    }

    /// The start point.
    pub fn start(&self) -> (r: Point2D)
        ensures
            r == self.start,
    {
        self.start
    }

    /// The end point.
    pub fn end(&self) -> (r: Point2D)
        ensures
            r == self.end,
    {
        self.end
    }

    /// Both endpoints rotated about the origin.
    pub fn rotate(&self, rot: &Rotation) -> (r: Segment)
        requires
            seg_in_range(*self),
            rot_wf(*rot),
        ensures
            r.start.x == rot_x(self.start, *rot),
            r.start.y == rot_y(self.start, *rot),
            r.end.x == rot_x(self.end, *rot),
            r.end.y == rot_y(self.end, *rot),
    {
        Segment { start: self.start.rotate(rot), end: self.end.rotate(rot) }
    }

    /// Both endpoints translated by `offset`.
    pub fn translate(&self, offset: &Point2D) -> (r: Segment)
        requires
            seg_in_range(*self),
            pt_in_range(*offset),
        ensures
            r.start.x == self.start.x + offset.x,
            r.start.y == self.start.y + offset.y,
            r.end.x == self.end.x + offset.x,
            r.end.y == self.end.y + offset.y,
    {
        Segment { start: self.start.translate(offset), end: self.end.translate(offset) }
    }

    /// Whether the segment is degenerate: both endpoints approximately equal.
    pub fn is_degenerate(&self) -> (b: bool)
        requires
            seg_in_range(*self),
        ensures
            b == pt_close(self.start, self.end),
    {
        self.start.close_to(&self.end)
    }
}

/// The classification of parallel segments by probing each endpoint of one
/// against the other: no shared endpoint region, one touching point, or a
/// shared stretch reported by its first two probe hits, probed in the order
/// `a`, `b` (this segment's ends) then `c`, `d` (the other's).
pub open spec fn spec_parallel_classify(a: Point2D, b: Point2D, c: Point2D, d: Point2D)
    -> SegmentSegmentIntersection {
    let fa = spec_on_segment(a, c, d);
    let fb = spec_on_segment(b, c, d);
    let fc = spec_on_segment(c, a, b);
    let fd = spec_on_segment(d, a, b);
    if fa {
        if fb {
            SegmentSegmentIntersection::Overlap(a, b)
        } else if fc {
            SegmentSegmentIntersection::Overlap(a, c)
        } else if fd {
            SegmentSegmentIntersection::Overlap(a, d)
        } else {
            SegmentSegmentIntersection::Touching(a)
        }
    } else if fb {
        if fc {
            SegmentSegmentIntersection::Overlap(b, c)
        } else if fd {
            SegmentSegmentIntersection::Overlap(b, d)
        } else {
            SegmentSegmentIntersection::Touching(b)
        }
    } else if fc {
        if fd {
            SegmentSegmentIntersection::Overlap(c, d)
        } else {
            SegmentSegmentIntersection::Touching(c)
        }
    } else if fd {
        SegmentSegmentIntersection::Touching(d)
    } else {
        SegmentSegmentIntersection::NoIntersection
    }
}

/// Classification of the meeting of segment `s` with segment `o`.
/// `Equal` means the endpoint pairs coincide, in either order. Exactly
/// parallel segments are classified by endpoint probing. Otherwise the
/// line intersection point is computed (rounded to the grid) and, unless
/// `infinite` is set, checked against both segments' coordinate ranges,
/// skipping any axis on which a segment spans no more than `EPS`. A point
/// beyond the working coordinate range counts as no intersection.
pub open spec fn spec_intersects_segment(s: Segment, o: Segment, infinite: bool)
    -> SegmentSegmentIntersection {
    let a = s.start;
    let b = s.end;
    let c = o.start;
    let d = o.end;
    if (pt_close(a, c) && pt_close(b, d)) || (pt_close(a, d) && pt_close(b, c)) {
        SegmentSegmentIntersection::Equal
    } else {
        let a1 = b.y - a.y;
        let b1 = a.x - b.x;
        let c1 = b.x * a.y - a.x * b.y;
        let a2 = d.y - c.y;
        let b2 = c.x - d.x;
        let c2 = d.x * c.y - c.x * d.y;
        let den = a1 * b2 - a2 * b1;
        if den == 0 {
            spec_parallel_classify(a, b, c, d)
        } else {
            let x = sdiv_round(b1 * c2 - b2 * c1, den);
            let y = sdiv_round(a2 * c1 - a1 * c2, den);
            if abs_i(x) > COORD_LIMIT || abs_i(y) > COORD_LIMIT {
                SegmentSegmentIntersection::NoIntersection
            } else if !infinite && ((abs_i(a.x - b.x) > EPS && (x < min_i(a.x as int, b.x as int)
                || x > max_i(a.x as int, b.x as int))) || (abs_i(a.y - b.y) > EPS && (y < min_i(
                a.y as int,
                b.y as int,
            ) || y > max_i(a.y as int, b.y as int))) || (abs_i(c.x - d.x) > EPS && (x < min_i(
                c.x as int,
                d.x as int,
            ) || x > max_i(c.x as int, d.x as int))) || (abs_i(c.y - d.y) > EPS && (y < min_i(
                c.y as int,
                d.y as int,
            ) || y > max_i(c.y as int, d.y as int)))) {
                SegmentSegmentIntersection::NoIntersection
            } else {
                SegmentSegmentIntersection::Intersection(Point2D { x: x as i64, y: y as i64 })
            }
        }
    }
}

/// The classification of two segments is exhaustive by type, and its
/// `Equal` verdict holds exactly when the endpoint pairs coincide in
/// either order; a shared stretch is reported only for exactly parallel
/// segments, by two endpoint probes that lie strictly within the other
/// segment.
pub proof fn lemma_classification(s: Segment, o: Segment, infinite: bool)
    ensures
        (spec_intersects_segment(s, o, infinite) is Equal) <==> ((pt_close(s.start, o.start)
            && pt_close(s.end, o.end)) || (pt_close(s.start, o.end) && pt_close(s.end, o.start))),
        spec_intersects_segment(s, o, infinite) matches SegmentSegmentIntersection::Overlap(x, y)
            ==> ((s.end.y - s.start.y) * (o.start.x - o.end.x) - (o.end.y - o.start.y) * (
        s.start.x - s.end.x) == 0) && ((x == s.start && spec_on_segment(x, o.start, o.end)) || (x
            == s.end && spec_on_segment(x, o.start, o.end)) || (x == o.start && spec_on_segment(
            x,
            s.start,
            s.end,
        ))) && ((y == s.end && spec_on_segment(y, o.start, o.end)) || (y == o.start
            && spec_on_segment(y, s.start, s.end)) || (y == o.end && spec_on_segment(
            y,
            s.start,
            s.end,
        ))),
{
}

impl Segment {
    /// Classifies how this segment meets `other`; see
    /// [`spec_intersects_segment`] for the exact cases.
    pub fn intersects_segment(&self, other: &Segment, infinite: bool) -> (r:
        SegmentSegmentIntersection)
        requires
            seg_in_range(*self),
            seg_in_range(*other),
        ensures
            r == spec_intersects_segment(*self, *other, infinite),
    {
        let a = self.start;
        let b = self.end;
        let c = other.start;
        let d = other.end;
        if (a.close_to(&c) && b.close_to(&d)) || (a.close_to(&d) && b.close_to(&c)) {
            return SegmentSegmentIntersection::Equal;
        }
        let a1: i64 = b.y - a.y;
        let b1: i64 = a.x - b.x;
        let c1: i128 = crate::num::cross2(b.x, a.x, b.y, a.y);
        let a2: i64 = d.y - c.y;
        let b2: i64 = c.x - d.x;
        let c2: i128 = crate::num::cross2(d.x, c.x, d.y, c.y);
        let den: i128 = crate::num::cross2(a1, a2, b1, b2);
        if den == 0 {
            let fa: bool = a.on_segment(other);
            let fb: bool = b.on_segment(other);
            let fc: bool = c.on_segment(self);
            let fd: bool = d.on_segment(self);
            if fa {
                if fb {
                    return SegmentSegmentIntersection::Overlap(a, b);
                } else if fc {
                    return SegmentSegmentIntersection::Overlap(a, c);
                } else if fd {
                    return SegmentSegmentIntersection::Overlap(a, d);
                } else {
                    return SegmentSegmentIntersection::Touching(a);
                }
            } else if fb {
                if fc {
                    return SegmentSegmentIntersection::Overlap(b, c);
                } else if fd {
                    return SegmentSegmentIntersection::Overlap(b, d);
                } else {
                    return SegmentSegmentIntersection::Touching(b);
                }
            } else if fc {
                if fd {
                    return SegmentSegmentIntersection::Overlap(c, d);
                } else {
                    return SegmentSegmentIntersection::Touching(c);
                }
            } else if fd {
                return SegmentSegmentIntersection::Touching(d);
            } else {
                return SegmentSegmentIntersection::NoIntersection;
            }
        }
        proof {
            lemma_dot_cross_bound(a1 as int, a2 as int, b1 as int, b2 as int, 2 * (COORD_LIMIT
                as int), 2 * (COORD_LIMIT as int));
            lemma_dot_cross_bound(b.x as int, a.x as int, b.y as int, a.y as int, COORD_LIMIT
                as int, COORD_LIMIT as int);
            lemma_dot_cross_bound(d.x as int, c.x as int, d.y as int, c.y as int, COORD_LIMIT
                as int, COORD_LIMIT as int);
            let l3 = 2 * (COORD_LIMIT as int) * (COORD_LIMIT as int);
            lemma_abs_mul(b1 as int, c2 as int, 2 * (COORD_LIMIT as int), l3);
            lemma_abs_mul(b2 as int, c1 as int, 2 * (COORD_LIMIT as int), l3);
            lemma_abs_mul(a2 as int, c1 as int, 2 * (COORD_LIMIT as int), l3);
            lemma_abs_mul(a1 as int, c2 as int, 2 * (COORD_LIMIT as int), l3);
            assert(2 * (COORD_LIMIT as int) * l3 + 2 * (COORD_LIMIT as int) * l3
                < 0x8000_0000_0000_0000_0000_0000_0000_0000) by (nonlinear_arith)
                requires
                    l3 == 2 * (COORD_LIMIT as int) * (COORD_LIMIT as int),
            ;
        }
        let xn: i128 = (b1 as i128) * c2 - (b2 as i128) * c1;
        let yn: i128 = (a2 as i128) * c1 - (a1 as i128) * c2;
        let x128: i128 = sdiv_round_i128(xn, den);
        let y128: i128 = sdiv_round_i128(yn, den);
        if x128 > (COORD_LIMIT as i128) || x128 < -(COORD_LIMIT as i128) || y128 > (COORD_LIMIT
            as i128) || y128 < -(COORD_LIMIT as i128) {
            return SegmentSegmentIntersection::NoIntersection;
        }
        let x: i64 = x128 as i64;
        let y: i64 = y128 as i64;
        if !infinite {
            let sx: i64 = if a.x - b.x < 0 {
                b.x - a.x
            } else {
                a.x - b.x
            };
            let sy: i64 = if a.y - b.y < 0 {
                b.y - a.y
            } else {
                a.y - b.y
            };
            let ox: i64 = if c.x - d.x < 0 {
                d.x - c.x
            } else {
                c.x - d.x
            };
            let oy: i64 = if c.y - d.y < 0 {
                d.y - c.y
            } else {
                c.y - d.y
            };
            if (sx > EPS && (x < min_c(a.x, b.x) || x > max_c(a.x, b.x))) || (sy > EPS && (y
                < min_c(a.y, b.y) || y > max_c(a.y, b.y))) || (ox > EPS && (x < min_c(c.x, d.x)
                || x > max_c(c.x, d.x))) || (oy > EPS && (y < min_c(c.y, d.y) || y > max_c(
                c.y,
                d.y,
            ))) {
                return SegmentSegmentIntersection::NoIntersection;
            }
        }
        SegmentSegmentIntersection::Intersection(Point2D { x, y })
    }
}

/// An optional machine distance as an optional mathematical integer.
pub open spec fn opt_as_int(o: Option<i64>) -> Option<int> {
    match o {
        Option::None => Option::None,
        Option::Some(v) => Option::Some(v as int),
    }
}

/// Dot product of a point with a direction `(ux, uy)`.
pub open spec fn dotn(p: Point2D, ux: int, uy: int) -> int {
    p.x * ux + p.y * uy
}

/// The smaller of two optional distances; `None` counts as absent, and a
/// tie keeps the first.
pub open spec fn opt_min(a: Option<int>, b: Option<int>) -> Option<int> {
    match b {
        Option::None => a,
        Option::Some(bv) => match a {
            Option::None => Option::Some(bv),
            Option::Some(av) => if bv < av {
                Option::Some(bv)
            } else {
                Option::Some(av)
            },
        },
    }
}

/// The sliding candidate contributed by endpoint `p` of the moving segment
/// (partner endpoint `q`) against the stationary stretch `e` to `f`: a
/// direct span difference when `p` projects onto an endpoint of the
/// stretch, else a point-to-segment distance along `rev`, with a zero
/// distance discarded when the partner probe `q` says the segments part.
pub open spec fn spec_cand_this(
    p: Point2D,
    q: Point2D,
    e: Point2D,
    f: Point2D,
    rev: Point2D,
    ux: int,
    uy: int,
    dot_p: int,
    dot_e: int,
    dot_f: int,
    overlap_u: int,
) -> Option<int> {
    let eu = (EPS as int) * (UNIT as int);
    if abs_i(dot_p - dot_e) <= eu {
        Option::Some(div_round(dd_s(p, e, ux, uy), UNIT as int))
    } else if abs_i(dot_p - dot_f) <= eu {
        Option::Some(div_round(dd_s(p, f, ux, uy), UNIT as int))
    } else if dot_p > min_i(dot_e, dot_f) && dot_p < max_i(dot_e, dot_f) {
        match spec_distance_to_segment(p, e, f, rev, false) {
            Option::None => Option::None,
            Option::Some(dh) => if abs_i(dh) <= EPS {
                match spec_distance_to_segment(q, e, f, rev, true) {
                    Option::Some(db) => if db < 0 || abs_i(db * overlap_u) <= eu {
                        Option::None
                    } else {
                        Option::Some(dh)
                    },
                    Option::None => Option::Some(dh),
                }
            } else {
                Option::Some(dh)
            },
        }
    } else {
        Option::None
    }
}

/// The sliding candidate contributed by endpoint `p` of the stationary
/// segment (partner `q`) against the moving stretch `a` to `b`, along the
/// forward direction `dir`.
pub open spec fn spec_cand_other(
    p: Point2D,
    q: Point2D,
    a: Point2D,
    b: Point2D,
    dir: Point2D,
    dot_p: int,
    ab_min: int,
    ab_max: int,
    overlap_u: int,
) -> Option<int> {
    let eu = (EPS as int) * (UNIT as int);
    if dot_p > ab_min && dot_p < ab_max {
        match spec_distance_to_segment(p, a, b, dir, false) {
            Option::None => Option::None,
            Option::Some(dh) => if abs_i(dh) <= EPS {
                match spec_distance_to_segment(q, a, b, dir, true) {
                    Option::Some(db) => if db < 0 || abs_i(db * overlap_u) <= eu {
                        Option::None
                    } else {
                        Option::Some(dh)
                    },
                    Option::None => Option::Some(dh),
                }
            } else {
                Option::Some(dh)
            },
        }
    } else {
        Option::None
    }
}

/// How far the segment `o` can travel along `g` before it first meets the
/// segment `s`: `None` when the direction is zero, when the two spans
/// beside `g` only touch or miss, or when no endpoint contributes a
/// candidate; `Some(0)` for collinear stretches whose faces oppose;
/// otherwise the least endpoint candidate.
pub open spec fn spec_distance_along(s: Segment, o: Segment, g: Point2D) -> Option<int> {
    if norm2(g) == 0 {
        Option::None
    } else {
        let ux = unit_sx(g);
        let uy = unit_sy(g);
        let nx = uy;
        let ny = -ux;
        let a = s.start;
        let b = s.end;
        let e = o.start;
        let f = o.end;
        let dot_a = dotn(a, nx, ny);
        let dot_b = dotn(b, nx, ny);
        let dot_e = dotn(e, nx, ny);
        let dot_f = dotn(f, nx, ny);
        let ab_min = min_i(dot_a, dot_b);
        let ab_max = max_i(dot_a, dot_b);
        let ef_min = min_i(dot_e, dot_f);
        let ef_max = max_i(dot_e, dot_f);
        let eu = (EPS as int) * (UNIT as int);
        if abs_i(ab_max - ef_min) <= eu || abs_i(ab_min - ef_max) <= eu {
            Option::None
        } else if ab_max < ef_min || ab_min > ef_max {
            Option::None
        } else {
            let overlap_u = if (ab_max > ef_max && ab_min < ef_min) || (ef_max > ab_max && ef_min
                < ab_min) {
                UNIT as int
            } else {
                div_round(
                    (min_i(ab_max, ef_max) - max_i(ab_min, ef_min)) * UNIT,
                    max_i(ab_max, ef_max) - min_i(ab_min, ef_min),
                )
            };
            let cross_abe = (e.y - a.y) * (b.x - a.x) - (e.x - a.x) * (b.y - a.y);
            let cross_abf = (f.y - a.y) * (b.x - a.x) - (f.x - a.x) * (b.y - a.y);
            let len2ab = (b.x - a.x) * (b.x - a.x) + (b.y - a.y) * (b.y - a.y);
            let esl = EPS * sqrt_floor(len2ab);
            if abs_i(cross_abe) <= esl && abs_i(cross_abf) <= esl {
                let abn = Point2D { x: (b.y - a.y) as i64, y: (a.x - b.x) as i64 };
                let efn = Point2D { x: (f.y - e.y) as i64, y: (e.x - f.x) as i64 };
                if norm2(abn) == 0 || norm2(efn) == 0 {
                    Option::None
                } else {
                    let aux = unit_sx(abn);
                    let auy = unit_sy(abn);
                    let eux = unit_sx(efn);
                    let euy = unit_sy(efn);
                    if abs_i(aux * euy - auy * eux) < DIR_EPS && aux * eux + auy * euy < 0 {
                        let norm_dot = aux * ux + auy * uy;
                        if abs_i(norm_dot) <= DIR_EPS {
                            Option::None
                        } else if norm_dot < 0 {
                            Option::Some(0)
                        } else {
                            Option::None
                        }
                    } else {
                        Option::None
                    }
                }
            } else {
                let g_neg = Point2D { x: (-g.x) as i64, y: (-g.y) as i64 };
                let c1 = spec_cand_this(a, b, e, f, g_neg, ux, uy, dot_a, dot_e, dot_f, overlap_u);
                let c2 = spec_cand_this(b, a, e, f, g_neg, ux, uy, dot_b, dot_e, dot_f, overlap_u);
                let c3 = spec_cand_other(e, f, a, b, g, dot_e, ab_min, ab_max, overlap_u);
                let c4 = spec_cand_other(f, e, a, b, g, dot_f, ab_min, ab_max, overlap_u);
                opt_min(opt_min(opt_min(opt_min(Option::None, c1), c2), c3), c4)
            }
        }
    }
}

impl Segment {
    /// How far `other` can travel along `direction` before it first meets
    /// this segment; see [`spec_distance_along`] for the exact cases.
    #[verifier::rlimit(60)]
    pub fn distance_to_segment_along_direction(&self, other: &Segment, direction: &Point2D) -> (r:
        Option<i64>)
        requires
            seg_in_range(*self),
            seg_in_range(*other),
            pt_in_wide(*direction),
        ensures
            r matches Some(v) ==> spec_distance_along(*self, *other, *direction)
                == Option::<int>::Some(v as int),
            r is None ==> spec_distance_along(*self, *other, *direction) is None,
            r matches Some(v) ==> abs_i(v as int) <= DIST_LIMIT,
    {
        proof {
            assert(norm2(*direction) >= 0) by (nonlinear_arith);
        }
        let u = match direction.unit_dir() {
            Some(u) => u,
            Option::None => {
                return Option::None;
            },
        };
        let (ux, uy) = u;
        let nx: i64 = uy;
        let ny: i64 = -ux;
        let a = self.start;
        let b = self.end;
        let e = other.start;
        let f = other.end;
        let dot_a: i128 = dot2(a.x, a.y, nx, ny);
        let dot_b: i128 = dot2(b.x, b.y, nx, ny);
        let dot_e: i128 = dot2(e.x, e.y, nx, ny);
        let dot_f: i128 = dot2(f.x, f.y, nx, ny);
        proof {
            lemma_dot_cross_bound(a.x as int, a.y as int, nx as int, ny as int, COORD_LIMIT as int,
                UNIT as int);
            lemma_dot_cross_bound(b.x as int, b.y as int, nx as int, ny as int, COORD_LIMIT as int,
                UNIT as int);
            lemma_dot_cross_bound(e.x as int, e.y as int, nx as int, ny as int, COORD_LIMIT as int,
                UNIT as int);
            lemma_dot_cross_bound(f.x as int, f.y as int, nx as int, ny as int, COORD_LIMIT as int,
                UNIT as int);
        }
        let ab_min: i128 = if dot_a < dot_b {
            dot_a
        } else {
            dot_b
        };
        let ab_max: i128 = if dot_a < dot_b {
            dot_b
        } else {
            dot_a
        };
        let ef_min: i128 = if dot_e < dot_f {
            dot_e
        } else {
            dot_f
        };
        let ef_max: i128 = if dot_e < dot_f {
            dot_f
        } else {
            dot_e
        };
        let eu: i128 = (EPS as i128) * (UNIT as i128);
        let t1: i128 = ab_max - ef_min;
        let t2: i128 = ab_min - ef_max;
        let at1: i128 = if t1 < 0 {
            -t1
        } else {
            t1
        };
        let at2: i128 = if t2 < 0 {
            -t2
        } else {
            t2
        };
        if at1 <= eu || at2 <= eu {
            return Option::None;
        }
        if ab_max < ef_min || ab_min > ef_max {
            return Option::None;
        }
        let overlap_c: i64 = if (ab_max > ef_max && ab_min < ef_min) || (ef_max > ab_max && ef_min
            < ab_min) {
            UNIT
        } else {
            let mm: i128 = if ab_max < ef_max {
                ab_max
            } else {
                ef_max
            };
            let mx: i128 = if ab_min > ef_min {
                ab_min
            } else {
                ef_min
            };
            let hh: i128 = if ab_max < ef_max {
                ef_max
            } else {
                ab_max
            };
            let ll: i128 = if ab_min < ef_min {
                ab_min
            } else {
                ef_min
            };
            let den: i128 = hh - ll;
            proof {
                let dm: int = 4 * (COORD_LIMIT as int) * (UNIT as int);
                lemma_abs_mul((mm - mx) as int, UNIT as int, 2 * dm, UNIT as int);
                assert(2 * dm * (UNIT as int) < 0x8000_0000_0000_0000_0000_0000_0000_0000)
                    by (nonlinear_arith)
                    requires
                        dm == 4 * (COORD_LIMIT as int) * (UNIT as int),
                ;
                lemma_div_round_bound(((mm - mx) * UNIT) as int, den as int, UNIT as int);
            }
            let ov: i128 = div_round_i128((mm - mx) * (UNIT as i128), den);
            ov as i64
        };
        let dabx: i64 = b.x - a.x;
        let daby: i64 = b.y - a.y;
        let cross_abe: i128 = crate::num::cross2(e.y - a.y, e.x - a.x, daby, dabx);
        let cross_abf: i128 = crate::num::cross2(f.y - a.y, f.x - a.x, daby, dabx);
        let len2ab: i128 = dot2(dabx, daby, dabx, daby);
        proof {
            assert(len2ab >= 0) by (nonlinear_arith)
                requires
                    len2ab == (dabx as int) * (dabx as int) + (daby as int) * (daby as int),
            ;
        }
        let sl: u128 = isqrt_u128(len2ab as u128);
        let esl: i128 = (EPS as i128) * (sl as i128);
        proof {
            lemma_dot_cross_bound((e.y - a.y) as int, (e.x - a.x) as int, daby as int, dabx as int,
                2 * (COORD_LIMIT as int), 2 * (COORD_LIMIT as int));
            lemma_dot_cross_bound((f.y - a.y) as int, (f.x - a.x) as int, daby as int, dabx as int,
                2 * (COORD_LIMIT as int), 2 * (COORD_LIMIT as int));
        }
        let ace: i128 = if cross_abe < 0 {
            -cross_abe
        } else {
            cross_abe
        };
        let acf: i128 = if cross_abf < 0 {
            -cross_abf
        } else {
            cross_abf
        };
        if ace <= esl && acf <= esl {
            let abn = Point2D { x: daby, y: a.x - b.x };
            let efn = Point2D { x: f.y - e.y, y: e.x - f.x };
            proof {
                assert(norm2(abn) >= 0 && norm2(efn) >= 0) by (nonlinear_arith);
            }
            let au = match abn.unit_dir() {
                Some(v) => v,
                Option::None => {
                    return Option::None;
                },
            };
            let eunit = match efn.unit_dir() {
                Some(v) => v,
                Option::None => {
                    return Option::None;
                },
            };
            let (aux, auy) = au;
            let (eux, euy) = eunit;
            let cru: i128 = crate::num::cross2(aux, auy, eux, euy);
            let dotu: i128 = dot2(aux, auy, eux, euy);
            proof {
                lemma_dot_cross_bound(aux as int, auy as int, eux as int, euy as int, UNIT as int,
                    UNIT as int);
            }
            let acru: i128 = if cru < 0 {
                -cru
            } else {
                cru
            };
            if acru < (DIR_EPS as i128) && dotu < 0 {
                let nd: i128 = dot2(aux, auy, ux, uy);
                proof {
                    lemma_dot_cross_bound(aux as int, auy as int, ux as int, uy as int, UNIT as int,
                        UNIT as int);
                }
                let andv: i128 = if nd < 0 {
                    -nd
                } else {
                    nd
                };
                if andv <= (DIR_EPS as i128) {
                    return Option::None;
                }
                if nd < 0 {
                    return Some(0);
                }
                return Option::None;
            }
            return Option::None;
        }
        let g_neg = direction.negated();
        let c1: Option<i64> = self.cand_this(&a, &b, other, &g_neg, ux, uy, dot_a, dot_e, dot_f,
            ef_min, ef_max, overlap_c);
        let c2: Option<i64> = self.cand_this(&b, &a, other, &g_neg, ux, uy, dot_b, dot_e, dot_f,
            ef_min, ef_max, overlap_c);
        let c3: Option<i64> = self.cand_other(&e, &f, direction, dot_e, ab_min, ab_max, overlap_c);
        let c4: Option<i64> = self.cand_other(&f, &e, direction, dot_f, ab_min, ab_max, overlap_c);
        let mut best: Option<i64> = Option::None;
        if let Some(v) = c1 {
            best = Some(v);
        }
        if let Some(v) = c2 {
            best = match best {
                Some(bv) => if v < bv {
                    Some(v)
                } else {
                    Some(bv)
                },
                Option::None => Some(v),
            };
        }
        if let Some(v) = c3 {
            best = match best {
                Some(bv) => if v < bv {
                    Some(v)
                } else {
                    Some(bv)
                },
                Option::None => Some(v),
            };
        }
        if let Some(v) = c4 {
            best = match best {
                Some(bv) => if v < bv {
                    Some(v)
                } else {
                    Some(bv)
                },
                Option::None => Some(v),
            };
        }
        best
    }

    /// One endpoint candidate of the moving segment; matches
    /// [`spec_cand_this`] on this segment's endpoint `p` with partner `q`.
    fn cand_this(&self, p: &Point2D, q: &Point2D, other: &Segment, g_neg: &Point2D, ux: i64,
        uy: i64, dot_p: i128, dot_e: i128, dot_f: i128, ef_min: i128, ef_max: i128, overlap_c: i64)
        -> (r: Option<i64>)
        requires
            pt_in_range(*p),
            pt_in_range(*q),
            seg_in_range(*other),
            pt_in_wide(*g_neg),
            abs_i(ux as int) <= UNIT,
            abs_i(uy as int) <= UNIT,
            dot_p == dotn(*p, uy as int, -ux as int),
            dot_e == dotn(other.start, uy as int, -ux as int),
            dot_f == dotn(other.end, uy as int, -ux as int),
            ef_min == min_i(dot_e as int, dot_f as int),
            ef_max == max_i(dot_e as int, dot_f as int),
            abs_i(dot_p as int) <= 2 * COORD_LIMIT * UNIT,
            abs_i(dot_e as int) <= 2 * COORD_LIMIT * UNIT,
            abs_i(dot_f as int) <= 2 * COORD_LIMIT * UNIT,
            abs_i(overlap_c as int) <= UNIT,
        ensures
            r matches Some(v) ==> spec_cand_this(*p, *q, other.start, other.end, *g_neg, ux as int,
                uy as int, dot_p as int, dot_e as int, dot_f as int, overlap_c as int)
                == Option::<int>::Some(v as int),
            r is None ==> spec_cand_this(*p, *q, other.start, other.end, *g_neg, ux as int,
                uy as int, dot_p as int, dot_e as int, dot_f as int, overlap_c as int) is None,
            r matches Some(v) ==> abs_i(v as int) <= DIST_LIMIT,
    {
        let e = other.start;
        let f = other.end;
        let eu: i128 = (EPS as i128) * (UNIT as i128);
        let de: i128 = dot_p - dot_e;
        let ade: i128 = if de < 0 {
            -de
        } else {
            de
        };
        let df: i128 = dot_p - dot_f;
        let adf: i128 = if df < 0 {
            -df
        } else {
            df
        };
        if ade <= eu {
            let dd: i128 = dot2(p.x - e.x, p.y - e.y, ux, uy);
            proof {
                lemma_dot_cross_bound((p.x - e.x) as int, (p.y - e.y) as int, ux as int, uy as int,
                    2 * (COORD_LIMIT as int), UNIT as int);
                lemma_div_round_bound(dd as int, UNIT as int, 4 * (COORD_LIMIT as int));
            }
            let v: i128 = div_round_i128(dd, UNIT as i128);
            return Some(v as i64);
        }
        if adf <= eu {
            let dd: i128 = dot2(p.x - f.x, p.y - f.y, ux, uy);
            proof {
                lemma_dot_cross_bound((p.x - f.x) as int, (p.y - f.y) as int, ux as int, uy as int,
                    2 * (COORD_LIMIT as int), UNIT as int);
                lemma_div_round_bound(dd as int, UNIT as int, 4 * (COORD_LIMIT as int));
            }
            let v: i128 = div_round_i128(dd, UNIT as i128);
            return Some(v as i64);
        }
        if dot_p > ef_min && dot_p < ef_max {
            let d0 = p.distance_to_segment(other, g_neg, false);
            match d0 {
                Option::None => Option::None,
                Some(dh) => {
                    let adh: i64 = if dh < 0 {
                        -dh
                    } else {
                        dh
                    };
                    if adh <= EPS {
                        let db = q.distance_to_segment(other, g_neg, true);
                        match db {
                            Some(dbv) => {
                                let prod: i128 = mul_i64(dbv, overlap_c);
                                proof {
                                    lemma_abs_mul(dbv as int, overlap_c as int, DIST_LIMIT as int,
                                        UNIT as int);
                                }
                                let aprod: i128 = if prod < 0 {
                                    -prod
                                } else {
                                    prod
                                };
                                if dbv < 0 || aprod <= eu {
                                    Option::None
                                } else {
                                    Some(dh)
                                }
                            },
                            Option::None => Some(dh),
                        }
                    } else {
                        Some(dh)
                    }
                },
            }
        } else {
            Option::None
        }
    }

    /// One endpoint candidate of the stationary segment; matches
    /// [`spec_cand_other`] on the other segment's endpoint `p` with
    /// partner `q`, probed against this segment.
    fn cand_other(&self, p: &Point2D, q: &Point2D, dir: &Point2D, dot_p: i128, ab_min: i128,
        ab_max: i128, overlap_c: i64) -> (r: Option<i64>)
        requires
            pt_in_range(*p),
            pt_in_range(*q),
            seg_in_range(*self),
            pt_in_wide(*dir),
            abs_i(overlap_c as int) <= UNIT,
        ensures
            r matches Some(v) ==> spec_cand_other(*p, *q, self.start, self.end, *dir, dot_p as int,
                ab_min as int, ab_max as int, overlap_c as int) == Option::<int>::Some(v as int),
            r is None ==> spec_cand_other(*p, *q, self.start, self.end, *dir, dot_p as int,
                ab_min as int, ab_max as int, overlap_c as int) is None,
            r matches Some(v) ==> abs_i(v as int) <= DIST_LIMIT,
    {
        let eu: i128 = (EPS as i128) * (UNIT as i128);
        if dot_p > ab_min && dot_p < ab_max {
            let d0 = p.distance_to_segment(self, dir, false);
            match d0 {
                Option::None => Option::None,
                Some(dh) => {
                    let adh: i64 = if dh < 0 {
                        -dh
                    } else {
                        dh
                    };
                    if adh <= EPS {
                        let db = q.distance_to_segment(self, dir, true);
                        match db {
                            Some(dbv) => {
                                let prod: i128 = mul_i64(dbv, overlap_c);
                                proof {
                                    lemma_abs_mul(dbv as int, overlap_c as int, DIST_LIMIT as int,
                                        UNIT as int);
                                }
                                let aprod: i128 = if prod < 0 {
                                    -prod
                                } else {
                                    prod
                                };
                                if dbv < 0 || aprod <= eu {
                                    Option::None
                                } else {
                                    Some(dh)
                                }
                            },
                            Option::None => Some(dh),
                        }
                    } else {
                        Some(dh)
                    }
                },
            }
        } else {
            Option::None
        }
    }
}

/// The intersection points one classification contributes: one for a
/// touching or crossing, two for a shared stretch, none otherwise.
pub open spec fn points_of_hit(h: SegmentSegmentIntersection) -> Seq<Point2D> {
    match h {
        SegmentSegmentIntersection::NoIntersection => Seq::empty(),
        SegmentSegmentIntersection::Equal => Seq::empty(),
        SegmentSegmentIntersection::Touching(p) => seq![p],
        SegmentSegmentIntersection::Intersection(p) => seq![p],
        SegmentSegmentIntersection::Overlap(p, q) => seq![p, q],
    }
}

/// Every point a classification of two in-range segments reports is in
/// the working range.
pub proof fn lemma_hit_points_in_range(s: Segment, o: Segment, infinite: bool)
    requires
        seg_in_range(s),
        seg_in_range(o),
    ensures
        forall|k: int|
            0 <= k < points_of_hit(spec_intersects_segment(s, o, infinite)).len() ==> pt_in_range(
                #[trigger] points_of_hit(spec_intersects_segment(s, o, infinite))[k],
            ),
{
}

/// All classification points of the segment against the polygon's edges
/// from edge `i` on, in edge order.
pub open spec fn collect_hits(s: Segment, poly: crate::polygon::Polygon, i: int) -> Seq<Point2D>
    decreases poly.vertices.len() - i,
{
    if i < 0 || i >= poly.vertices.len() {
        Seq::empty()
    } else {
        points_of_hit(spec_intersects_segment(s, crate::polygon::tseg(poly, i), false))
            + collect_hits(s, poly, i + 1)
    }
}

/// The ordering key of an intersection point: the projection of the point
/// from the segment's start onto the segment's own direction.
pub open spec fn seg_key(s: Segment, p: Point2D) -> int {
    (p.x - s.start.x) * (s.end.x - s.start.x) + (p.y - s.start.y) * (s.end.y - s.start.y)
}

/// Stable sorted insertion: `p` goes before the first strictly larger key.
pub open spec fn insert_sorted(s: Segment, l: Seq<Point2D>, p: Point2D) -> Seq<Point2D>
    decreases l.len(),
{
    if l.len() == 0 {
        seq![p]
    } else if seg_key(s, p) < seg_key(s, l[0]) {
        seq![p] + l
    } else {
        seq![l[0]] + insert_sorted(s, l.drop_first(), p)
    }
}

/// The stable sort of the points from index `k` on, by repeated insertion
/// into the accumulator.
pub open spec fn sort_hits(s: Segment, l: Seq<Point2D>, k: int, acc: Seq<Point2D>) -> Seq<Point2D>
    decreases l.len() - k,
{
    if k < 0 || k >= l.len() {
        acc
    } else {
        sort_hits(s, l, k + 1, insert_sorted(s, acc, l[k]))
    }
}

/// Keeps the first of each run of approximately equal consecutive points:
/// a point close to the last kept one is dropped.
pub open spec fn dedup_close(l: Seq<Point2D>, i: int, acc: Seq<Point2D>) -> Seq<Point2D>
    decreases l.len() - i,
{
    if i < 0 || i >= l.len() {
        acc
    } else {
        let keep = acc.len() == 0 || !pt_close(l[i], acc.last());
        dedup_close(
            l,
            i + 1,
            if keep {
                acc.push(l[i])
            } else {
                acc
            },
        )
    }
}

/// The intersection points of a segment with a polygon: every classified
/// contact against every edge, sorted by distance from the segment's
/// start along its own direction (stably), with consecutive points within
/// tolerance of the last kept point removed.
pub open spec fn spec_seg_poly_intersections(s: Segment, poly: crate::polygon::Polygon) -> Seq<
    Point2D,
> {
    dedup_close(sort_hits(s, collect_hits(s, poly, 0), 0, Seq::empty()), 0, Seq::empty())
}

/// Inserting at the position after all keys at most the new key, and
/// before a strictly larger key (or the end), is the stable insertion.
proof fn lemma_insert_sorted_at(s: Segment, l: Seq<Point2D>, p: Point2D, idx: int)
    requires
        0 <= idx <= l.len(),
        forall|j: int| 0 <= j < idx ==> seg_key(s, #[trigger] l[j]) <= seg_key(s, p),
        idx < l.len() ==> seg_key(s, p) < seg_key(s, l[idx]),
    ensures
        insert_sorted(s, l, p) == l.take(idx) + seq![p] + l.skip(idx),
    decreases idx,
{
    if l.len() == 0 {
        assert(insert_sorted(s, l, p) =~= l.take(idx) + seq![p] + l.skip(idx));
    } else if idx == 0 {
        assert(insert_sorted(s, l, p) =~= l.take(0) + seq![p] + l.skip(0));
    } else {
        lemma_insert_sorted_at(s, l.drop_first(), p, idx - 1);
        assert(l.drop_first().take(idx - 1) =~= l.take(idx).drop_first());
        assert(l.drop_first().skip(idx - 1) =~= l.skip(idx));
        assert(seq![l[0]] + (l.drop_first().take(idx - 1) + seq![p] + l.drop_first().skip(idx - 1))
            =~= l.take(idx) + seq![p] + l.skip(idx));
    }
}

impl Segment {
    /// The intersection points of this segment with the polygon's
    /// boundary, ordered along the segment and with near-duplicates
    /// removed; see [`spec_seg_poly_intersections`].
    pub fn intersects_polygon(&self, poly: &crate::polygon::Polygon) -> (r: Vec<Point2D>)
        requires
            seg_in_range(*self),
            crate::polygon::poly_wf(*poly),
        ensures
            r@ == spec_seg_poly_intersections(*self, *poly),
            forall|k: int| 0 <= k < r@.len() ==> pt_in_range(#[trigger] r@[k]),
    {
        let n = poly.length();
        let mut hits: Vec<Point2D> = Vec::new();
        let mut i: usize = 0;
        while i < n
            invariant
                0 <= i <= n,
                n == poly.vertices.len(),
                seg_in_range(*self),
                crate::polygon::poly_wf(*poly),
                hits@ + collect_hits(*self, *poly, i as int) == collect_hits(*self, *poly, 0),
                forall|k: int| 0 <= k < hits@.len() ==> pt_in_range(#[trigger] hits@[k]),
            decreases n - i,
        {
            let edge = poly.segment(i);
            let ghost hits_pre = hits@;
            let h = self.intersects_segment(&edge, false);
            proof {
                lemma_hit_points_in_range(*self, edge, false);
            }
            match h {
                SegmentSegmentIntersection::Touching(p) => {
                    hits.push(p);
                },
                SegmentSegmentIntersection::Intersection(p) => {
                    hits.push(p);
                },
                SegmentSegmentIntersection::Overlap(p, q) => {
                    hits.push(p);
                    hits.push(q);
                },
                _ => {},
            }
            proof {
                assert(hits@ =~= hits_pre + points_of_hit(
                    spec_intersects_segment(*self, edge, false),
                ));
                assert(hits_pre + points_of_hit(spec_intersects_segment(*self, edge, false))
                    + collect_hits(*self, *poly, i + 1) =~= hits_pre + (points_of_hit(
                    spec_intersects_segment(*self, edge, false),
                ) + collect_hits(*self, *poly, i + 1)));
            }
            i = i + 1;
        }
        let nh = hits.len();
        let mut sorted: Vec<Point2D> = Vec::new();
        let mut k: usize = 0;
        while k < nh
            invariant
                0 <= k <= nh,
                nh == hits@.len(),
                seg_in_range(*self),
                sort_hits(*self, hits@, k as int, sorted@) == sort_hits(
                    *self,
                    hits@,
                    0,
                    Seq::empty(),
                ),
                forall|k2: int| 0 <= k2 < hits@.len() ==> pt_in_range(#[trigger] hits@[k2]),
                forall|k2: int| 0 <= k2 < sorted@.len() ==> pt_in_range(#[trigger] sorted@[k2]),
            decreases nh - k,
        {
            let p = hits[k];
            let kp: i128 = dot2(p.x - self.start.x, p.y - self.start.y, self.end.x - self.start.x,
                self.end.y - self.start.y);
            let ns = sorted.len();
            let mut idx: usize = 0;
            let mut found: bool = false;
            while !found && idx < ns
                invariant
                    0 <= idx <= ns,
                    ns == sorted@.len(),
                    seg_in_range(*self),
                    pt_in_range(p),
                    kp == seg_key(*self, p),
                    forall|k2: int| 0 <= k2 < sorted@.len() ==> pt_in_range(#[trigger] sorted@[k2]),
                    forall|j: int| 0 <= j < idx ==> seg_key(*self, #[trigger] sorted@[j]) <= seg_key(
                        *self,
                        p,
                    ),
                    found ==> idx < ns && seg_key(*self, p) < seg_key(*self, sorted@[idx as int]),
                decreases (if found {
                    0int
                } else {
                    1int
                }), ns - idx,
            {
                let q = sorted[idx];
                let kq: i128 = dot2(q.x - self.start.x, q.y - self.start.y, self.end.x
                    - self.start.x, self.end.y - self.start.y);
                if kp < kq {
                    found = true;
                } else {
                    idx = idx + 1;
                }
            }
            let ghost sorted_pre = sorted@;
            sorted.insert(idx, p);
            proof {
                lemma_insert_sorted_at(*self, sorted_pre, p, idx as int);
                assert(sorted@ =~= sorted_pre.take(idx as int) + seq![p] + sorted_pre.skip(
                    idx as int,
                ));
            }
            k = k + 1;
        }
        let mut out: Vec<Point2D> = Vec::new();
        let mut d: usize = 0;
        let nd = sorted.len();
        while d < nd
            invariant
                0 <= d <= nd,
                nd == sorted@.len(),
                seg_in_range(*self),
                dedup_close(sorted@, d as int, out@) == dedup_close(sorted@, 0, Seq::empty()),
                forall|k2: int| 0 <= k2 < sorted@.len() ==> pt_in_range(#[trigger] sorted@[k2]),
                forall|k2: int| 0 <= k2 < out@.len() ==> pt_in_range(#[trigger] out@[k2]),
            decreases nd - d,
        {
            let p = sorted[d];
            let keep: bool = if out.len() == 0 {
                true
            } else {
                !p.close_to(&out[out.len() - 1])
            };
            if keep {
                out.push(p);
            }
            d = d + 1;
        }
        out
    }
}

} // verus!
