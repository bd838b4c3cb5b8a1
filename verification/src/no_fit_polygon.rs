//! The no-fit-polygon engine: the orbiting algorithm and its start-point
//! search.
//!
//! The NFP of a stationary polygon and an orbiting polygon is traced by
//! sliding the orbiting polygon around the stationary one: at each step the
//! touching vertex/edge pairs yield candidate translation vectors, the
//! feasible slide along each is measured, and the longest feasible slide is
//! taken, until the trace returns to its start. The engine works in the
//! stationary polygon's frame: [`Polygon::no_fit_polygon`] hands zero-offset
//! working copies to [`nfp_engine`] and translates the contours back.

use vstd::prelude::*;

use crate::num::{abs_i, div_round, div_round_i128, dot2, isqrt_u128, lemma_div_round_bound,
    sqrt_floor};
use crate::point::{norm2, pt_close, pt_in_range, spec_on_segment, unit_sx, unit_sy,
    Point2D};
use crate::polygon::{poly_wf, rv, spec_in_polygon, spec_intersects_polygon, spec_project_distance,
    spec_slide_distance, tseg, tv, with_offset, wrap, Polygon};
use crate::segment::opt_min;
use crate::{COORD_LIMIT, DIR_EPS, DIST_LIMIT, EPS, OFFSET_MAX, UNIT, VERT_MAX};

verus! {

/// Which polygon a candidate translation vector came from.
#[derive(Clone, Copy, Debug, PartialEq, Eq, Structural)]
pub enum PolygonSource {
    Stationary,
    Orbiting,
}

/// A candidate translation vector with its provenance: the vertex indices
/// it connects, in the polygon named by `source`.
#[derive(Clone, Copy, Debug, PartialEq, Eq, Structural)]
pub struct CandVec {
    pub point: Point2D,
    pub start: usize,
    pub end: usize,
    pub source: PolygonSource,
}

/// Componentwise difference of two points.
pub open spec fn pt_sub(p: Point2D, q: Point2D) -> Point2D {
    Point2D { x: (p.x - q.x) as i64, y: (p.y - q.y) as i64 }
}

/// Componentwise sum of two points.
pub open spec fn pt_add(p: Point2D, q: Point2D) -> Point2D {
    Point2D { x: (p.x + q.x) as i64, y: (p.y + q.y) as i64 }
}

/// The index that precedes `i` in the cyclic vertex order.
pub open spec fn prev_idx(p: Polygon, i: int) -> int {
    if i == 0 {
        p.vertices.len() - 1
    } else {
        i - 1
    }
}

/// The candidate translation vectors contributed by the edge pair
/// `(i, j)`: four for coincident edge starts (the stationary polygon's two
/// adjacent edges, and the orbiting polygon's two adjacent edges inverted),
/// two when one polygon's edge start lies on the other's edge.
#[verifier::opaque]
pub open spec fn vecs_of_pair(a: Polygon, b: Polygon, i: int, j: int) -> Seq<CandVec> {
    let sa = tseg(a, i);
    let sb = tseg(b, j);
    let ip = prev_idx(a, i);
    let ie = wrap(a, i);
    let jp = prev_idx(b, j);
    let je = wrap(b, j);
    if pt_close(sa.start, sb.start) {
        seq![
            CandVec {
                point: pt_sub(tv(a, ip), tv(a, i)),
                start: i as usize,
                end: ip as usize,
                source: PolygonSource::Stationary,
            },
            CandVec {
                point: pt_sub(tv(a, ie), tv(a, i)),
                start: i as usize,
                end: ie as usize,
                source: PolygonSource::Stationary,
            },
            CandVec {
                point: pt_sub(tv(b, j), tv(b, jp)),
                start: jp as usize,
                end: j as usize,
                source: PolygonSource::Orbiting,
            },
            CandVec {
                point: pt_sub(tv(b, j), tv(b, je)),
                start: je as usize,
                end: j as usize,
                source: PolygonSource::Orbiting,
            },
        ]
    } else if spec_on_segment(sb.start, sa.start, sa.end) {
        seq![
            CandVec {
                point: pt_sub(tv(a, ie), tv(b, j)),
                start: i as usize,
                end: ie as usize,
                source: PolygonSource::Stationary,
            },
            CandVec {
                point: pt_sub(tv(a, i), tv(b, j)),
                start: ie as usize,
                end: i as usize,
                source: PolygonSource::Stationary,
            },
        ]
    } else if spec_on_segment(sa.start, sb.start, sb.end) {
        seq![
            CandVec {
                point: pt_sub(tv(a, i), tv(b, je)),
                start: j as usize,
                end: je as usize,
                source: PolygonSource::Orbiting,
            },
            CandVec {
                point: pt_sub(tv(a, i), tv(b, j)),
                start: je as usize,
                end: j as usize,
                source: PolygonSource::Orbiting,
            },
        ]
    } else {
        Seq::empty()
    }
}

/// All candidate translation vectors of the edge pairs from `(i, j)` on,
/// in pair order.
pub open spec fn vectors_from(a: Polygon, b: Polygon, i: int, j: int) -> Seq<CandVec>
    decreases a.vertices.len() - i, b.vertices.len() + 1 - j,
{
    if i < 0 || j < 0 || i >= a.vertices.len() {
        Seq::empty()
    } else if j >= b.vertices.len() {
        vectors_from(a, b, i + 1, 0)
    } else {
        vecs_of_pair(a, b, i, j) + vectors_from(a, b, i, j + 1)
    }
}

/// The stationary polygon's visited marks after recording the touchings of
/// the edge pairs from `(i, j)` on.
pub open spec fn marks_from(a: Polygon, b: Polygon, marks: Seq<bool>, i: int, j: int) -> Seq<bool>
    decreases a.vertices.len() - i, b.vertices.len() + 1 - j,
{
    if i < 0 || j < 0 || i >= a.vertices.len() {
        marks
    } else if j >= b.vertices.len() {
        marks_from(a, b, marks, i + 1, 0)
    } else {
        let sa = tseg(a, i);
        let sb = tseg(b, j);
        let marks2 = if pt_close(sa.start, sb.start) {
            marks.update(i, true)
        } else if spec_on_segment(sb.start, sa.start, sa.end) {
            marks.update(wrap(a, i), true)
        } else if spec_on_segment(sa.start, sb.start, sb.end) {
            marks.update(i, true)
        } else {
            marks
        };
        marks_from(a, b, marks2, i, j + 1)
    }
}

/// Every candidate vector is a difference of transformed vertices, with
/// provenance indices in range.
pub open spec fn cand_ok(a: Polygon, b: Polygon, v: CandVec) -> bool {
    &&& abs_i(v.point.x as int) <= 2 * COORD_LIMIT
    &&& abs_i(v.point.y as int) <= 2 * COORD_LIMIT
    &&& (v.source == PolygonSource::Stationary ==> v.start < a.vertices.len() && v.end
        < a.vertices.len())
    &&& (v.source == PolygonSource::Orbiting ==> v.start < b.vertices.len() && v.end
        < b.vertices.len())
}


/// Handles one edge pair of the touching scan: appends its candidate
/// vectors and records its stationary mark.
fn pair_vectors(a: &Polygon, b: &Polygon, i: usize, j: usize, out: &mut Vec<CandVec>,
    marks_a: &mut Vec<bool>)
    requires
        poly_wf(*a),
        poly_wf(*b),
        i < a.vertices.len(),
        j < b.vertices.len(),
        old(marks_a).len() == a.vertices.len(),
    ensures
        final(out)@ == old(out)@ + vecs_of_pair(*a, *b, i as int, j as int),
        final(marks_a).len() == a.vertices.len(),
        marks_from(*a, *b, old(marks_a)@, i as int, j as int) == marks_from(
            *a,
            *b,
            final(marks_a)@,
            i as int,
            j + 1,
        ),
        forall|k: int|
            old(out)@.len() <= k < final(out)@.len() ==> cand_ok(*a, *b, #[trigger] final(out)@[k]),
{
    let sa = a.segment(i);
    let sb = b.segment(j);
    if sa.start.close_to(&sb.start) {
        pair_vectors_coincident(a, b, i, j, out, marks_a);
    } else if sb.start.on_segment(&sa) {
        pair_vectors_on_stationary(a, b, i, j, out, marks_a);
    } else if sa.start.on_segment(&sb) {
        pair_vectors_on_orbiting(a, b, i, j, out, marks_a);
    } else {
        proof {
            reveal(vecs_of_pair);
            assert(out@ =~= out@ + vecs_of_pair(*a, *b, i as int, j as int));
        }
    }
}

/// The four candidate vectors of coincident edge starts.
#[verifier::rlimit(100)]
fn pair_vectors_coincident(a: &Polygon, b: &Polygon, i: usize, j: usize, out: &mut Vec<CandVec>,
    marks_a: &mut Vec<bool>)
    requires
        poly_wf(*a),
        poly_wf(*b),
        i < a.vertices.len(),
        j < b.vertices.len(),
        old(marks_a).len() == a.vertices.len(),
        pt_close(tseg(*a, i as int).start, tseg(*b, j as int).start),
    ensures
        final(out)@ == old(out)@ + vecs_of_pair(*a, *b, i as int, j as int),
        final(marks_a).len() == a.vertices.len(),
        marks_from(*a, *b, old(marks_a)@, i as int, j as int) == marks_from(
            *a,
            *b,
            final(marks_a)@,
            i as int,
            j + 1,
        ),
        forall|k: int|
            old(out)@.len() <= k < final(out)@.len() ==> cand_ok(*a, *b, #[trigger] final(out)@[k]),
{
    proof {
        reveal(vecs_of_pair);
    }
    let n = a.vertices.len();
    let m = b.vertices.len();
    let ghost out_before = out@;
    let ip: usize = if i == 0 {
        n - 1
    } else {
        i - 1
    };
    let ie: usize = if i + 1 == n {
        0
    } else {
        i + 1
    };
    let jp: usize = if j == 0 {
        m - 1
    } else {
        j - 1
    };
    let je: usize = if j + 1 == m {
        0
    } else {
        j + 1
    };
    let vs = a.get_vertex(i);
    let pvs = a.get_vertex(ip);
    let nvs = a.get_vertex(ie);
    let vo = b.get_vertex(j);
    let pvo = b.get_vertex(jp);
    let nvo = b.get_vertex(je);
    out.push(CandVec {
        point: Point2D { x: pvs.x - vs.x, y: pvs.y - vs.y },
        start: i,
        end: ip,
        source: PolygonSource::Stationary,
    });
    out.push(CandVec {
        point: Point2D { x: nvs.x - vs.x, y: nvs.y - vs.y },
        start: i,
        end: ie,
        source: PolygonSource::Stationary,
    });
    out.push(CandVec {
        point: Point2D { x: vo.x - pvo.x, y: vo.y - pvo.y },
        start: jp,
        end: j,
        source: PolygonSource::Orbiting,
    });
    out.push(CandVec {
        point: Point2D { x: vo.x - nvo.x, y: vo.y - nvo.y },
        start: je,
        end: j,
        source: PolygonSource::Orbiting,
    });
    marks_a.set(i, true);
    proof {
        assert(out@ =~= out_before + vecs_of_pair(*a, *b, i as int, j as int));
    }
}

/// The two candidate vectors when the orbiting edge's start lies on the
/// stationary edge.
#[verifier::rlimit(100)]
fn pair_vectors_on_stationary(a: &Polygon, b: &Polygon, i: usize, j: usize, out: &mut Vec<CandVec>,
    marks_a: &mut Vec<bool>)
    requires
        poly_wf(*a),
        poly_wf(*b),
        i < a.vertices.len(),
        j < b.vertices.len(),
        old(marks_a).len() == a.vertices.len(),
        !pt_close(tseg(*a, i as int).start, tseg(*b, j as int).start),
        spec_on_segment(tseg(*b, j as int).start, tseg(*a, i as int).start, tseg(*a, i as int).end),
    ensures
        final(out)@ == old(out)@ + vecs_of_pair(*a, *b, i as int, j as int),
        final(marks_a).len() == a.vertices.len(),
        marks_from(*a, *b, old(marks_a)@, i as int, j as int) == marks_from(
            *a,
            *b,
            final(marks_a)@,
            i as int,
            j + 1,
        ),
        forall|k: int|
            old(out)@.len() <= k < final(out)@.len() ==> cand_ok(*a, *b, #[trigger] final(out)@[k]),
{
    proof {
        reveal(vecs_of_pair);
    }
    let n = a.vertices.len();
    let ghost out_before = out@;
    let ie: usize = if i + 1 == n {
        0
    } else {
        i + 1
    };
    let vs = a.get_vertex(ie);
    let pvs = a.get_vertex(i);
    let vo = b.get_vertex(j);
    out.push(CandVec {
        point: Point2D { x: vs.x - vo.x, y: vs.y - vo.y },
        start: i,
        end: ie,
        source: PolygonSource::Stationary,
    });
    out.push(CandVec {
        point: Point2D { x: pvs.x - vo.x, y: pvs.y - vo.y },
        start: ie,
        end: i,
        source: PolygonSource::Stationary,
    });
    marks_a.set(ie, true);
    proof {
        assert(out@ =~= out_before + vecs_of_pair(*a, *b, i as int, j as int));
    }
}

/// The two candidate vectors when the stationary edge's start lies on the
/// orbiting edge.
#[verifier::rlimit(100)]
fn pair_vectors_on_orbiting(a: &Polygon, b: &Polygon, i: usize, j: usize, out: &mut Vec<CandVec>,
    marks_a: &mut Vec<bool>)
    requires
        poly_wf(*a),
        poly_wf(*b),
        i < a.vertices.len(),
        j < b.vertices.len(),
        old(marks_a).len() == a.vertices.len(),
        !pt_close(tseg(*a, i as int).start, tseg(*b, j as int).start),
        !spec_on_segment(tseg(*b, j as int).start, tseg(*a, i as int).start, tseg(
            *a,
            i as int,
        ).end),
        spec_on_segment(tseg(*a, i as int).start, tseg(*b, j as int).start, tseg(*b, j as int).end),
    ensures
        final(out)@ == old(out)@ + vecs_of_pair(*a, *b, i as int, j as int),
        final(marks_a).len() == a.vertices.len(),
        marks_from(*a, *b, old(marks_a)@, i as int, j as int) == marks_from(
            *a,
            *b,
            final(marks_a)@,
            i as int,
            j + 1,
        ),
        forall|k: int|
            old(out)@.len() <= k < final(out)@.len() ==> cand_ok(*a, *b, #[trigger] final(out)@[k]),
{
    proof {
        reveal(vecs_of_pair);
    }
    let m = b.vertices.len();
    let ghost out_before = out@;
    let je: usize = if j + 1 == m {
        0
    } else {
        j + 1
    };
    let vs = a.get_vertex(i);
    let vo = b.get_vertex(je);
    let pvo = b.get_vertex(j);
    out.push(CandVec {
        point: Point2D { x: vs.x - vo.x, y: vs.y - vo.y },
        start: j,
        end: je,
        source: PolygonSource::Orbiting,
    });
    out.push(CandVec {
        point: Point2D { x: vs.x - pvo.x, y: vs.y - pvo.y },
        start: je,
        end: j,
        source: PolygonSource::Orbiting,
    });
    marks_a.set(i, true);
    proof {
        assert(out@ =~= out_before + vecs_of_pair(*a, *b, i as int, j as int));
    }
}

/// Collects the candidate translation vectors of every touching edge pair
/// of `a` (stationary, at its own offset) and `b` (orbiting, at its
/// current offset), and marks the stationary vertices they touch.
#[verifier::rlimit(100)]
fn collect_vectors(a: &Polygon, b: &Polygon, marks_a: &mut Vec<bool>) -> (r: Vec<CandVec>)
    requires
        poly_wf(*a),
        poly_wf(*b),
        old(marks_a).len() == a.vertices.len(),
    ensures
        r@ == vectors_from(*a, *b, 0, 0),
        final(marks_a)@ == marks_from(*a, *b, old(marks_a)@, 0, 0),
        final(marks_a).len() == a.vertices.len(),
        forall|k: int| 0 <= k < r@.len() ==> cand_ok(*a, *b, #[trigger] r@[k]),
{
    let n = a.vertices.len();
    let m = b.vertices.len();
    let mut out: Vec<CandVec> = Vec::new();
    let mut i: usize = 0;
    while i < n
        invariant
            0 <= i <= n,
            n == a.vertices.len(),
            m == b.vertices.len(),
            poly_wf(*a),
            poly_wf(*b),
            marks_a.len() == n,
            out@ + vectors_from(*a, *b, i as int, 0) == vectors_from(*a, *b, 0, 0),
            marks_from(*a, *b, marks_a@, i as int, 0) == marks_from(*a, *b, old(marks_a)@, 0, 0),
            forall|k: int| 0 <= k < out@.len() ==> cand_ok(*a, *b, #[trigger] out@[k]),
        decreases n - i,
    {
        let mut j: usize = 0;
        while j < m
            invariant
                0 <= i < n,
                0 <= j <= m,
                n == a.vertices.len(),
                m == b.vertices.len(),
                poly_wf(*a),
                poly_wf(*b),
                marks_a.len() == n,
                out@ + vectors_from(*a, *b, i as int, j as int) == vectors_from(*a, *b, 0, 0),
                marks_from(*a, *b, marks_a@, i as int, j as int) == marks_from(*a, *b, old(
                    marks_a)@, 0, 0),
                forall|k: int| 0 <= k < out@.len() ==> cand_ok(*a, *b, #[trigger] out@[k]),
            decreases m - j,
        {
            pair_vectors(a, b, i, j, &mut out, marks_a);
            proof {
                assert(out@ + vectors_from(*a, *b, i as int, j + 1) =~= vectors_from(*a, *b, 0, 0));
            }
            j = j + 1;
        }
        i = i + 1;
    }
    out
}

/// One step of choosing the translation: from the candidate vectors at
/// index `k` on, the candidate with the largest feasible slide so far.
/// A zero vector is skipped; a vector that reverses the previous step
/// without a genuine corner (opposing dot product and near-parallel
/// directions) is skipped; each remaining vector's feasible slide is its
/// sliding distance on the polygons, clamped to the vector's own length
/// when absent or longer.
pub open spec fn select_from(
    a: Polygon,
    b: Polygon,
    vecs: Seq<CandVec>,
    k: int,
    prev: Option<CandVec>,
    best: Option<CandVec>,
    max_d: int,
) -> (Option<CandVec>, int)
    decreases vecs.len() - k,
{
    if k < 0 || k >= vecs.len() {
        (best, max_d)
    } else {
        let v = vecs[k];
        if v.point.x == 0 && v.point.y == 0 {
            select_from(a, b, vecs, k + 1, prev, best, max_d)
        } else {
            let skip = match prev {
                Option::Some(pv) => {
                    if pv.point.x * v.point.x + pv.point.y * v.point.y < 0 {
                        abs_i(
                            unit_sy(v.point) * unit_sx(pv.point) - unit_sx(v.point) * unit_sy(
                                pv.point,
                            ),
                        ) < DIR_EPS
                    } else {
                        false
                    }
                },
                Option::None => false,
            };
            if skip {
                select_from(a, b, vecs, k + 1, prev, best, max_d)
            } else {
                let d_opt = spec_slide_distance(a, b, v.point, true);
                let vd2 = norm2(v.point);
                let d = match d_opt {
                    Option::None => sqrt_floor(vd2),
                    Option::Some(dv) => if dv * dv > vd2 {
                        sqrt_floor(vd2)
                    } else {
                        dv
                    },
                };
                if d > max_d {
                    select_from(a, b, vecs, k + 1, prev, Option::Some(v), d)
                } else {
                    select_from(a, b, vecs, k + 1, prev, best, max_d)
                }
            }
        }
    }
}

impl Polygon {
    /// Chooses the translation among the candidate vectors; matches
    /// [`select_from`] started with no choice and distance zero.
    fn select_translation(&self, other: &Polygon, vecs: &Vec<CandVec>, prev: &Option<CandVec>) -> (r:
        (Option<CandVec>, i64))
        requires
            poly_wf(*self),
            poly_wf(*other),
            forall|k: int| 0 <= k < vecs@.len() ==> cand_ok(*self, *other, #[trigger] vecs@[k]),
            prev matches Some(pv) ==> abs_i(pv.point.x as int) <= 2 * COORD_LIMIT && abs_i(
                pv.point.y as int) <= 2 * COORD_LIMIT && !(pv.point.x == 0 && pv.point.y == 0),
        ensures
            (match r.0 {
                Option::None => Option::<CandVec>::None,
                Some(v) => Some(v),
            }, r.1 as int) == select_from(*self, *other, vecs@, 0, *prev, Option::None, 0),
            r.0 matches Some(v) ==> cand_ok(*self, *other, v) && !(v.point.x == 0 && v.point.y
                == 0),
            r.1 >= 0,
            abs_i(r.1 as int) <= DIST_LIMIT,
    {
        let mut best: Option<CandVec> = Option::None;
        let mut max_d: i64 = 0;
        let mut k: usize = 0;
        let nv = vecs.len();
        while k < nv
            invariant
                0 <= k <= nv,
                nv == vecs@.len(),
                poly_wf(*self),
                poly_wf(*other),
                forall|k2: int| 0 <= k2 < vecs@.len() ==> cand_ok(*self, *other, #[trigger] vecs@[
                    k2]),
                prev matches Some(pv) ==> abs_i(pv.point.x as int) <= 2 * COORD_LIMIT && abs_i(
                    pv.point.y as int) <= 2 * COORD_LIMIT && !(pv.point.x == 0 && pv.point.y == 0),
                select_from(*self, *other, vecs@, 0, *prev, Option::None, 0) == select_from(
                    *self,
                    *other,
                    vecs@,
                    k as int,
                    *prev,
                    match best {
                        Option::None => Option::<CandVec>::None,
                        Some(v) => Some(v),
                    },
                    max_d as int,
                ),
                best matches Some(v) ==> cand_ok(*self, *other, v) && !(v.point.x == 0
                    && v.point.y == 0),
                max_d >= 0,
                abs_i(max_d as int) <= DIST_LIMIT,
            decreases nv - k,
        {
            let v = vecs[k];
            if !(v.point.x == 0 && v.point.y == 0) {
                let mut skip: bool = false;
                if let Some(pv) = prev {
                    let dp: i128 = dot2(pv.point.x, pv.point.y, v.point.x, v.point.y);
                    if dp < 0 {
                        proof {
                            assert(norm2(v.point) > 0 && norm2(pv.point) > 0) by (nonlinear_arith)
                                requires
                                    !(v.point.x == 0 && v.point.y == 0),
                                    !(pv.point.x == 0 && pv.point.y == 0),
                            ;
                        }
                        let vu = v.point.unit_dir();
                        let pu = pv.point.unit_dir();
                        match (vu, pu) {
                            (Some((vux, vuy)), Some((pux, puy))) => {
                                let cr: i128 = crate::num::cross2(vuy, vux, puy, pux);
                                proof {
                                    crate::num::lemma_dot_cross_bound(vuy as int, vux as int,
                                        puy as int, pux as int, UNIT as int, UNIT as int);
                                }
                                let acr: i128 = if cr < 0 {
                                    -cr
                                } else {
                                    cr
                                };
                                if acr < (DIR_EPS as i128) {
                                    skip = true;
                                }
                            },
                            _ => {
                                proof {
                                    assert(false);
                                }
                            },
                        }
                    }
                }
                if !skip {
                    let d_opt = self.slide_distance_on_polygon(other, &v.point, true);
                    let vd2: i128 = dot2(v.point.x, v.point.y, v.point.x, v.point.y);
                    proof {
                        assert(vd2 >= 0) by (nonlinear_arith)
                            requires
                                vd2 == (v.point.x as int) * (v.point.x as int) + (v.point.y
                                    as int) * (v.point.y as int),
                        ;
                        crate::num::lemma_dot_cross_bound(v.point.x as int, v.point.y as int,
                            v.point.x as int, v.point.y as int, 2 * (COORD_LIMIT as int),
                            2 * (COORD_LIMIT as int));
                    }
                    let d: i64 = match d_opt {
                        Some(dv) => {
                            let sq: i128 = crate::num::mul_i64(dv, dv);
                            if sq > vd2 {
                                vec_len_i64(vd2)
                            } else {
                                dv
                            }
                        },
                        Option::None => vec_len_i64(vd2),
                    };
                    if d > max_d {
                        max_d = d;
                        best = Some(v);
                    }
                }
            }
            k = k + 1;
        }
        (best, max_d)
    }
}

/// The floor length of a vector from its squared length, as a machine
/// integer; the square is bounded by the working range.
fn vec_len_i64(vd2: i128) -> (r: i64)
    requires
        0 <= vd2,
        vd2 <= 2 * (2 * COORD_LIMIT) * (2 * COORD_LIMIT),
    ensures
        r == sqrt_floor(vd2 as int),
        0 <= r,
        r <= DIST_LIMIT,
{
    let root: u128 = isqrt_u128(vd2 as u128);
    proof {
        assert(root * root <= vd2 ==> root <= DIST_LIMIT) by (nonlinear_arith)
            requires
                vd2 <= 2 * (2 * COORD_LIMIT) * (2 * COORD_LIMIT),
                root >= 0,
        ;
    }
    root as i64
}

/// A verdict of one start-point probe: an accepted offset, an order to
/// stop the whole search, or nothing for this pair.
#[derive(Clone, Copy, Debug, PartialEq, Eq, Structural)]
pub enum ProbeOutcome {
    Found(Point2D),
    Stop,
    Nothing,
}

/// Whether `p` approximately coincides with any point of any contour.
pub open spec fn spec_in_nfp(p: Point2D, nfps: Seq<Seq<Point2D>>) -> bool {
    exists|ci: int, pi: int|
        0 <= ci < nfps.len() && 0 <= pi < nfps[ci].len() && pt_close(p, nfps[ci][pi])
}

/// The view of a list of contours.
pub open spec fn vvv(v: Vec<Vec<Point2D>>) -> Seq<Seq<Point2D>> {
    v@.map_values(|c: Vec<Point2D>| c@)
}

/// Whether `p` approximately coincides with a point of a contour already
/// found; `None` stands for no contours at all.
pub fn in_nfp(p: &Point2D, nfp: &Option<Vec<Vec<Point2D>>>) -> (r: bool)
    requires
        pt_in_range(*p),
        nfp matches Some(l) ==> forall|ci: int, pi: int|
            0 <= ci < l@.len() && 0 <= pi < l@[ci]@.len() ==> pt_in_range(#[trigger] l@[ci]@[pi]),
    ensures
        r == match nfp {
            Option::Some(l) => spec_in_nfp(*p, vvv(*l)),
            Option::None => false,
        },
{
    match nfp {
        Option::None => false,
        Some(l) => in_nfp_points(p, l),
    }
}

/// Whether `p` approximately coincides with any stored contour point.
fn in_nfp_points(p: &Point2D, nfps: &Vec<Vec<Point2D>>) -> (r: bool)
    requires
        pt_in_range(*p),
        forall|ci: int, pi: int|
            0 <= ci < nfps@.len() && 0 <= pi < nfps@[ci]@.len() ==> pt_in_range(
                #[trigger] nfps@[ci]@[pi],
            ),
    ensures
        r == spec_in_nfp(*p, vvv(*nfps)),
{
    let n = nfps.len();
    let mut ci: usize = 0;
    while ci < n
        invariant
            0 <= ci <= n,
            n == nfps@.len(),
            pt_in_range(*p),
            forall|c2: int, p2: int|
                0 <= c2 < nfps@.len() && 0 <= p2 < nfps@[c2]@.len() ==> pt_in_range(
                    #[trigger] nfps@[c2]@[p2],
                ),
            forall|c2: int, p2: int|
                0 <= c2 < ci && 0 <= p2 < vvv(*nfps)[c2].len() ==> !pt_close(
                    *p,
                    #[trigger] vvv(*nfps)[c2][p2],
                ),
        decreases n - ci,
    {
        let contour = &nfps[ci];
        let m = contour.len();
        let mut pi: usize = 0;
        while pi < m
            invariant
                0 <= ci < n,
                0 <= pi <= m,
                n == nfps@.len(),
                m == nfps@[ci as int]@.len(),
                *contour == nfps@[ci as int],
                pt_in_range(*p),
                forall|c2: int, p2: int|
                    0 <= c2 < nfps@.len() && 0 <= p2 < nfps@[c2]@.len() ==> pt_in_range(
                        #[trigger] nfps@[c2]@[p2],
                    ),
                forall|c2: int, p2: int|
                    0 <= c2 < ci && 0 <= p2 < vvv(*nfps)[c2].len() ==> !pt_close(
                        *p,
                        #[trigger] vvv(*nfps)[c2][p2],
                    ),
                forall|p2: int|
                    0 <= p2 < pi ==> !pt_close(*p, #[trigger] vvv(*nfps)[ci as int][p2]),
            decreases m - pi,
        {
            proof {
                assert(contour@[pi as int] == nfps@[ci as int]@[pi as int]);
                assert(pt_in_range(nfps@[ci as int]@[pi as int]));
                assert(vvv(*nfps)[ci as int] == nfps@[ci as int]@);
            }
            if p.close_to(&contour[pi]) {
                proof {
                    assert(pt_close(*p, vvv(*nfps)[ci as int][pi as int]));
                }
                return true;
            }
            pi = pi + 1;
        }
        ci = ci + 1;
    }
    false
}

/// The verdict of the first vertex of the placed orbiting polygon that is
/// definitely inside or outside the stationary polygon; `None` when every
/// vertex sits on the boundary.
pub open spec fn first_definite(a: Polygon, b: Polygon, k: int) -> Option<bool>
    decreases b.vertices.len() - k,
{
    if k < 0 || k >= b.vertices.len() {
        Option::None
    } else {
        match spec_in_polygon(tv(b, k), a) {
            Option::Some(v) => Option::Some(v),
            Option::None => first_definite(a, b, k + 1),
        }
    }
}

/// The lesser of two optional projection distances, as in the start-point
/// slide: absent values lose to present ones.
pub open spec fn search_slide_len(a: Polygon, b: Polygon, o1: Point2D, v: Point2D) -> Option<int> {
    opt_min(
        spec_project_distance(a, with_offset(b, o1), v),
        spec_project_distance(with_offset(b, o1), a, Point2D { x: (-v.x) as i64, y: (-v.y) as i64 }),
    )
}

/// The start-point search from the stationary edge `i` and orbiting vertex
/// `j` on: place the orbiting polygon's vertex `j` on the start of edge
/// `i`; accept the placement if its inside/outside state matches `inside`,
/// the polygons do not overlap, and the point is new to `nfps`; otherwise
/// slide along the edge by the least positive projection distance and
/// accept the slid placement if its state matches and the polygons now
/// overlap (the orbit itself then resolves the touching boundary), and the
/// point is new. The search ends with `None` when every vertex of a
/// placement is on the boundary, and skips placements beyond the offset
/// range. Stationary edges already marked as visited are skipped.
pub open spec fn search_from(
    a: Polygon,
    b: Polygon,
    marks: Seq<bool>,
    inside: bool,
    nfps: Seq<Seq<Point2D>>,
    i: int,
    j: int,
) -> Option<Point2D>
    decreases a.vertices.len() - i, b.vertices.len() + 1 - j,
{
    if i < 0 || j < 0 || i >= a.vertices.len() {
        Option::None
    } else if marks[i] {
        search_from(a, b, marks, inside, nfps, i + 1, 0)
    } else if j >= b.vertices.len() {
        search_from(a, b, marks, inside, nfps, i + 1, 0)
    } else {
        match spec_probe(a, b, inside, nfps, i, j) {
            ProbeOutcome::Found(p) => Option::Some(p),
            ProbeOutcome::Stop => Option::None,
            ProbeOutcome::Nothing => search_from(a, b, marks, inside, nfps, i, j + 1),
        }
    }
}

/// One probe of the start-point search: the fresh placement of orbiting
/// vertex `j` on the start of stationary edge `i`, and if that placement
/// is not accepted, the placement slid along the edge.
#[verifier::opaque]
pub open spec fn spec_probe(a: Polygon, b: Polygon, inside: bool, nfps: Seq<Seq<Point2D>>, i: int,
    j: int) -> ProbeOutcome {
    let sa = tseg(a, i);
    let o1 = pt_sub(sa.start, rv(b, j));
    if abs_i(o1.x as int) > OFFSET_MAX || abs_i(o1.y as int) > OFFSET_MAX {
        ProbeOutcome::Nothing
    } else {
        match first_definite(a, with_offset(b, o1), 0) {
            Option::None => ProbeOutcome::Stop,
            Option::Some(oin) => {
                if oin == inside && !spec_intersects_polygon(a, with_offset(b, o1))
                    && !spec_in_nfp(o1, nfps) {
                    ProbeOutcome::Found(o1)
                } else {
                    spec_slide_probe(a, b, inside, nfps, i, o1, oin)
                }
            },
        }
    }
}

/// The slid placement of the start-point search: slide along the edge by
/// the least positive projection distance (trimmed to the edge length)
/// and accept when the inside/outside state matches and the polygons
/// overlap.
#[verifier::opaque]
pub open spec fn spec_slide_probe(a: Polygon, b: Polygon, inside: bool, nfps: Seq<Seq<Point2D>>,
    i: int, o1: Point2D, oin: bool) -> ProbeOutcome {
    let sa = tseg(a, i);
    let v = pt_sub(sa.end, sa.start);
    match search_slide_len(a, b, o1, v) {
        Option::None => ProbeOutcome::Nothing,
        Option::Some(d) => {
            if !(d > EPS) {
                ProbeOutcome::Nothing
            } else {
                let vlen = sqrt_floor(norm2(v));
                let vv = if d + EPS < vlen {
                    Point2D {
                        x: div_round(v.x as int * d, vlen) as i64,
                        y: div_round(v.y as int * d, vlen) as i64,
                    }
                } else {
                    v
                };
                let o2 = pt_add(o1, vv);
                if abs_i(o2.x as int) > OFFSET_MAX || abs_i(o2.y as int) > OFFSET_MAX {
                    ProbeOutcome::Nothing
                } else {
                    let oin2 = match first_definite(a, with_offset(b, o2), 0) {
                        Option::Some(x) => x,
                        Option::None => oin,
                    };
                    if oin2 == inside && spec_intersects_polygon(a, with_offset(b, o2))
                        && !spec_in_nfp(o2, nfps) {
                        ProbeOutcome::Found(o2)
                    } else {
                        ProbeOutcome::Nothing
                    }
                }
            }
        },
    }
}

/// The first definite inside/outside verdict among the placed orbiting
/// polygon's vertices; matches [`first_definite`].
fn first_definite_c(a: &Polygon, b: &Polygon) -> (r: Option<bool>)
    requires
        poly_wf(*a),
        poly_wf(*b),
    ensures
        r == first_definite(*a, *b, 0),
{
    let m = b.length();
    let mut k: usize = 0;
    while k < m
        invariant
            0 <= k <= m,
            m == b.vertices.len(),
            poly_wf(*a),
            poly_wf(*b),
            first_definite(*a, *b, 0) == first_definite(*a, *b, k as int),
        decreases m - k,
    {
        let p = b.get_vertex(k);
        match p.in_polygon(a) {
            Some(v) => {
                return Some(v);
            },
            Option::None => {},
        }
        k = k + 1;
    }
    Option::None
}

impl Polygon {
    /// Searches for a start point of a further NFP contour; the stationary
    /// polygon is `self`, and `other`'s own offset is immaterial. The two
    /// accept conditions are asymmetric on purpose, after the orbit
    /// engine's start-point search: a fresh placement is accepted when the
    /// polygons do not overlap, a slid placement when they do (the orbit
    /// then traces the touching boundary). See [`search_from`].
    pub fn search_start_point(&self, other: &Polygon, self_marked: &Vec<bool>, inside: bool,
        nfp: &Option<Vec<Vec<Point2D>>>) -> (r: Option<Point2D>)
        requires
            poly_wf(*self),
            poly_wf(*other),
            self_marked.len() == self.vertices.len(),
            nfp matches Some(l) ==> forall|ci: int, pi: int|
                0 <= ci < l@.len() && 0 <= pi < l@[ci]@.len() ==> pt_in_range(
                    #[trigger] l@[ci]@[pi],
                ),
        ensures
            r == search_from(
                *self,
                with_offset(*other, Point2D { x: 0, y: 0 }),
                self_marked@,
                inside,
                match nfp {
                    Option::Some(l) => vvv(*l),
                    Option::None => Seq::empty(),
                },
                0,
                0,
            ),
            r matches Some(p) ==> abs_i(p.x as int) <= OFFSET_MAX && abs_i(p.y as int)
                <= OFFSET_MAX,
    {
        let mut work = Polygon {
            vertices: copy_points(&other.vertices),
            offset: other.offset,
            rotation: other.rotation,
        };
        let empty_list: Vec<Vec<Point2D>> = Vec::new();
        let nfps: &Vec<Vec<Point2D>> = match nfp {
            Option::Some(l) => l,
            Option::None => &empty_list,
        };
        proof {
            assert(vvv(empty_list) =~= Seq::<Seq<Point2D>>::empty());
        }
        let ghost gw = work;
        let r = search_start(self, &mut work, self_marked, inside, nfps);
        proof {
            lemma_search_from_cong(
                *self,
                *self,
                with_offset(gw, Point2D { x: 0, y: 0 }),
                with_offset(*other, Point2D { x: 0, y: 0 }),
                self_marked@,
                inside,
                match nfp {
                    Option::Some(l) => vvv(*l),
                    Option::None => Seq::empty(),
                },
                0,
                0,
            );
        }
        r
    }
}

/// A fresh vector with the same points.
fn copy_points(v: &Vec<Point2D>) -> (r: Vec<Point2D>)
    ensures
        r@ == v@,
{
    let mut out: Vec<Point2D> = Vec::new();
    let n = v.len();
    let mut i: usize = 0;
    while i < n
        invariant
            0 <= i <= n,
            n == v@.len(),
            out@ == v@.subrange(0, i as int),
        decreases n - i,
    {
        out.push(v[i]);
        proof {
            assert(out@ =~= v@.subrange(0, i + 1));
        }
        i = i + 1;
    }
    proof {
        assert(out@ =~= v@);
    }
    out
}

/// The start-point search over a mutable working copy of the orbiting
/// polygon; pinned to [`search_from`] on the polygon's shape.
fn search_start(a: &Polygon, b: &mut Polygon, marks: &Vec<bool>, inside: bool,
    nfps: &Vec<Vec<Point2D>>) -> (r: Option<Point2D>)
    requires
        poly_wf(*a),
        poly_wf(*old(b)),
        marks.len() == a.vertices.len(),
        forall|ci: int, pi: int|
            0 <= ci < nfps@.len() && 0 <= pi < nfps@[ci]@.len() ==> pt_in_range(
                #[trigger] nfps@[ci]@[pi],
            ),
    ensures
        r == search_from(
            *a,
            with_offset(*old(b), Point2D { x: 0, y: 0 }),
            marks@,
            inside,
            vvv(*nfps),
            0,
            0,
        ),
        final(b).vertices == old(b).vertices,
        final(b).rotation == old(b).rotation,
        poly_wf(*final(b)),
        r matches Some(p) ==> abs_i(p.x as int) <= OFFSET_MAX && abs_i(p.y as int) <= OFFSET_MAX,
{
    let ghost b0 = with_offset(*old(b), Point2D { x: 0, y: 0 });
    let n = a.length();
    let m = b.length();
    let mut i: usize = 0;
    while i < n
        invariant
            0 <= i <= n,
            n == a.vertices.len(),
            m == b.vertices.len(),
            poly_wf(*a),
            poly_wf(*b),
            marks.len() == n,
            b0 == with_offset(*old(b), Point2D { x: 0, y: 0 }),
            b.vertices == b0.vertices,
            b.rotation == b0.rotation,
            poly_wf(b0),
            forall|ci: int, pi: int|
                0 <= ci < nfps@.len() && 0 <= pi < nfps@[ci]@.len() ==> pt_in_range(
                    #[trigger] nfps@[ci]@[pi],
                ),
            search_from(*a, b0, marks@, inside, vvv(*nfps), 0, 0) == search_from(
                *a,
                b0,
                marks@,
                inside,
                vvv(*nfps),
                i as int,
                0,
            ),
        decreases n - i,
    {
        if !marks[i] {
            let mut j: usize = 0;
            while j < m
                invariant
                    0 <= i < n,
                    0 <= j <= m,
                    n == a.vertices.len(),
                    m == b.vertices.len(),
                    poly_wf(*a),
                    poly_wf(*b),
                    marks.len() == n,
                    !marks@[i as int],
                    b0 == with_offset(*old(b), Point2D { x: 0, y: 0 }),
                    b.vertices == b0.vertices,
                    b.rotation == b0.rotation,
                    poly_wf(b0),
                    forall|ci: int, pi: int|
                        0 <= ci < nfps@.len() && 0 <= pi < nfps@[ci]@.len() ==> pt_in_range(
                            #[trigger] nfps@[ci]@[pi],
                        ),
                    search_from(*a, b0, marks@, inside, vvv(*nfps), 0, 0) == search_from(
                        *a,
                        b0,
                        marks@,
                        inside,
                        vvv(*nfps),
                        i as int,
                        j as int,
                    ),
                decreases m - j,
            {
                let pr = search_probe(a, b, Ghost(b0), marks, inside, nfps, i, j);
                proof {
                    assert(search_from(*a, b0, marks@, inside, vvv(*nfps), i as int, j as int)
                        == match spec_probe(*a, b0, inside, vvv(*nfps), i as int, j as int) {
                        ProbeOutcome::Found(p) => Option::Some(p),
                        ProbeOutcome::Stop => Option::<Point2D>::None,
                        ProbeOutcome::Nothing => search_from(
                            *a,
                            b0,
                            marks@,
                            inside,
                            vvv(*nfps),
                            i as int,
                            j + 1,
                        ),
                    });
                }
                match pr {
                    ProbeOutcome::Found(p) => {
                        return Some(p);
                    },
                    ProbeOutcome::Stop => {
                        return Option::None;
                    },
                    ProbeOutcome::Nothing => {},
                }
                j = j + 1;
            }
        }
        i = i + 1;
    }
    Option::None
}

/// One probe of the start-point search, for stationary edge `i` and
/// orbiting vertex `j`; decides this pair exactly as one unfolding of
/// [`search_from`].
#[verifier::rlimit(100)]
fn search_probe(a: &Polygon, b: &mut Polygon, b0: Ghost<Polygon>, marks: &Vec<bool>, inside: bool,
    nfps: &Vec<Vec<Point2D>>, i: usize, j: usize) -> (r: ProbeOutcome)
    requires
        poly_wf(*a),
        poly_wf(*old(b)),
        poly_wf(b0@),
        old(b).vertices == b0@.vertices,
        old(b).rotation == b0@.rotation,
        marks.len() == a.vertices.len(),
        i < a.vertices.len(),
        j < b0@.vertices.len(),
        !marks@[i as int],
        forall|ci: int, pi: int|
            0 <= ci < nfps@.len() && 0 <= pi < nfps@[ci]@.len() ==> pt_in_range(
                #[trigger] nfps@[ci]@[pi],
            ),
    ensures
        final(b).vertices == old(b).vertices,
        final(b).rotation == old(b).rotation,
        poly_wf(*final(b)),
        r == spec_probe(*a, b0@, inside, vvv(*nfps), i as int, j as int),
        r matches ProbeOutcome::Found(p) ==> abs_i(p.x as int) <= OFFSET_MAX && abs_i(p.y as int)
            <= OFFSET_MAX,
{
    proof {
        reveal(spec_probe);
    }
    let sa = a.segment(i);
    let rvj = b.rotated_vertex(j);
    let o1 = Point2D { x: sa.start.x - rvj.x, y: sa.start.y - rvj.y };
    let a1x: i64 = if o1.x < 0 {
        -o1.x
    } else {
        o1.x
    };
    let a1y: i64 = if o1.y < 0 {
        -o1.y
    } else {
        o1.y
    };
    if a1x > OFFSET_MAX || a1y > OFFSET_MAX {
        return ProbeOutcome::Nothing;
    }
    b.set_offset(o1);
    proof {
        assert(*b == with_offset(b0@, o1));
    }
    let fd = first_definite_c(a, b);
    let oin: bool = match fd {
        Option::None => {
            return ProbeOutcome::Stop;
        },
        Some(v) => v,
    };
    if oin == inside && !a.intersects_polygon(b) && !in_nfp_points(&o1, nfps) {
        return ProbeOutcome::Found(o1);
    }
    slide_probe(a, b, b0, inside, nfps, i, o1, oin)
}

/// The slid placement of one start-point probe; matches
/// [`spec_slide_probe`].
#[verifier::rlimit(100)]
fn slide_probe(a: &Polygon, b: &mut Polygon, b0: Ghost<Polygon>, inside: bool,
    nfps: &Vec<Vec<Point2D>>, i: usize, o1: Point2D, oin: bool) -> (r: ProbeOutcome)
    requires
        poly_wf(*a),
        poly_wf(*old(b)),
        poly_wf(b0@),
        old(b).vertices == b0@.vertices,
        old(b).rotation == b0@.rotation,
        i < a.vertices.len(),
        abs_i(o1.x as int) <= OFFSET_MAX,
        abs_i(o1.y as int) <= OFFSET_MAX,
        forall|ci: int, pi: int|
            0 <= ci < nfps@.len() && 0 <= pi < nfps@[ci]@.len() ==> pt_in_range(
                #[trigger] nfps@[ci]@[pi],
            ),
    ensures
        final(b).vertices == old(b).vertices,
        final(b).rotation == old(b).rotation,
        poly_wf(*final(b)),
        r == spec_slide_probe(*a, b0@, inside, vvv(*nfps), i as int, o1, oin),
        r matches ProbeOutcome::Found(p) ==> abs_i(p.x as int) <= OFFSET_MAX && abs_i(p.y as int)
            <= OFFSET_MAX,
{
    proof {
        reveal(spec_slide_probe);
    }
    let sa = a.segment(i);
    b.set_offset(o1);
    proof {
        assert(*b == with_offset(b0@, o1));
    }
    let v = Point2D { x: sa.end.x - sa.start.x, y: sa.end.y - sa.start.y };
    let d1 = a.project_distance_on_polygon(b, &v);
    let d2 = b.project_distance_on_polygon(a, &v.negated());
    let d_opt: Option<i64> = match d2 {
        Option::None => d1,
        Some(bv) => match d1 {
            Option::None => Some(bv),
            Some(av) => if bv < av {
                Some(bv)
            } else {
                Some(av)
            },
        },
    };
    let d: i64 = match d_opt {
        Option::None => {
            return ProbeOutcome::Nothing;
        },
        Some(dv) => dv,
    };
    if !(d > EPS) {
        return ProbeOutcome::Nothing;
    }
    let vd2: i128 = dot2(v.x, v.y, v.x, v.y);
    proof {
        assert(vd2 >= 0) by (nonlinear_arith)
            requires
                vd2 == (v.x as int) * (v.x as int) + (v.y as int) * (v.y as int),
        ;
        crate::num::lemma_dot_cross_bound(v.x as int, v.y as int, v.x as int, v.y as int,
            2 * (COORD_LIMIT as int), 2 * (COORD_LIMIT as int));
    }
    let vlen: i64 = vec_len_i64(vd2);
    let vv: Point2D = if d + EPS < vlen {
        proof {
            crate::num::lemma_abs_mul(v.x as int, d as int, abs_i(v.x as int), vlen as int);
            crate::num::lemma_abs_mul(v.y as int, d as int, abs_i(v.y as int), vlen as int);
            crate::num::lemma_abs_mul(v.x as int, d as int, 2 * (COORD_LIMIT as int),
                DIST_LIMIT as int);
            crate::num::lemma_abs_mul(v.y as int, d as int, 2 * (COORD_LIMIT as int),
                DIST_LIMIT as int);
            lemma_div_round_bound(v.x as int * d, vlen as int, abs_i(v.x as int));
            lemma_div_round_bound(v.y as int * d, vlen as int, abs_i(v.y as int));
        }
        let tx: i128 = div_round_i128(crate::num::mul_i64(v.x, d), vlen as i128);
        let ty: i128 = div_round_i128(crate::num::mul_i64(v.y, d), vlen as i128);
        Point2D { x: tx as i64, y: ty as i64 }
    } else {
        v
    };
    let o2 = Point2D { x: o1.x + vv.x, y: o1.y + vv.y };
    let a2x: i64 = if o2.x < 0 {
        -o2.x
    } else {
        o2.x
    };
    let a2y: i64 = if o2.y < 0 {
        -o2.y
    } else {
        o2.y
    };
    if a2x > OFFSET_MAX || a2y > OFFSET_MAX {
        return ProbeOutcome::Nothing;
    }
    b.set_offset(o2);
    proof {
        assert(*b == with_offset(b0@, o2));
    }
    let oin2: bool = match first_definite_c(a, b) {
        Some(x) => x,
        Option::None => oin,
    };
    if oin2 == inside && a.intersects_polygon(b) && !in_nfp_points(&o2, nfps) {
        return ProbeOutcome::Found(o2);
    }
    ProbeOutcome::Nothing
}

/// The state of one orbit trace: the orbiting polygon's offset, the
/// tracked reference point, the contour so far, the visited marks of both
/// polygons, and the previous step's translation.
pub struct OrbitState {
    pub boff: Point2D,
    pub refp: Point2D,
    pub nfp: Seq<Point2D>,
    pub marks_a: Seq<bool>,
    pub marks_b: Seq<bool>,
    pub prev: Option<CandVec>,
}

/// The outcome of one orbit step: the trace failed to advance, the trace
/// closed with its contour, or it goes on from a new state.
pub enum OrbitOutcome {
    Failed(Seq<bool>, Seq<bool>),
    Closed(Seq<Point2D>, Seq<bool>, Seq<bool>),
    Step(OrbitState),
}

/// One step of the orbit trace: collect the touchings' candidate vectors,
/// choose the translation with the longest feasible slide, trim it to that
/// slide, and advance the reference point and the orbiting offset; the
/// trace closes when the reference returns to the start or to any earlier
/// contour point, and fails when no translation advances it or the offset
/// leaves the working range.
#[verifier::opaque]
pub open spec fn spec_orbit_step(a: Polygon, b: Polygon, start: Point2D, st: OrbitState)
    -> OrbitOutcome {
    let bcur = with_offset(b, st.boff);
    let vecs = vectors_from(a, bcur, 0, 0);
    let marks_a1 = marks_from(a, bcur, st.marks_a, 0, 0);
    let sel = select_from(a, bcur, vecs, 0, st.prev, Option::None, 0);
    let max_d = sel.1;
    match sel.0 {
        Option::None => OrbitOutcome::Failed(marks_a1, st.marks_b),
        Option::Some(t) => {
            if max_d <= EPS {
                OrbitOutcome::Failed(marks_a1, st.marks_b)
            } else {
                let marks_a2 = if t.source == PolygonSource::Stationary {
                    marks_a1.update(t.start as int, true).update(t.end as int, true)
                } else {
                    marks_a1
                };
                let marks_b2 = if t.source == PolygonSource::Orbiting {
                    st.marks_b.update(t.start as int, true).update(t.end as int, true)
                } else {
                    st.marks_b
                };
                let vlen = sqrt_floor(norm2(t.point));
                let tp = if max_d + EPS < vlen {
                    Point2D {
                        x: div_round(t.point.x as int * max_d, vlen) as i64,
                        y: div_round(t.point.y as int * max_d, vlen) as i64,
                    }
                } else {
                    t.point
                };
                let noff = pt_add(st.boff, tp);
                let nref = pt_add(st.refp, tp);
                if abs_i(noff.x as int) > OFFSET_MAX || abs_i(noff.y as int) > OFFSET_MAX {
                    OrbitOutcome::Failed(marks_a2, marks_b2)
                } else if pt_close(nref, start) {
                    OrbitOutcome::Closed(st.nfp, marks_a2, marks_b2)
                } else if exists|idx: int| 0 <= idx < st.nfp.len() - 1 && pt_close(nref, st.nfp[idx]) {
                    OrbitOutcome::Closed(st.nfp, marks_a2, marks_b2)
                } else {
                    OrbitOutcome::Step(
                        OrbitState {
                            boff: noff,
                            refp: nref,
                            nfp: st.nfp.push(nref),
                            marks_a: marks_a2,
                            marks_b: marks_b2,
                            prev: Option::Some(t),
                        },
                    )
                }
            }
        },
    }
}

/// The orbit trace run for at most `fuel` steps: the contour it closes
/// (`None` when the trace fails or the fuel runs out) and the final marks.
#[verifier::opaque]
pub open spec fn spec_orbit(a: Polygon, b: Polygon, start: Point2D, st: OrbitState, fuel: int)
    -> (Option<Seq<Point2D>>, Seq<bool>, Seq<bool>)
    decreases fuel,
{
    if fuel <= 0 {
        (Option::None, st.marks_a, st.marks_b)
    } else {
        match spec_orbit_step(a, b, start, st) {
            OrbitOutcome::Failed(ma, mb) => (Option::None, ma, mb),
            OrbitOutcome::Closed(c, ma, mb) => (Option::Some(c), ma, mb),
            OrbitOutcome::Step(st2) => spec_orbit(a, b, start, st2, fuel - 1),
        }
    }
}

/// The orbit's initial state for a given start offset: the contour begins
/// at the orbiting polygon's first vertex, placed at the start.
pub open spec fn orbit_init(b: Polygon, start: Point2D, marks_a: Seq<bool>, marks_b: Seq<bool>)
    -> OrbitState {
    let r0 = tv(with_offset(b, start), 0);
    OrbitState {
        boff: start,
        refp: r0,
        nfp: seq![r0],
        marks_a: marks_a,
        marks_b: marks_b,
        prev: Option::None,
    }
}


/// The outcome of one executed orbit step.
enum StepKind {
    Fail,
    Close,
    Advance,
}

/// Executes one orbit step on the working state, mutating the orbiting
/// offset, the marks, the contour and the reference point in place; the
/// outcome matches [`spec_orbit_step`] on the state at entry.
#[verifier::rlimit(100)]
fn orbit_advance(a: &Polygon, b: &mut Polygon, b_base: Ghost<Polygon>, start: Point2D,
    marks_a: &mut Vec<bool>, marks_b: &mut Vec<bool>, nfp: &mut Vec<Point2D>,
    reference: &mut Point2D, prev: &mut Option<CandVec>) -> (r: StepKind)
    requires
        poly_wf(*a),
        poly_wf(b_base@),
        poly_wf(*old(b)),
        a.vertices.len() >= 1,
        b_base@.vertices.len() >= 1,
        old(b).vertices == b_base@.vertices,
        old(b).rotation == b_base@.rotation,
        abs_i(old(b).offset.x as int) <= OFFSET_MAX,
        abs_i(old(b).offset.y as int) <= OFFSET_MAX,
        abs_i(start.x as int) <= OFFSET_MAX,
        abs_i(start.y as int) <= OFFSET_MAX,
        old(marks_a).len() == a.vertices.len(),
        old(marks_b).len() == b_base@.vertices.len(),
        old(reference).x == old(b).offset.x + rv(b_base@, 0).x,
        old(reference).y == old(b).offset.y + rv(b_base@, 0).y,
        pt_in_range(*old(reference)),
        old(nfp)@.len() >= 1,
        forall|k: int| 0 <= k < old(nfp)@.len() ==> pt_in_range(#[trigger] old(nfp)@[k]),
        (*old(prev)) matches Some(pv) ==> abs_i(pv.point.x as int) <= 2 * COORD_LIMIT && abs_i(
            pv.point.y as int) <= 2 * COORD_LIMIT && !(pv.point.x == 0 && pv.point.y == 0),
    ensures
        ({
            let st = OrbitState {
                boff: old(b).offset,
                refp: *old(reference),
                nfp: old(nfp)@,
                marks_a: old(marks_a)@,
                marks_b: old(marks_b)@,
                prev: *old(prev),
            };
            &&& (r is Fail ==> spec_orbit_step(*a, b_base@, start, st) == OrbitOutcome::Failed(
                final(marks_a)@,
                final(marks_b)@,
            ))
            &&& (r is Close ==> spec_orbit_step(*a, b_base@, start, st) == OrbitOutcome::Closed(
                final(nfp)@,
                final(marks_a)@,
                final(marks_b)@,
            ))
            &&& (r is Advance ==> spec_orbit_step(*a, b_base@, start, st) == OrbitOutcome::Step(
                OrbitState {
                    boff: final(b).offset,
                    refp: *final(reference),
                    nfp: final(nfp)@,
                    marks_a: final(marks_a)@,
                    marks_b: final(marks_b)@,
                    prev: *final(prev),
                },
            ))
        }),
        final(b).vertices == old(b).vertices,
        final(b).rotation == old(b).rotation,
        abs_i(final(b).offset.x as int) <= OFFSET_MAX,
        abs_i(final(b).offset.y as int) <= OFFSET_MAX,
        final(marks_a).len() == old(marks_a).len(),
        final(marks_b).len() == old(marks_b).len(),
        final(nfp)@.len() >= 1,
        forall|k: int| 0 <= k < final(nfp)@.len() ==> pt_in_range(#[trigger] final(nfp)@[k]),
        final(reference).x == final(b).offset.x + rv(b_base@, 0).x,
        final(reference).y == final(b).offset.y + rv(b_base@, 0).y,
        pt_in_range(*final(reference)),
        (*final(prev)) matches Some(pv) ==> abs_i(pv.point.x as int) <= 2 * COORD_LIMIT && abs_i(
            pv.point.y as int) <= 2 * COORD_LIMIT && !(pv.point.x == 0 && pv.point.y == 0),
{
    let ghost st = OrbitState {
        boff: b.offset,
        refp: *reference,
        nfp: nfp@,
        marks_a: marks_a@,
        marks_b: marks_b@,
        prev: *prev,
    };
    let vecs = collect_vectors(a, b, marks_a);
    let sel = a.select_translation(b, &vecs, prev);
    let best = sel.0;
    let max_d = sel.1;
    proof {
        reveal(spec_orbit_step);
        assert(*b == with_offset(b_base@, st.boff));
    }
    let t: CandVec = match best {
        Option::None => {
            proof {
                assert(spec_orbit_step(*a, b_base@, start, st) == OrbitOutcome::Failed(
                    marks_a@,
                    marks_b@,
                ));
            }
            return StepKind::Fail;
        },
        Some(t) => t,
    };
    if max_d <= EPS {
        proof {
            assert(spec_orbit_step(*a, b_base@, start, st) == OrbitOutcome::Failed(
                marks_a@,
                marks_b@,
            ));
        }
        return StepKind::Fail;
    }
    if t.source == PolygonSource::Stationary {
        marks_a.set(t.start, true);
        marks_a.set(t.end, true);
    } else {
        marks_b.set(t.start, true);
        marks_b.set(t.end, true);
    }
    *prev = Some(t);
    let vd2: i128 = dot2(t.point.x, t.point.y, t.point.x, t.point.y);
    proof {
        assert(vd2 >= 0) by (nonlinear_arith)
            requires
                vd2 == (t.point.x as int) * (t.point.x as int) + (t.point.y as int) * (t.point.y
                    as int),
        ;
        crate::num::lemma_dot_cross_bound(t.point.x as int, t.point.y as int, t.point.x as int,
            t.point.y as int, 2 * (COORD_LIMIT as int), 2 * (COORD_LIMIT as int));
    }
    let vlen: i64 = vec_len_i64(vd2);
    let tp: Point2D = if max_d + EPS < vlen {
        proof {
            crate::num::lemma_abs_mul(t.point.x as int, max_d as int, abs_i(t.point.x as int),
                vlen as int);
            crate::num::lemma_abs_mul(t.point.y as int, max_d as int, abs_i(t.point.y as int),
                vlen as int);
            crate::num::lemma_abs_mul(t.point.x as int, max_d as int, 2 * (COORD_LIMIT as int),
                DIST_LIMIT as int);
            crate::num::lemma_abs_mul(t.point.y as int, max_d as int, 2 * (COORD_LIMIT as int),
                DIST_LIMIT as int);
            lemma_div_round_bound(t.point.x as int * max_d, vlen as int, abs_i(t.point.x as int));
            lemma_div_round_bound(t.point.y as int * max_d, vlen as int, abs_i(t.point.y as int));
        }
        let tx: i128 = div_round_i128(crate::num::mul_i64(t.point.x, max_d), vlen as i128);
        let ty: i128 = div_round_i128(crate::num::mul_i64(t.point.y, max_d), vlen as i128);
        Point2D { x: tx as i64, y: ty as i64 }
    } else {
        t.point
    };
    let noff = Point2D { x: b.offset.x + tp.x, y: b.offset.y + tp.y };
    let ax: i64 = if noff.x < 0 {
        -noff.x
    } else {
        noff.x
    };
    let ay: i64 = if noff.y < 0 {
        -noff.y
    } else {
        noff.y
    };
    if ax > OFFSET_MAX || ay > OFFSET_MAX {
        proof {
            assert(spec_orbit_step(*a, b_base@, start, st) == OrbitOutcome::Failed(
                marks_a@,
                marks_b@,
            ));
        }
        return StepKind::Fail;
    }
    let nref = Point2D { x: reference.x + tp.x, y: reference.y + tp.y };
    proof {
        crate::polygon::lemma_rv(b_base@, 0);
        assert(nref.x == noff.x + rv(b_base@, 0).x && nref.y == noff.y + rv(b_base@, 0).y);
        assert(pt_in_range(nref));
    }
    if nref.close_to(&start) {
        proof {
            assert(spec_orbit_step(*a, b_base@, start, st) == OrbitOutcome::Closed(
                nfp@,
                marks_a@,
                marks_b@,
            ));
        }
        return StepKind::Close;
    }
    let mut looped: bool = false;
    let nl = nfp.len();
    let mut k: usize = 0;
    while k + 1 < nl
        invariant
            0 <= k,
            k + 1 <= nl,
            nl == nfp@.len(),
            pt_in_range(nref),
            forall|k2: int| 0 <= k2 < nfp@.len() ==> pt_in_range(#[trigger] nfp@[k2]),
            looped ==> exists|idx: int| 0 <= idx < nfp@.len() - 1 && pt_close(nref, nfp@[idx]),
            !looped ==> forall|idx: int| 0 <= idx < k ==> !pt_close(nref, #[trigger] nfp@[idx]),
        decreases nl - k,
    {
        if nref.close_to(&nfp[k]) {
            looped = true;
        }
        k = k + 1;
    }
    if looped {
        proof {
            assert(spec_orbit_step(*a, b_base@, start, st) == OrbitOutcome::Closed(
                nfp@,
                marks_a@,
                marks_b@,
            ));
        }
        return StepKind::Close;
    }
    proof {
        assert(!(exists|idx: int| 0 <= idx < st.nfp.len() - 1 && pt_close(nref, st.nfp[idx])));
    }
    nfp.push(nref);
    b.set_offset(noff);
    *reference = nref;
    proof {
        let st2 = OrbitState {
            boff: noff,
            refp: nref,
            nfp: st.nfp.push(nref),
            marks_a: marks_a@,
            marks_b: marks_b@,
            prev: Some(t),
        };
        assert(spec_orbit_step(*a, b_base@, start, st) == OrbitOutcome::Step(st2));
        assert(nfp@ == st2.nfp);
    }
    StepKind::Advance
}

/// Runs one orbit trace from `start`, mutating the orbiting polygon's
/// offset and both mark vectors in place; pinned to [`spec_orbit`] with a
/// step budget of ten times the total vertex count.
fn orbit_trace(a: &Polygon, b: &mut Polygon, start: Point2D, marks_a: &mut Vec<bool>,
    marks_b: &mut Vec<bool>) -> (r: Option<Vec<Point2D>>)
    requires
        poly_wf(*a),
        poly_wf(*old(b)),
        a.vertices.len() >= 1,
        old(b).vertices.len() >= 1,
        abs_i(start.x as int) <= OFFSET_MAX,
        abs_i(start.y as int) <= OFFSET_MAX,
        old(marks_a).len() == a.vertices.len(),
        old(marks_b).len() == old(b).vertices.len(),
    ensures
        ({
            let zb = with_offset(*old(b), Point2D { x: 0, y: 0 });
            let res = spec_orbit(
                *a,
                zb,
                start,
                orbit_init(zb, start, old(marks_a)@, old(marks_b)@),
                10 * (a.vertices.len() + old(b).vertices.len()),
            );
            &&& (match r {
                Option::Some(v) => res.0 == Option::Some(v@),
                Option::None => res.0 is None,
            })
            &&& final(marks_a)@ == res.1
            &&& final(marks_b)@ == res.2
        }),
        final(b).vertices == old(b).vertices,
        final(b).rotation == old(b).rotation,
        poly_wf(*final(b)),
        final(marks_a).len() == old(marks_a).len(),
        final(marks_b).len() == old(marks_b).len(),
        r matches Some(v) ==> v@.len() >= 1 && (forall|k: int|
            0 <= k < v@.len() ==> pt_in_range(#[trigger] v@[k])),
{
    let ghost b_base = with_offset(*old(b), Point2D { x: 0, y: 0 });
    let n = a.length();
    let m = b.length();
    let fuel: usize = 10 * (n + m);
    b.set_offset(start);
    let mut reference: Point2D = b.get_vertex(0);
    let mut nfp: Vec<Point2D> = Vec::new();
    nfp.push(reference);
    let mut prev: Option<CandVec> = Option::None;
    let mut counter: usize = 0;
    proof {
        crate::polygon::lemma_rv(b_base, 0);
        crate::polygon::lemma_tv(*b, 0);
        assert(*b == with_offset(b_base, start));
        assert(nfp@ =~= seq![reference]);
        assert(OrbitState {
            boff: b.offset,
            refp: reference,
            nfp: nfp@,
            marks_a: marks_a@,
            marks_b: marks_b@,
            prev: prev,
        } == orbit_init(b_base, start, old(marks_a)@, old(marks_b)@));
    }
    while counter < fuel
        invariant
            counter <= fuel,
            fuel == 10 * (n + m),
            n == a.vertices.len(),
            m == b_base.vertices.len(),
            b_base == with_offset(*old(b), Point2D { x: 0, y: 0 }),
            poly_wf(*a),
            poly_wf(b_base),
            poly_wf(*b),
            n >= 1,
            m >= 1,
            b.vertices == b_base.vertices,
            b.rotation == b_base.rotation,
            abs_i(b.offset.x as int) <= OFFSET_MAX,
            abs_i(b.offset.y as int) <= OFFSET_MAX,
            abs_i(start.x as int) <= OFFSET_MAX,
            abs_i(start.y as int) <= OFFSET_MAX,
            marks_a.len() == n,
            marks_b.len() == m,
            old(marks_a).len() == n,
            old(marks_b).len() == m,
            reference.x == b.offset.x + rv(b_base, 0).x,
            reference.y == b.offset.y + rv(b_base, 0).y,
            pt_in_range(reference),
            nfp@.len() >= 1,
            forall|k: int| 0 <= k < nfp@.len() ==> pt_in_range(#[trigger] nfp@[k]),
            prev matches Some(pv) ==> abs_i(pv.point.x as int) <= 2 * COORD_LIMIT && abs_i(
                pv.point.y as int) <= 2 * COORD_LIMIT && !(pv.point.x == 0 && pv.point.y == 0),
            spec_orbit(
                *a,
                b_base,
                start,
                orbit_init(b_base, start, old(marks_a)@, old(marks_b)@),
                fuel as int,
            ) == spec_orbit(
                *a,
                b_base,
                start,
                OrbitState {
                    boff: b.offset,
                    refp: reference,
                    nfp: nfp@,
                    marks_a: marks_a@,
                    marks_b: marks_b@,
                    prev: prev,
                },
                fuel - counter,
            ),
        decreases fuel - counter,
    {
        let ghost st = OrbitState {
            boff: b.offset,
            refp: reference,
            nfp: nfp@,
            marks_a: marks_a@,
            marks_b: marks_b@,
            prev: prev,
        };
        let step = orbit_advance(a, b, Ghost(b_base), start, marks_a, marks_b, &mut nfp,
            &mut reference, &mut prev);
        match step {
            StepKind::Fail => {
                proof {
                    reveal(spec_orbit);
                }
                return Option::None;
            },
            StepKind::Close => {
                proof {
                    reveal(spec_orbit);
                }
                return Some(nfp);
            },
            StepKind::Advance => {
                counter = counter + 1;
                proof {
                    reveal(spec_orbit);
                    assert(spec_orbit_step(*a, b_base, start, st) == OrbitOutcome::Step(
                        OrbitState {
                            boff: b.offset,
                            refp: reference,
                            nfp: nfp@,
                            marks_a: marks_a@,
                            marks_b: marks_b@,
                            prev: prev,
                        },
                    ));
                }
            },
        }
    }
    proof {
        reveal(spec_orbit);
    }
    Option::None
}

/// The transformed vertex with the least y coordinate among indices `i`
/// on, given the best so far; ties keep the earlier vertex.
pub open spec fn min_y_from(p: Polygon, i: int, best: Point2D) -> Point2D
    decreases p.vertices.len() - i,
{
    if i < 0 || i >= p.vertices.len() {
        best
    } else {
        min_y_from(
            p,
            i + 1,
            if tv(p, i).y < best.y {
                tv(p, i)
            } else {
                best
            },
        )
    }
}

/// The transformed vertex with the greatest y coordinate among indices
/// `i` on; ties keep the later vertex.
pub open spec fn max_y_from(p: Polygon, i: int, best: Point2D) -> Point2D
    decreases p.vertices.len() - i,
{
    if i < 0 || i >= p.vertices.len() {
        best
    } else {
        max_y_from(
            p,
            i + 1,
            if tv(p, i).y >= best.y {
                tv(p, i)
            } else {
                best
            },
        )
    }
}

/// A sequence of `n` cleared marks.
pub open spec fn no_marks(n: int) -> Seq<bool> {
    Seq::new(n as nat, |i: int| false)
}

/// The orbit-and-search loop: run an orbit trace from the current start
/// point, collect its contour if it closed, and (with `se` set) search for
/// the next start point among the unmarked stationary edges, for at most
/// `fuel` rounds.
#[verifier::opaque]
pub open spec fn outer_from(
    a: Polygon,
    b: Polygon,
    inside: bool,
    se: bool,
    ma: Seq<bool>,
    mb: Seq<bool>,
    acc: Seq<Seq<Point2D>>,
    start_opt: Option<Point2D>,
    fuel: int,
) -> Seq<Seq<Point2D>>
    decreases fuel,
{
    if fuel <= 0 {
        acc
    } else {
        match start_opt {
            Option::None => acc,
            Option::Some(sp) => {
                let orb = spec_orbit(
                    a,
                    b,
                    sp,
                    orbit_init(b, sp, ma, mb),
                    10 * (a.vertices.len() + b.vertices.len()),
                );
                let acc2 = match orb.0 {
                    Option::Some(c) => acc.push(c),
                    Option::None => acc,
                };
                if !se {
                    acc2
                } else {
                    let nxt = search_from(a, b, orb.1, inside, acc2, 0, 0);
                    outer_from(a, b, inside, se, orb.1, orb.2, acc2, nxt, fuel - 1)
                }
            },
        }
    }
}

/// The no-fit polygon of two zero-offset polygons, in the stationary
/// polygon's frame: the contours collected by the orbit-and-search loop,
/// seeded outside by the lowest stationary vertex minus the highest
/// orbiting vertex, and inside by the start-point search.
#[verifier::opaque]
pub open spec fn spec_nfp_zero(a: Polygon, b: Polygon, inside: bool, se: bool) -> Seq<
    Seq<Point2D>,
> {
    let start0 = if !inside {
        Option::Some(pt_sub(min_y_from(a, 1, tv(a, 0)), max_y_from(b, 1, tv(b, 0))))
    } else {
        search_from(a, b, no_marks(a.vertices.len() as int), inside, Seq::empty(), 0, 0)
    };
    outer_from(
        a,
        b,
        inside,
        se,
        no_marks(a.vertices.len() as int),
        no_marks(b.vertices.len() as int),
        Seq::empty(),
        start0,
        10 * (a.vertices.len() + b.vertices.len()) + 10,
    )
}

/// All contour points translated by `off`.
pub open spec fn translate_all(l: Seq<Seq<Point2D>>, off: Point2D) -> Seq<Seq<Point2D>> {
    l.map_values(|c: Seq<Point2D>| c.map_values(|p: Point2D| pt_add(p, off)))
}

/// The no-fit polygon of two placed polygons: the engine's contours for
/// their zero-offset shapes, translated back by the stationary polygon's
/// offset.
pub open spec fn spec_nfp(a: Polygon, b: Polygon, inside: bool, se: bool) -> Seq<Seq<Point2D>> {
    translate_all(
        spec_nfp_zero(
            with_offset(a, Point2D { x: 0, y: 0 }),
            with_offset(b, Point2D { x: 0, y: 0 }),
            inside,
            se,
        ),
        a.offset,
    )
}

/// A vector of `n` cleared marks.
fn make_marks(n: usize) -> (r: Vec<bool>)
    ensures
        r@ == no_marks(n as int),
        r.len() == n,
{
    let mut out: Vec<bool> = Vec::new();
    let mut i: usize = 0;
    while i < n
        invariant
            0 <= i <= n,
            out@.len() == i,
            forall|k: int| 0 <= k < i ==> out@[k] == false,
        decreases n - i,
    {
        out.push(false);
        i = i + 1;
    }
    proof {
        assert(out@ =~= no_marks(n as int));
    }
    out
}

/// The no-fit polygon of two zero-offset working polygons, pinned to
/// [`spec_nfp_zero`]; the orbiting polygon is used as scratch space.
#[verifier::rlimit(100)]
pub fn nfp_engine(a: &Polygon, b: &mut Polygon, inside: bool, search_edges: bool) -> (r: Vec<
    Vec<Point2D>>)
    requires
        poly_wf(*a),
        poly_wf(*old(b)),
        a.vertices.len() >= 1,
        old(b).vertices.len() >= 1,
        a.offset == (Point2D { x: 0, y: 0 }),
        old(b).offset == (Point2D { x: 0, y: 0 }),
    ensures
        vvv(r) == spec_nfp_zero(*a, *old(b), inside, search_edges),
        forall|ci: int| 0 <= ci < r@.len() ==> r@[ci]@.len() >= 1,
        forall|ci: int, pi: int|
            0 <= ci < r@.len() && 0 <= pi < r@[ci]@.len() ==> pt_in_range(#[trigger] r@[ci]@[pi]),
{
    let ghost b0 = *old(b);
    let n = a.length();
    let m = b.length();
    let mut marks_a = make_marks(n);
    let mut marks_b = make_marks(m);
    let mut start_opt: Option<Point2D>;
    if !inside {
        let mut mn: Point2D = a.get_vertex(0);
        proof {
            crate::polygon::lemma_tv(*a, 0);
            crate::polygon::lemma_rv(*a, 0);
            assert(abs_i(mn.x as int) <= 2 * VERT_MAX + 1 && abs_i(mn.y as int) <= 2 * VERT_MAX
                + 1);
        }
        let mut i: usize = 1;
        while i < n
            invariant
                1 <= i <= n,
                n == a.vertices.len(),
                poly_wf(*a),
                a.offset == (Point2D { x: 0, y: 0 }),
                abs_i(mn.x as int) <= 2 * VERT_MAX + 1,
                abs_i(mn.y as int) <= 2 * VERT_MAX + 1,
                min_y_from(*a, i as int, mn) == min_y_from(*a, 1, tv(*a, 0)),
            decreases n - i,
        {
            let v = a.get_vertex(i);
            proof {
                crate::polygon::lemma_tv(*a, i as int);
                crate::polygon::lemma_rv(*a, i as int);
            }
            if v.y < mn.y {
                mn = v;
            }
            i = i + 1;
        }
        let mut mx: Point2D = b.get_vertex(0);
        proof {
            crate::polygon::lemma_tv(*b, 0);
            crate::polygon::lemma_rv(*b, 0);
        }
        let mut j: usize = 1;
        while j < m
            invariant
                1 <= j <= m,
                m == b.vertices.len(),
                poly_wf(*b),
                *b == b0,
                b.offset == (Point2D { x: 0, y: 0 }),
                abs_i(mx.x as int) <= 2 * VERT_MAX + 1,
                abs_i(mx.y as int) <= 2 * VERT_MAX + 1,
                max_y_from(b0, j as int, mx) == max_y_from(b0, 1, tv(b0, 0)),
            decreases m - j,
        {
            let v = b.get_vertex(j);
            proof {
                crate::polygon::lemma_tv(*b, j as int);
                crate::polygon::lemma_rv(*b, j as int);
            }
            if v.y >= mx.y {
                mx = v;
            }
            j = j + 1;
        }
        start_opt = Some(Point2D { x: mn.x - mx.x, y: mn.y - mx.y });
    } else {
        let empty_list: Vec<Vec<Point2D>> = Vec::new();
        proof {
            assert(vvv(empty_list) =~= Seq::<Seq<Point2D>>::empty());
        }
        start_opt = search_start(a, b, &marks_a, inside, &empty_list);
    }
    let fuel: usize = 10 * (n + m) + 10;
    let mut acc: Vec<Vec<Point2D>> = Vec::new();
    let mut iter: usize = 0;
    let mut done: bool = false;
    proof {
        reveal(spec_nfp_zero);
        assert(vvv(acc) =~= Seq::<Seq<Point2D>>::empty());
        assert(with_offset(*b, Point2D { x: 0, y: 0 }) == b0);
    }
    while !done && iter < fuel
        invariant
            0 <= iter <= fuel,
            fuel == 10 * (n + m) + 10,
            n == a.vertices.len(),
            m == b0.vertices.len(),
            poly_wf(*a),
            poly_wf(b0),
            poly_wf(*b),
            n >= 1,
            m >= 1,
            a.offset == (Point2D { x: 0, y: 0 }),
            b.vertices == b0.vertices,
            b.rotation == b0.rotation,
            b0 == *old(b),
            b0.offset == (Point2D { x: 0, y: 0 }),
            marks_a.len() == n,
            marks_b.len() == m,
            start_opt matches Some(p) ==> abs_i(p.x as int) <= OFFSET_MAX && abs_i(p.y as int)
                <= OFFSET_MAX,
            forall|ci: int| 0 <= ci < acc@.len() ==> acc@[ci]@.len() >= 1,
            forall|ci: int, pi: int|
                0 <= ci < acc@.len() && 0 <= pi < acc@[ci]@.len() ==> pt_in_range(
                    #[trigger] acc@[ci]@[pi],
                ),
            done ==> vvv(acc) == spec_nfp_zero(*a, b0, inside, search_edges),
            !done ==> outer_from(
                *a,
                b0,
                inside,
                search_edges,
                marks_a@,
                marks_b@,
                vvv(acc),
                start_opt,
                fuel - iter,
            ) == spec_nfp_zero(*a, b0, inside, search_edges),
        decreases (if done {
            0int
        } else {
            1int
        }), fuel - iter,
    {
        match start_opt {
            Option::None => {
                proof {
                    reveal(outer_from);
                }
                done = true;
            },
            Some(sp) => {
                let ghost acc_pre = vvv(acc);
                let ghost bcall = *b;
                proof {
                    reveal(outer_from);
                    assert(with_offset(bcall, Point2D { x: 0, y: 0 }) == b0);
                }
                let contour = orbit_trace(a, b, sp, &mut marks_a, &mut marks_b);
                match contour {
                    Some(c) => {
                        let ghost cview = c@;
                        acc.push(c);
                        proof {
                            assert(vvv(acc) =~= acc_pre.push(cview));
                        }
                    },
                    Option::None => {},
                }
                if !search_edges {
                    done = true;
                } else {
                    let ghost bcall2 = *b;
                    proof {
                        assert(with_offset(bcall2, Point2D { x: 0, y: 0 }) == b0);
                    }
                    let nx = search_start(a, b, &marks_a, inside, &acc);
                    start_opt = nx;
                    iter = iter + 1;
                }
            },
        }
    }
    proof {
        reveal(outer_from);
    }
    acc
}

impl Polygon {
    /// The no-fit polygon of `self` (stationary) and `other` (orbiting):
    /// the contours of offsets at which `other` touches but does not
    /// overlap `self`, in `self`'s frame of placement. The engine runs on
    /// private zero-offset copies of both polygons and the contours are
    /// translated by `self`'s offset, so neither input is changed. With
    /// `inside` the orbiting polygon is placed inside the stationary one;
    /// with `search_edges` further disjoint contours are searched for.
    pub fn no_fit_polygon(&self, other: &Polygon, inside: bool, search_edges: bool) -> (r: Option<
        Vec<Vec<Point2D>>>)
        requires
            poly_wf(*self),
            poly_wf(*other),
            self.vertices.len() >= 1,
            other.vertices.len() >= 1,
        ensures
            r is Some,
            r matches Some(l) ==> vvv(l) == spec_nfp(*self, *other, inside, search_edges),
            r matches Some(l) ==> forall|ci: int| 0 <= ci < l@.len() ==> l@[ci]@.len() >= 1,
            r matches Some(l) ==> forall|ci: int, pi: int|
                0 <= ci < l@.len() && 0 <= pi < l@[ci]@.len() ==> abs_i(
                    (#[trigger] l@[ci]@[pi]).x as int,
                ) <= COORD_LIMIT + OFFSET_MAX && abs_i(l@[ci]@[pi].y as int) <= COORD_LIMIT
                    + OFFSET_MAX,
    {
        let a_c = Polygon {
            vertices: copy_points(&self.vertices),
            offset: Point2D { x: 0, y: 0 },
            rotation: self.rotation,
        };
        let mut b_c = Polygon {
            vertices: copy_points(&other.vertices),
            offset: Point2D { x: 0, y: 0 },
            rotation: other.rotation,
        };
        proof {
            assert(poly_wf(a_c));
            assert(poly_wf(b_c));
        }
        let ghost ga = a_c;
        let ghost gb = b_c;
        let list = nfp_engine(&a_c, &mut b_c, inside, search_edges);
        let off = self.offset;
        let nl = list.len();
        let mut out: Vec<Vec<Point2D>> = Vec::new();
        let mut ci: usize = 0;
        while ci < nl
            invariant
                0 <= ci <= nl,
                nl == list@.len(),
                abs_i(off.x as int) <= OFFSET_MAX,
                abs_i(off.y as int) <= OFFSET_MAX,
                forall|c2: int| 0 <= c2 < nl ==> list@[c2]@.len() >= 1,
                forall|c2: int, p2: int|
                    0 <= c2 < nl && 0 <= p2 < list@[c2]@.len() ==> pt_in_range(
                        #[trigger] list@[c2]@[p2],
                    ),
                out@.len() == ci,
                forall|c2: int|
                    0 <= c2 < ci ==> (#[trigger] out@[c2])@ == list@[c2]@.map_values(
                        |p: Point2D| pt_add(p, off),
                    ),
                forall|c2: int| 0 <= c2 < ci ==> (#[trigger] out@[c2])@.len() >= 1,
                forall|c2: int, p2: int|
                    0 <= c2 < ci && 0 <= p2 < out@[c2]@.len() ==> abs_i(
                        (#[trigger] out@[c2]@[p2]).x as int,
                    ) <= COORD_LIMIT + OFFSET_MAX && abs_i(out@[c2]@[p2].y as int) <= COORD_LIMIT
                        + OFFSET_MAX,
            decreases nl - ci,
        {
            let contour = &list[ci];
            let mc = contour.len();
            let mut tc: Vec<Point2D> = Vec::new();
            let mut pi: usize = 0;
            while pi < mc
                invariant
                    0 <= pi <= mc,
                    0 <= ci < nl,
                    nl == list@.len(),
                    mc == list@[ci as int]@.len(),
                    *contour == list@[ci as int],
                    abs_i(off.x as int) <= OFFSET_MAX,
                    abs_i(off.y as int) <= OFFSET_MAX,
                    forall|c2: int, p2: int|
                        0 <= c2 < nl && 0 <= p2 < list@[c2]@.len() ==> pt_in_range(
                            #[trigger] list@[c2]@[p2],
                        ),
                    tc@.len() == pi,
                    forall|p2: int|
                        0 <= p2 < pi ==> #[trigger] tc@[p2] == pt_add(
                            list@[ci as int]@[p2],
                            off,
                        ),
                    forall|p2: int|
                        0 <= p2 < pi ==> abs_i((#[trigger] tc@[p2]).x as int) <= COORD_LIMIT
                            + OFFSET_MAX && abs_i(tc@[p2].y as int) <= COORD_LIMIT + OFFSET_MAX,
                decreases mc - pi,
            {
                proof {
                    assert(pt_in_range(list@[ci as int]@[pi as int]));
                }
                let p = contour[pi];
                tc.push(Point2D { x: p.x + off.x, y: p.y + off.y });
                pi = pi + 1;
            }
            proof {
                assert(tc@ =~= list@[ci as int]@.map_values(|p: Point2D| pt_add(p, off)));
            }
            out.push(tc);
            ci = ci + 1;
        }
        proof {
            assert(vvv(out) =~= translate_all(vvv(list), off));
            lemma_nfp_zero_cong(
                ga,
                with_offset(*self, Point2D { x: 0, y: 0 }),
                gb,
                with_offset(*other, Point2D { x: 0, y: 0 }),
                inside,
                search_edges,
            );
        }
        Some(out)
    }
}

/// The no-fit polygon is a function of its arguments: any two results
/// that meet [`Polygon::no_fit_polygon`]'s contract on the same inputs
/// (or on inputs of the same shape) are the same contour list.
pub proof fn lemma_nfp_deterministic(
    a1: Polygon,
    a2: Polygon,
    b1: Polygon,
    b2: Polygon,
    inside: bool,
    se: bool,
    r1: Seq<Seq<Point2D>>,
    r2: Seq<Seq<Point2D>>,
)
    requires
        crate::polygon::same_shape(a1, a2),
        crate::polygon::same_shape(b1, b2),
        r1 == spec_nfp(a1, b1, inside, se),
        r2 == spec_nfp(a2, b2, inside, se),
    ensures
        r1 == r2,
{
    lemma_nfp_zero_cong(
        with_offset(a1, Point2D { x: 0, y: 0 }),
        with_offset(a2, Point2D { x: 0, y: 0 }),
        with_offset(b1, Point2D { x: 0, y: 0 }),
        with_offset(b2, Point2D { x: 0, y: 0 }),
        inside,
        se,
    );
}

/// The first-definite probe depends only on the shapes.
proof fn lemma_first_definite_cong(a1: Polygon, a2: Polygon, b1: Polygon, b2: Polygon, k: int)
    requires
        crate::polygon::same_shape(a1, a2),
        crate::polygon::same_shape(b1, b2),
    ensures
        first_definite(a1, b1, k) == first_definite(a2, b2, k),
    decreases b1.vertices.len() - k,
{
    if !(k < 0 || k >= b1.vertices.len()) {
        crate::polygon::lemma_tv_cong(b1, b2, k);
        crate::polygon::lemma_in_polygon_cong(tv(b1, k), a1, a2);
        lemma_first_definite_cong(a1, a2, b1, b2, k + 1);
    }
}

/// The candidate vectors of one edge pair depend only on the shapes.
proof fn lemma_vecs_of_pair_cong(a1: Polygon, a2: Polygon, b1: Polygon, b2: Polygon, i: int,
    j: int)
    requires
        crate::polygon::same_shape(a1, a2),
        crate::polygon::same_shape(b1, b2),
    ensures
        vecs_of_pair(a1, b1, i, j) == vecs_of_pair(a2, b2, i, j),
{
    crate::polygon::lemma_tv_cong(a1, a2, i);
    crate::polygon::lemma_tv_cong(a1, a2, prev_idx(a1, i));
    crate::polygon::lemma_tv_cong(a1, a2, wrap(a1, i));
    crate::polygon::lemma_tv_cong(b1, b2, j);
    crate::polygon::lemma_tv_cong(b1, b2, prev_idx(b1, j));
    crate::polygon::lemma_tv_cong(b1, b2, wrap(b1, j));
    reveal(vecs_of_pair);
    assert(vecs_of_pair(a1, b1, i, j) =~= vecs_of_pair(a2, b2, i, j));
}

/// The vector collection depends only on the shapes.
proof fn lemma_vectors_from_cong(a1: Polygon, a2: Polygon, b1: Polygon, b2: Polygon, i: int, j: int)
    requires
        crate::polygon::same_shape(a1, a2),
        crate::polygon::same_shape(b1, b2),
    ensures
        vectors_from(a1, b1, i, j) == vectors_from(a2, b2, i, j),
    decreases a1.vertices.len() - i, b1.vertices.len() + 1 - j,
{
    if !(i < 0 || j < 0 || i >= a1.vertices.len()) {
        if j >= b1.vertices.len() {
            lemma_vectors_from_cong(a1, a2, b1, b2, i + 1, 0);
        } else {
            lemma_vecs_of_pair_cong(a1, a2, b1, b2, i, j);
            lemma_vectors_from_cong(a1, a2, b1, b2, i, j + 1);
        }
    }
}

/// The touching marks depend only on the shapes.
proof fn lemma_marks_from_cong(a1: Polygon, a2: Polygon, b1: Polygon, b2: Polygon,
    marks: Seq<bool>, i: int, j: int)
    requires
        crate::polygon::same_shape(a1, a2),
        crate::polygon::same_shape(b1, b2),
    ensures
        marks_from(a1, b1, marks, i, j) == marks_from(a2, b2, marks, i, j),
    decreases a1.vertices.len() - i, b1.vertices.len() + 1 - j,
{
    if !(i < 0 || j < 0 || i >= a1.vertices.len()) {
        if j >= b1.vertices.len() {
            lemma_marks_from_cong(a1, a2, b1, b2, marks, i + 1, 0);
        } else {
            crate::polygon::lemma_tv_cong(a1, a2, i);
            crate::polygon::lemma_tv_cong(a1, a2, wrap(a1, i));
            crate::polygon::lemma_tv_cong(b1, b2, j);
            crate::polygon::lemma_tv_cong(b1, b2, wrap(b1, j));
            let sa = tseg(a1, i);
            let sb = tseg(b1, j);
            let marks2 = if pt_close(sa.start, sb.start) {
                marks.update(i, true)
            } else if spec_on_segment(sb.start, sa.start, sa.end) {
                marks.update(wrap(a1, i), true)
            } else if spec_on_segment(sa.start, sb.start, sb.end) {
                marks.update(i, true)
            } else {
                marks
            };
            lemma_marks_from_cong(a1, a2, b1, b2, marks2, i, j + 1);
        }
    }
}

/// The translation selection depends only on the shapes.
proof fn lemma_select_from_cong(a1: Polygon, a2: Polygon, b1: Polygon, b2: Polygon,
    vecs: Seq<CandVec>, k: int, prev: Option<CandVec>, best: Option<CandVec>, max_d: int)
    requires
        crate::polygon::same_shape(a1, a2),
        crate::polygon::same_shape(b1, b2),
    ensures
        select_from(a1, b1, vecs, k, prev, best, max_d) == select_from(
            a2,
            b2,
            vecs,
            k,
            prev,
            best,
            max_d,
        ),
    decreases vecs.len() - k,
{
    if !(k < 0 || k >= vecs.len()) {
        let v = vecs[k];
        if v.point.x == 0 && v.point.y == 0 {
            lemma_select_from_cong(a1, a2, b1, b2, vecs, k + 1, prev, best, max_d);
        } else {
            let skip = match prev {
                Option::Some(pv) => {
                    if pv.point.x * v.point.x + pv.point.y * v.point.y < 0 {
                        abs_i(
                            unit_sy(v.point) * unit_sx(pv.point) - unit_sx(v.point) * unit_sy(
                                pv.point,
                            ),
                        ) < DIR_EPS
                    } else {
                        false
                    }
                },
                Option::None => false,
            };
            if skip {
                lemma_select_from_cong(a1, a2, b1, b2, vecs, k + 1, prev, best, max_d);
            } else {
                crate::polygon::lemma_slide_distance_cong(a1, a2, b1, b2, v.point, true);
                let d_opt = spec_slide_distance(a1, b1, v.point, true);
                let vd2 = norm2(v.point);
                let d = match d_opt {
                    Option::None => sqrt_floor(vd2),
                    Option::Some(dv) => if dv * dv > vd2 {
                        sqrt_floor(vd2)
                    } else {
                        dv
                    },
                };
                if d > max_d {
                    lemma_select_from_cong(a1, a2, b1, b2, vecs, k + 1, prev, Option::Some(v), d);
                } else {
                    lemma_select_from_cong(a1, a2, b1, b2, vecs, k + 1, prev, best, max_d);
                }
            }
        }
    }
}

/// A start-point probe depends only on the shapes.
proof fn lemma_probe_cong(a1: Polygon, a2: Polygon, b1: Polygon, b2: Polygon, inside: bool,
    nfps: Seq<Seq<Point2D>>, i: int, j: int)
    requires
        crate::polygon::same_shape(a1, a2),
        crate::polygon::same_shape(b1, b2),
    ensures
        spec_probe(a1, b1, inside, nfps, i, j) == spec_probe(a2, b2, inside, nfps, i, j),
{
    reveal(spec_probe);
    reveal(spec_slide_probe);
    crate::polygon::lemma_tv_cong(a1, a2, i);
    crate::polygon::lemma_tv_cong(a1, a2, wrap(a1, i));
    crate::polygon::lemma_tv_cong(b1, b2, j);
    let sa = tseg(a1, i);
    let o1 = pt_sub(sa.start, rv(b1, j));
    if !(abs_i(o1.x as int) > OFFSET_MAX || abs_i(o1.y as int) > OFFSET_MAX) {
        lemma_first_definite_cong(a1, a2, with_offset(b1, o1), with_offset(b2, o1), 0);
        crate::polygon::lemma_intersects_polygon_cong(
            a1,
            a2,
            with_offset(b1, o1),
            with_offset(b2, o1),
        );
        let v = pt_sub(sa.end, sa.start);
        crate::polygon::lemma_project_distance_cong(a1, a2, with_offset(b1, o1), with_offset(
            b2, o1), v);
        crate::polygon::lemma_project_distance_cong(
            with_offset(b1, o1),
            with_offset(b2, o1),
            a1,
            a2,
            Point2D { x: (-v.x) as i64, y: (-v.y) as i64 },
        );
        match search_slide_len(a1, b1, o1, v) {
            Option::None => {},
            Option::Some(d) => {
                if d > EPS {
                    let vlen = sqrt_floor(norm2(v));
                    let vv = if d + EPS < vlen {
                        Point2D {
                            x: div_round(v.x as int * d, vlen) as i64,
                            y: div_round(v.y as int * d, vlen) as i64,
                        }
                    } else {
                        v
                    };
                    let o2 = pt_add(o1, vv);
                    if !(abs_i(o2.x as int) > OFFSET_MAX || abs_i(o2.y as int) > OFFSET_MAX) {
                        lemma_first_definite_cong(a1, a2, with_offset(b1, o2), with_offset(b2, o2),
                            0);
                        crate::polygon::lemma_intersects_polygon_cong(
                            a1,
                            a2,
                            with_offset(b1, o2),
                            with_offset(b2, o2),
                        );
                    }
                }
            },
        }
    }
}

/// The start-point search depends only on the shapes.
proof fn lemma_search_from_cong(a1: Polygon, a2: Polygon, b1: Polygon, b2: Polygon,
    marks: Seq<bool>, inside: bool, nfps: Seq<Seq<Point2D>>, i: int, j: int)
    requires
        crate::polygon::same_shape(a1, a2),
        crate::polygon::same_shape(b1, b2),
    ensures
        search_from(a1, b1, marks, inside, nfps, i, j) == search_from(
            a2,
            b2,
            marks,
            inside,
            nfps,
            i,
            j,
        ),
    decreases a1.vertices.len() - i, b1.vertices.len() + 1 - j,
{
    if !(i < 0 || j < 0 || i >= a1.vertices.len()) {
        if marks[i] {
            lemma_search_from_cong(a1, a2, b1, b2, marks, inside, nfps, i + 1, 0);
        } else if j >= b1.vertices.len() {
            lemma_search_from_cong(a1, a2, b1, b2, marks, inside, nfps, i + 1, 0);
        } else {
            lemma_probe_cong(a1, a2, b1, b2, inside, nfps, i, j);
            lemma_search_from_cong(a1, a2, b1, b2, marks, inside, nfps, i, j + 1);
        }
    }
}

/// One orbit step depends only on the shapes.
proof fn lemma_orbit_step_cong(a1: Polygon, a2: Polygon, b1: Polygon, b2: Polygon, start: Point2D,
    st: OrbitState)
    requires
        crate::polygon::same_shape(a1, a2),
        crate::polygon::same_shape(b1, b2),
    ensures
        spec_orbit_step(a1, b1, start, st) == spec_orbit_step(a2, b2, start, st),
{
    reveal(spec_orbit_step);
    let bc1 = with_offset(b1, st.boff);
    let bc2 = with_offset(b2, st.boff);
    lemma_vectors_from_cong(a1, a2, bc1, bc2, 0, 0);
    lemma_marks_from_cong(a1, a2, bc1, bc2, st.marks_a, 0, 0);
    lemma_select_from_cong(a1, a2, bc1, bc2, vectors_from(a1, bc1, 0, 0), 0, st.prev,
        Option::None, 0);
}

/// The orbit trace depends only on the shapes.
proof fn lemma_orbit_cong(a1: Polygon, a2: Polygon, b1: Polygon, b2: Polygon, start: Point2D,
    st: OrbitState, fuel: int)
    requires
        crate::polygon::same_shape(a1, a2),
        crate::polygon::same_shape(b1, b2),
    ensures
        spec_orbit(a1, b1, start, st, fuel) == spec_orbit(a2, b2, start, st, fuel),
    decreases fuel,
{
    reveal(spec_orbit);
    if fuel > 0 {
        lemma_orbit_step_cong(a1, a2, b1, b2, start, st);
        match spec_orbit_step(a1, b1, start, st) {
            OrbitOutcome::Step(st2) => {
                lemma_orbit_cong(a1, a2, b1, b2, start, st2, fuel - 1);
            },
            _ => {},
        }
    }
}

/// The lowest and highest transformed vertices depend only on the shapes.
proof fn lemma_min_max_y_cong(p: Polygon, q: Polygon, i: int, best: Point2D)
    requires
        crate::polygon::same_shape(p, q),
    ensures
        min_y_from(p, i, best) == min_y_from(q, i, best),
        max_y_from(p, i, best) == max_y_from(q, i, best),
    decreases p.vertices.len() - i,
{
    if !(i < 0 || i >= p.vertices.len()) {
        crate::polygon::lemma_tv_cong(p, q, i);
        lemma_min_max_y_cong(
            p,
            q,
            i + 1,
            if tv(p, i).y < best.y {
                tv(p, i)
            } else {
                best
            },
        );
        lemma_min_max_y_cong(
            p,
            q,
            i + 1,
            if tv(p, i).y >= best.y {
                tv(p, i)
            } else {
                best
            },
        );
    }
}

/// The orbit-and-search loop depends only on the shapes.
proof fn lemma_outer_from_cong(a1: Polygon, a2: Polygon, b1: Polygon, b2: Polygon, inside: bool,
    se: bool, ma: Seq<bool>, mb: Seq<bool>, acc: Seq<Seq<Point2D>>, start_opt: Option<Point2D>,
    fuel: int)
    requires
        crate::polygon::same_shape(a1, a2),
        crate::polygon::same_shape(b1, b2),
    ensures
        outer_from(a1, b1, inside, se, ma, mb, acc, start_opt, fuel) == outer_from(
            a2,
            b2,
            inside,
            se,
            ma,
            mb,
            acc,
            start_opt,
            fuel,
        ),
    decreases fuel,
{
    reveal(outer_from);
    if fuel > 0 {
        match start_opt {
            Option::None => {},
            Option::Some(sp) => {
                crate::polygon::lemma_tv_cong(with_offset(b1, sp), with_offset(b2, sp), 0);
                assert(orbit_init(b1, sp, ma, mb) == orbit_init(b2, sp, ma, mb));
                lemma_orbit_cong(
                    a1,
                    a2,
                    b1,
                    b2,
                    sp,
                    orbit_init(b1, sp, ma, mb),
                    10 * (a1.vertices.len() + b1.vertices.len()) as int,
                );
                let orb = spec_orbit(
                    a1,
                    b1,
                    sp,
                    orbit_init(b1, sp, ma, mb),
                    10 * (a1.vertices.len() + b1.vertices.len()) as int,
                );
                let acc2 = match orb.0 {
                    Option::Some(c) => acc.push(c),
                    Option::None => acc,
                };
                if se {
                    lemma_search_from_cong(a1, a2, b1, b2, orb.1, inside, acc2, 0, 0);
                    lemma_outer_from_cong(
                        a1,
                        a2,
                        b1,
                        b2,
                        inside,
                        se,
                        orb.1,
                        orb.2,
                        acc2,
                        search_from(a1, b1, orb.1, inside, acc2, 0, 0),
                        fuel - 1,
                    );
                }
            },
        }
    }
}

/// The whole engine result depends only on the shapes of its inputs.
pub proof fn lemma_nfp_zero_cong(a1: Polygon, a2: Polygon, b1: Polygon, b2: Polygon, inside: bool,
    se: bool)
    requires
        crate::polygon::same_shape(a1, a2),
        crate::polygon::same_shape(b1, b2),
    ensures
        spec_nfp_zero(a1, b1, inside, se) == spec_nfp_zero(a2, b2, inside, se),
{
    reveal(spec_nfp_zero);
    crate::polygon::lemma_tv_cong(a1, a2, 0);
    crate::polygon::lemma_tv_cong(b1, b2, 0);
    lemma_min_max_y_cong(a1, a2, 1, tv(a1, 0));
    lemma_min_max_y_cong(b1, b2, 1, tv(b1, 0));
    lemma_search_from_cong(
        a1,
        a2,
        b1,
        b2,
        no_marks(a1.vertices.len() as int),
        inside,
        Seq::empty(),
        0,
        0,
    );
    let start0 = if !inside {
        Option::Some(pt_sub(min_y_from(a1, 1, tv(a1, 0)), max_y_from(b1, 1, tv(b1, 0))))
    } else {
        search_from(a1, b1, no_marks(a1.vertices.len() as int), inside, Seq::empty(), 0, 0)
    };
    lemma_outer_from_cong(
        a1,
        a2,
        b1,
        b2,
        inside,
        se,
        no_marks(a1.vertices.len() as int),
        no_marks(b1.vertices.len() as int),
        Seq::empty(),
        start0,
        10 * (a1.vertices.len() + b1.vertices.len()) as int + 10,
    );
}

} // verus!
