//! A piece with holes: one outer boundary plus zero or more hole
//! boundaries, owned outright and transformed together.

use vstd::prelude::*;

use crate::bounding_box::{bb_in_range, BoundingBox};
use crate::no_fit_polygon::{spec_nfp, vvv};
use crate::num::abs_i;
use crate::point::{pt_in_range, Point2D};
use crate::polygon::{poly_wf, spec_area, spec_bb, Polygon};
use crate::{COORD_LIMIT, N_MAX, OFFSET_MAX, VERT_MAX};

verus! {

/// The no-fit contours contributed by the holes from index `k` on: for
/// each hole, the contours along which the other piece's outer boundary
/// slides inside that hole.
pub open spec fn mp_nfp_holes(m: MultiPolygon, o: MultiPolygon, k: int) -> Seq<Seq<Point2D>>
    decreases m.holes@.len() - k,
{
    if k < 0 || k >= m.holes@.len() {
        Seq::empty()
    } else {
        spec_nfp(m.holes@[k], o.outer, true, false) + mp_nfp_holes(m, o, k + 1)
    }
}

/// The composed no-fit polygon of two pieces: the outer-boundary contours
/// (outside placement) when asked, followed by every hole's contours
/// (inside placement) in stored order. The other piece's holes are never
/// consulted.
pub open spec fn spec_mp_nfp(m: MultiPolygon, o: MultiPolygon, include_outer: bool,
    include_holes: bool) -> Seq<Seq<Point2D>> {
    (if include_outer {
        spec_nfp(m.outer, o.outer, false, false)
    } else {
        Seq::<Seq<Point2D>>::empty()
    }) + (if include_holes {
        mp_nfp_holes(m, o, 0)
    } else {
        Seq::<Seq<Point2D>>::empty()
    })
}

/// One outer boundary plus its holes; holes are wound opposite the outer
/// by convention, though nothing enforces it.
#[derive(Clone, Debug)]
pub struct MultiPolygon {
    pub outer: Polygon,
    pub holes: Vec<Polygon>,
}

/// Well-formed: the outer and every hole are well-formed and nonempty,
/// and there are boundedly many holes.
pub open spec fn mp_wf(m: MultiPolygon) -> bool {
    poly_wf(m.outer) && m.outer.vertices.len() >= 1 && m.holes@.len() <= N_MAX && (forall|i: int|
        0 <= i < m.holes@.len() ==> poly_wf(#[trigger] m.holes@[i]) && m.holes@[i].vertices.len()
            >= 1)
}

/// The absolute value of a polygon's signed area.
pub open spec fn abs_area(p: Polygon) -> int {
    abs_i(spec_area(p))
}

/// The net area of the piece over the first `k` holes: the outer area less
/// the hole areas, all unsigned.
pub open spec fn mp_area_partial(m: MultiPolygon, k: int) -> int
    decreases k,
{
    if k <= 0 {
        abs_area(m.outer)
    } else {
        mp_area_partial(m, k - 1) - abs_area(m.holes@[k - 1])
    }
}

/// The net area of the piece: the outer area less every hole's area.
pub open spec fn spec_mp_area(m: MultiPolygon) -> int {
    mp_area_partial(m, m.holes@.len() as int)
}

impl MultiPolygon {
    /// A piece from its outer boundary and holes.
    pub fn new(outer: Polygon, holes: Vec<Polygon>) -> (r: MultiPolygon)
        ensures
            r.outer == outer,
            r.holes == holes,
    {
        MultiPolygon { outer, holes }
    }

    /// The outer boundary.
    pub fn outer(&self) -> (r: &Polygon)
        ensures
            r == self.outer,
    {
        &self.outer
    }

    /// The holes.
    pub fn holes(&self) -> (r: &Vec<Polygon>)
        ensures
            r == self.holes,
    {
        &self.holes
    }

    /// The bounding box of the piece: the outer boundary's box.
    pub fn bounding_box(&self) -> (r: BoundingBox)
        requires
            mp_wf(*self),
        ensures
            r == spec_bb(self.outer),
            forall|i: int|
                0 <= i < self.outer.vertices.len() ==> r.min_x <= #[trigger] crate::polygon::tv(
                    self.outer,
                    i,
                ).x <= r.max_x && r.min_y <= crate::polygon::tv(self.outer, i).y <= r.max_y,
            bb_in_range(r),
    {
        self.outer.bounding_box()
    }

    /// The net area: the outer boundary's unsigned area less every hole's
    /// unsigned area.
    pub fn area(&self) -> (r: i128)
        requires
            mp_wf(*self),
        ensures
            r == spec_mp_area(*self),
    {
        let oa: i128 = self.outer.area();
        proof {
            crate::polygon::lemma_area_bound(self.outer);
        }
        let mut acc: i128 = if oa < 0 {
            -oa
        } else {
            oa
        };
        let h = self.holes.len();
        let mut k: usize = 0;
        while k < h
            invariant
                0 <= k <= h,
                h == self.holes@.len(),
                mp_wf(*self),
                acc == mp_area_partial(*self, k as int),
                abs_i(acc as int) <= (k + 1) * (N_MAX as int) * 4 * (VERT_MAX as int) * (VERT_MAX
                    as int),
            decreases h - k,
        {
            let ha: i128 = self.holes[k].area();
            proof {
                crate::polygon::lemma_area_bound(self.holes@[k as int]);
            }
            let haa: i128 = if ha < 0 {
                -ha
            } else {
                ha
            };
            proof {
                assert((k + 1) * (N_MAX as int) * 4 * (VERT_MAX as int) * (VERT_MAX as int) + (
                N_MAX as int) * 4 * (VERT_MAX as int) * (VERT_MAX as int) == (k + 2) * (N_MAX
                    as int) * 4 * (VERT_MAX as int) * (VERT_MAX as int) && (k + 2) * (N_MAX as int)
                    * 4 * (VERT_MAX as int) * (VERT_MAX as int) <= ((N_MAX as int) + 2) * (N_MAX
                    as int) * 4 * (VERT_MAX as int) * (VERT_MAX as int)
                    < 0x8000_0000_0000_0000_0000_0000_0000_0000) by (nonlinear_arith)
                    requires
                        0 <= k < N_MAX,
                ;
            }
            acc = acc - haa;
            k = k + 1;
        }
        acc
    }

    /// The no-fit polygon of this piece and another: with `include_outer`,
    /// the contours along which `other` slides outside this piece's outer
    /// boundary; with `include_holes`, for every hole the contours along
    /// which `other` slides inside that hole. Each part is the engine's
    /// result for the corresponding boundary pair.
    pub fn no_fit_polygon(&self, other: &MultiPolygon, include_outer: bool, include_holes: bool)
        -> (r: Vec<Vec<Point2D>>)
        requires
            mp_wf(*self),
            mp_wf(*other),
        ensures
            vvv(r) == spec_mp_nfp(*self, *other, include_outer, include_holes),
            forall|ci: int| 0 <= ci < r@.len() ==> r@[ci]@.len() >= 1,
            forall|ci: int, pi: int|
                0 <= ci < r@.len() && 0 <= pi < r@[ci]@.len() ==> abs_i(
                    (#[trigger] r@[ci]@[pi]).x as int,
                ) <= COORD_LIMIT + OFFSET_MAX && abs_i(r@[ci]@[pi].y as int) <= COORD_LIMIT
                    + OFFSET_MAX,
    {
        let ghost first_part: Seq<Seq<Point2D>> = if include_outer {
            spec_nfp(self.outer, other.outer, false, false)
        } else {
            Seq::<Seq<Point2D>>::empty()
        };
        let mut out: Vec<Vec<Point2D>> = Vec::new();
        proof {
            assert(vvv(out) =~= Seq::<Seq<Point2D>>::empty());
        }
        if include_outer {
            let part = self.outer.no_fit_polygon(&other.outer, false, false);
            match part {
                Some(mut l) => {
                    let ghost out_pre0 = out@;
                    let ghost lv0 = l@;
                    let ghost gpart = vvv(l);
                    append_contours(&mut out, &mut l);
                    proof {
                        lemma_vvv_add(out_pre0, lv0);
                        assert(vvv(out) =~= gpart);
                    }
                },
                Option::None => {},
            }
        }
        proof {
            assert(vvv(out) =~= first_part);
        }
        if include_holes {
            let h = self.holes.len();
            let mut k: usize = 0;
            while k < h
                invariant
                    0 <= k <= h,
                    h == self.holes@.len(),
                    mp_wf(*self),
                    mp_wf(*other),
                    first_part == (if include_outer {
                        spec_nfp(self.outer, other.outer, false, false)
                    } else {
                        Seq::<Seq<Point2D>>::empty()
                    }),
                    vvv(out) + mp_nfp_holes(*self, *other, k as int) == first_part + mp_nfp_holes(
                        *self,
                        *other,
                        0,
                    ),
                    forall|ci: int| 0 <= ci < out@.len() ==> out@[ci]@.len() >= 1,
                    forall|ci: int, pi: int|
                        0 <= ci < out@.len() && 0 <= pi < out@[ci]@.len() ==> abs_i(
                            (#[trigger] out@[ci]@[pi]).x as int,
                        ) <= COORD_LIMIT + OFFSET_MAX && abs_i(out@[ci]@[pi].y as int)
                            <= COORD_LIMIT + OFFSET_MAX,
                decreases h - k,
            {
                let ghost out_pre = vvv(out);
                let hole = &self.holes[k];
                let part = hole.no_fit_polygon(&other.outer, true, false);
                match part {
                    Some(mut l) => {
                        let ghost out_vecs = out@;
                        let ghost l_vecs = l@;
                        let ghost gpart = vvv(l);
                        append_contours(&mut out, &mut l);
                        proof {
                            lemma_vvv_add(out_vecs, l_vecs);
                            assert(vvv(out) =~= out_pre + gpart);
                            assert(out_pre + gpart + mp_nfp_holes(*self, *other, k + 1) =~= out_pre
                                + (gpart + mp_nfp_holes(*self, *other, k + 1)));
                        }
                    },
                    Option::None => {
                        proof {
                            assert(false);
                        }
                    },
                }
                k = k + 1;
            }
            proof {
                assert(mp_nfp_holes(*self, *other, h as int) =~= Seq::<Seq<Point2D>>::empty());
                assert(vvv(out) =~= vvv(out) + mp_nfp_holes(*self, *other, h as int));
                assert(first_part + mp_nfp_holes(*self, *other, 0) =~= spec_mp_nfp(
                    *self,
                    *other,
                    include_outer,
                    include_holes,
                ));
            }
        } else {
            proof {
                assert(first_part =~= spec_mp_nfp(*self, *other, include_outer, include_holes));
            }
        }
        out
    }
}

/// The contour views of concatenated contour vectors are the
/// concatenation of their contour views.
proof fn lemma_vvv_add(v1: Seq<Vec<Point2D>>, v2: Seq<Vec<Point2D>>)
    ensures
        (v1 + v2).map_values(|c: Vec<Point2D>| c@) == v1.map_values(|c: Vec<Point2D>| c@)
            + v2.map_values(|c: Vec<Point2D>| c@),
{
    assert((v1 + v2).map_values(|c: Vec<Point2D>| c@) =~= v1.map_values(|c: Vec<Point2D>| c@)
        + v2.map_values(|c: Vec<Point2D>| c@));
}

/// Moves every contour of `src` to the end of `dst`, keeping order.
fn append_contours(dst: &mut Vec<Vec<Point2D>>, src: &mut Vec<Vec<Point2D>>)
    requires
        forall|ci: int| 0 <= ci < old(dst)@.len() ==> old(dst)@[ci]@.len() >= 1,
        forall|ci: int| 0 <= ci < old(src)@.len() ==> old(src)@[ci]@.len() >= 1,
        forall|ci: int, pi: int|
            0 <= ci < old(dst)@.len() && 0 <= pi < old(dst)@[ci]@.len() ==> abs_i(
                (#[trigger] old(dst)@[ci]@[pi]).x as int,
            ) <= COORD_LIMIT + OFFSET_MAX && abs_i(old(dst)@[ci]@[pi].y as int) <= COORD_LIMIT
                + OFFSET_MAX,
        forall|ci: int, pi: int|
            0 <= ci < old(src)@.len() && 0 <= pi < old(src)@[ci]@.len() ==> abs_i(
                (#[trigger] old(src)@[ci]@[pi]).x as int,
            ) <= COORD_LIMIT + OFFSET_MAX && abs_i(old(src)@[ci]@[pi].y as int) <= COORD_LIMIT
                + OFFSET_MAX,
    ensures
        final(dst)@ == old(dst)@ + old(src)@,
        forall|ci: int| 0 <= ci < final(dst)@.len() ==> final(dst)@[ci]@.len() >= 1,
        forall|ci: int, pi: int|
            0 <= ci < final(dst)@.len() && 0 <= pi < final(dst)@[ci]@.len() ==> abs_i(
                (#[trigger] final(dst)@[ci]@[pi]).x as int,
            ) <= COORD_LIMIT + OFFSET_MAX && abs_i(final(dst)@[ci]@[pi].y as int) <= COORD_LIMIT
                + OFFSET_MAX,
{
    let ghost dst0 = dst@;
    let ghost src0 = src@;
    let n = src.len();
    let mut k: usize = 0;
    while k < n
        invariant
            0 <= k <= n,
            n == src0.len(),
            src@ =~= src0.skip(k as int),
            dst@ =~= dst0 + src0.take(k as int),
        decreases n - k,
    {
        let c = src.remove(0);
        dst.push(c);
        proof {
            assert(src@ =~= src0.skip(k + 1));
            assert(dst@ =~= dst0 + src0.take(k + 1));
        }
        k = k + 1;
    }
    proof {
        assert(dst@ =~= dst0 + src0);
    }
}

} // verus!
