//! A convex no-fit-polygon sketch: the cloud of vertex differences of two
//! polygons, in vertex order. For convex polygons the NFP is the convex
//! hull of these points; the orbiting engine computes the general case.

use vstd::prelude::*;

use crate::no_fit_polygon::pt_sub;
use crate::num::abs_i;
use crate::point::{Point2D, Rotation};
use crate::polygon::{poly_wf, Polygon};
use crate::{N_MAX, VERT_MAX};

verus! {

/// The polygon whose vertices are all local-vertex differences
/// `stationary[i] - orbiting[j]`, ordered by `i` then `j`, with no offset
/// and no rotation.
pub fn calculate_nfp(stationary: &Polygon, orbiting: &Polygon) -> (r: Polygon)
    requires
        poly_wf(*stationary),
        poly_wf(*orbiting),
        stationary.vertices.len() * orbiting.vertices.len() <= N_MAX,
        forall|i: int|
            0 <= i < stationary.vertices.len() ==> abs_i(
                (#[trigger] stationary.vertices@[i]).x as int,
            ) <= VERT_MAX / 2 && abs_i(stationary.vertices@[i].y as int) <= VERT_MAX / 2,
        forall|j: int|
            0 <= j < orbiting.vertices.len() ==> abs_i((#[trigger] orbiting.vertices@[j]).x as int)
                <= VERT_MAX / 2 && abs_i(orbiting.vertices@[j].y as int) <= VERT_MAX / 2,
    ensures
        r.vertices@.len() == stationary.vertices.len() * orbiting.vertices.len(),
        forall|i: int, j: int|
            0 <= i < stationary.vertices.len() && 0 <= j < orbiting.vertices.len()
                ==> r.vertices@[i * orbiting.vertices.len() + j] == pt_sub(
                #[trigger] stationary.vertices@[i],
                #[trigger] orbiting.vertices@[j],
            ),
        r.offset == (Point2D { x: 0, y: 0 }),
        r.rotation == (Rotation { cos: crate::UNIT, sin: 0 }),
        poly_wf(r),
{
    let n = stationary.vertices.len();
    let m = orbiting.vertices.len();
    let mut vs: Vec<Point2D> = Vec::new();
    let mut i: usize = 0;
    while i < n
        invariant
            0 <= i <= n,
            n == stationary.vertices.len(),
            m == orbiting.vertices.len(),
            n * m <= N_MAX,
            poly_wf(*stationary),
            poly_wf(*orbiting),
            forall|i2: int|
                0 <= i2 < n ==> abs_i((#[trigger] stationary.vertices@[i2]).x as int) <= VERT_MAX
                    / 2 && abs_i(stationary.vertices@[i2].y as int) <= VERT_MAX / 2,
            forall|j2: int|
                0 <= j2 < m ==> abs_i((#[trigger] orbiting.vertices@[j2]).x as int) <= VERT_MAX / 2
                    && abs_i(orbiting.vertices@[j2].y as int) <= VERT_MAX / 2,
            vs@.len() == i * m,
            forall|i2: int, j2: int|
                0 <= i2 < i && 0 <= j2 < m ==> vs@[i2 * m + j2] == pt_sub(
                    #[trigger] stationary.vertices@[i2],
                    #[trigger] orbiting.vertices@[j2],
                ),
            forall|k: int|
                0 <= k < vs@.len() ==> abs_i((#[trigger] vs@[k]).x as int) <= VERT_MAX && abs_i(
                    vs@[k].y as int,
                ) <= VERT_MAX,
        decreases n - i,
    {
        proof {
            assert(i * m + m <= n * m && (i + 1) * m == i * m + m) by (nonlinear_arith)
                requires
                    0 <= i < n,
            ;
        }
        let si = stationary.vertices[i];
        let mut j: usize = 0;
        while j < m
            invariant
                0 <= j <= m,
                0 <= i < n,
                n == stationary.vertices.len(),
                m == orbiting.vertices.len(),
                n * m <= N_MAX,
                i * m + m <= n * m,
                poly_wf(*stationary),
                poly_wf(*orbiting),
                si == stationary.vertices@[i as int],
                forall|i2: int|
                    0 <= i2 < n ==> abs_i((#[trigger] stationary.vertices@[i2]).x as int)
                        <= VERT_MAX / 2 && abs_i(stationary.vertices@[i2].y as int) <= VERT_MAX
                        / 2,
                forall|j2: int|
                    0 <= j2 < m ==> abs_i((#[trigger] orbiting.vertices@[j2]).x as int) <= VERT_MAX
                        / 2 && abs_i(orbiting.vertices@[j2].y as int) <= VERT_MAX / 2,
                vs@.len() == i * m + j,
                forall|i2: int, j2: int|
                    0 <= i2 < i && 0 <= j2 < m ==> vs@[i2 * m + j2] == pt_sub(
                        #[trigger] stationary.vertices@[i2],
                        #[trigger] orbiting.vertices@[j2],
                    ),
                forall|j2: int|
                    0 <= j2 < j ==> vs@[i * m + j2] == pt_sub(
                        stationary.vertices@[i as int],
                        #[trigger] orbiting.vertices@[j2],
                    ),
                forall|k: int|
                    0 <= k < vs@.len() ==> abs_i((#[trigger] vs@[k]).x as int) <= VERT_MAX && abs_i(
                        vs@[k].y as int,
                    ) <= VERT_MAX,
            decreases m - j,
        {
            let oj = orbiting.vertices[j];
            vs.push(Point2D { x: si.x - oj.x, y: si.y - oj.y });
            proof {
                assert forall|i2: int, j2: int| 0 <= i2 < i && 0 <= j2 < m implies vs@[i2 * m + j2]
                    == pt_sub(
                    #[trigger] stationary.vertices@[i2],
                    #[trigger] orbiting.vertices@[j2],
                ) by {
                    assert(0 <= i2 * m + j2 < i * m + j + 1 && i2 * m + j2 < i * m)
                        by (nonlinear_arith)
                        requires
                            0 <= i2 < i,
                            0 <= j2 < m,
                            0 <= j,
                    ;
                }
            }
            j = j + 1;
        }
        i = i + 1;
    }
    Polygon {
        vertices: vs,
        offset: Point2D { x: 0, y: 0 },
        rotation: Rotation { cos: crate::UNIT, sin: 0 },
    }
}

} // verus!
