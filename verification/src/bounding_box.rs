//! Axis-aligned bounding boxes.

use vstd::prelude::*;

use crate::num::{abs_i, div_round, div_round_i128};
use crate::point::Point2D;
use crate::COORD_LIMIT;

verus! {

/// An axis-aligned rectangle, given by its extreme coordinates.
#[derive(Clone, Copy, Debug, PartialEq, Eq, Structural)]
pub struct BoundingBox {
    pub min_x: i64,
    pub min_y: i64,
    pub max_x: i64,
    pub max_y: i64,
}

/// All four coordinates within the working range.
pub open spec fn bb_in_range(b: BoundingBox) -> bool {
    abs_i(b.min_x as int) <= COORD_LIMIT && abs_i(b.min_y as int) <= COORD_LIMIT && abs_i(
        b.max_x as int,
    ) <= COORD_LIMIT && abs_i(b.max_y as int) <= COORD_LIMIT
}

impl BoundingBox {
    /// The width, `max_x - min_x`.
    pub fn width(&self) -> (r: i64)
        requires
            bb_in_range(*self),
        ensures
            r == self.max_x - self.min_x,
    {
        self.max_x - self.min_x
    }

    /// The height, `max_y - min_y`.
    pub fn height(&self) -> (r: i64)
        requires
            bb_in_range(*self),
        ensures
            r == self.max_y - self.min_y,
    {
        self.max_y - self.min_y
    }

    /// The center point, each coordinate rounded to the grid.
    pub fn center(&self) -> (r: Point2D)
        requires
            bb_in_range(*self),
        ensures
            r.x == div_round(self.min_x + self.max_x, 2),
            r.y == div_round(self.min_y + self.max_y, 2),
    {
        let cx: i128 = div_round_i128(self.min_x as i128 + self.max_x as i128, 2);
        let cy: i128 = div_round_i128(self.min_y as i128 + self.max_y as i128, 2);
        proof {
            crate::num::lemma_div_round_bound(
                self.min_x + self.max_x,
                2,
                COORD_LIMIT as int,
            );
            crate::num::lemma_div_round_bound(
                self.min_y + self.max_y,
                2,
                COORD_LIMIT as int,
            );
        }
        Point2D { x: cx as i64, y: cy as i64 }
    }
}

} // verus!
