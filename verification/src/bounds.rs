use vstd::prelude::*;
use crate::in_range;

verus! {

/// An axis-aligned box over the crate's fixed-point coordinates. Bounds are
/// kept at the crate's full coordinate range so that merged and loosened boxes
/// survive many incremental updates without drift.
#[derive(Clone, Copy, PartialEq, Eq, Structural, Debug)]
pub struct Bounds3 {
    pub min_x: i64,
    pub min_y: i64,
    pub min_z: i64,
    pub max_x: i64,
    pub max_y: i64,
    pub max_z: i64,
}

impl Bounds3 {
    /// Every coordinate is in the crate's range and the box is non-degenerate
    /// on each axis.
    pub open spec fn wf(self) -> bool {
        &&& in_range(self.min_x) && in_range(self.min_y) && in_range(self.min_z)
        &&& in_range(self.max_x) && in_range(self.max_y) && in_range(self.max_z)
        &&& self.min_x <= self.max_x
        &&& self.min_y <= self.max_y
        &&& self.min_z <= self.max_z
    }

    /// Standard closed-interval box overlap: the boxes intersect exactly when
    /// every axis's intervals intersect.
    pub open spec fn overlaps_spec(self, other: Bounds3) -> bool {
        &&& self.min_x <= other.max_x && other.min_x <= self.max_x
        &&& self.min_y <= other.max_y && other.min_y <= self.max_y
        &&& self.min_z <= other.max_z && other.min_z <= self.max_z
    }

    /// Overlap after loosening either box by a non-negative margin `d`. The
    /// form is symmetric in the two boxes, which is what makes pair bookkeeping
    /// symmetric: loosening A's box by `d` before testing against B gives the
    /// same answer as loosening B's box by `d` before testing against A.
    pub open spec fn near(self, other: Bounds3, d: int) -> bool {
        &&& self.min_x - d <= other.max_x && other.min_x - d <= self.max_x
        &&& self.min_y - d <= other.max_y && other.min_y - d <= self.max_y
        &&& self.min_z - d <= other.max_z && other.min_z - d <= self.max_z
    }

    pub fn overlaps(&self, other: &Bounds3) -> (r: bool)
        ensures
            r == self.overlaps_spec(*other),
    {
        self.min_x <= other.max_x && other.min_x <= self.max_x
            && self.min_y <= other.max_y && other.min_y <= self.max_y
            && self.min_z <= other.max_z && other.min_z <= self.max_z
    }

    /// Grow the box by `d` on every side.
    pub fn loosened(&self, d: i64) -> (r: Bounds3)
        requires
            self.wf(),
            0 <= d <= crate::VAL_MAX,
        ensures
            r.min_x == self.min_x - d,
            r.min_y == self.min_y - d,
            r.min_z == self.min_z - d,
            r.max_x == self.max_x + d,
            r.max_y == self.max_y + d,
            r.max_z == self.max_z + d,
    {
        Bounds3 {
            min_x: self.min_x - d,
            min_y: self.min_y - d,
            min_z: self.min_z - d,
            max_x: self.max_x + d,
            max_y: self.max_y + d,
            max_z: self.max_z + d,
        }
    }

    /// Smallest box enclosing both boxes.
    pub fn merged(&self, other: &Bounds3) -> (r: Bounds3)
        requires
            self.wf(),
            other.wf(),
        ensures
            r.wf(),
            r == self.merged_spec(*other),
    {
        Bounds3 {
            min_x: if self.min_x <= other.min_x { self.min_x } else { other.min_x },
            min_y: if self.min_y <= other.min_y { self.min_y } else { other.min_y },
            min_z: if self.min_z <= other.min_z { self.min_z } else { other.min_z },
            max_x: if self.max_x >= other.max_x { self.max_x } else { other.max_x },
            max_y: if self.max_y >= other.max_y { self.max_y } else { other.max_y },
            max_z: if self.max_z >= other.max_z { self.max_z } else { other.max_z },
        }
    }

    pub open spec fn merged_spec(self, other: Bounds3) -> Bounds3 {
        Bounds3 {
            min_x: if self.min_x <= other.min_x { self.min_x } else { other.min_x },
            min_y: if self.min_y <= other.min_y { self.min_y } else { other.min_y },
            min_z: if self.min_z <= other.min_z { self.min_z } else { other.min_z },
            max_x: if self.max_x >= other.max_x { self.max_x } else { other.max_x },
            max_y: if self.max_y >= other.max_y { self.max_y } else { other.max_y },
            max_z: if self.max_z >= other.max_z { self.max_z } else { other.max_z },
        }
    }
}

/// Loosening one side of an overlap test by a margin is the same as loosening
/// the other side: `near` is symmetric, and testing a box loosened by `d`
/// against another box is exactly `near` of the two boxes as stored.
pub proof fn lemma_near_symmetric(a: Bounds3, b: Bounds3, d: int)
    ensures
        a.near(b, d) == b.near(a, d),
{
}

} // verus!
