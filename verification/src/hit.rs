//! What one ray cast found, and what is reported for one cell.
use vstd::prelude::*;
use crate::vector::{Cell, Vec3};

verus! {

/// The outcome of casting the ray against one collision box that it meets:
/// where it enters, in world space, and the outward normal of the face
/// entered. A ray that starts inside the box enters no face: the point is its
/// origin and the normal is zero.
#[derive(Clone, Copy, Debug, PartialEq, Eq, Structural)]
pub struct Impact {
    pub point: Vec3,
    pub normal: Vec3,
}

/// What the visitor is told of one cell. A normal other than zero marks a
/// hit. Where the cell holds no block, or the ray meets none of its boxes, the
/// point and the normal are both zero.
#[derive(Clone, Copy, Debug, PartialEq, Eq, Structural)]
pub struct Hit {
    pub cell: Cell,
    pub point: Vec3,
    pub normal: Vec3,
}

/// The impact that is kept once `outcome` has come in after `found`: a new
/// impact replaces the one held, a miss leaves it.
pub open spec fn overwrite(found: Option<Impact>, outcome: Option<Impact>) -> Option<Impact> {
    if outcome is Some {
        outcome
    } else {
        found
    }
}

/// The impact chosen from the outcomes of all the boxes of one cell, in the
/// order of the block's box list: that of the last box hit, or `None` where
/// every cast missed.
pub open spec fn last_impact(outcomes: Seq<Option<Impact>>) -> Option<Impact>
    decreases outcomes.len(),
{
    if outcomes.len() == 0 {
        None
    } else {
        overwrite(outcomes[0], last_impact(outcomes.skip(1)))
    }
}

impl Hit {
    /// The report for a cell in which nothing was hit.
    pub open spec fn spec_nothing(cell: Cell) -> Hit {
        Hit { cell, point: Vec3::spec_zero(), normal: Vec3::spec_zero() }
    }

    /// The report for a cell, given the impact chosen among its boxes.
    pub open spec fn spec_report(cell: Cell, found: Option<Impact>) -> Hit {
        match found {
            Some(impact) => Hit { cell, point: impact.point, normal: impact.normal },
            None => Hit::spec_nothing(cell),
        }
    }

    /// The normal is not the zero vector: something was hit.
    pub open spec fn spec_is_hit(self) -> bool {
        !self.normal.spec_is_zero()
    }

    pub fn nothing(cell: Cell) -> (hit: Hit)
        ensures
            hit == Hit::spec_nothing(cell),
            !hit.spec_is_hit(),
    {
        Hit { cell, point: Vec3::zero(), normal: Vec3::zero() }
    }

    pub fn report(cell: Cell, found: Option<Impact>) -> (hit: Hit)
        ensures
            hit == Hit::spec_report(cell, found),
    {
        match found {
            Some(impact) => Hit { cell, point: impact.point, normal: impact.normal },
            None => Hit::nothing(cell),
        }
    }

    /// Tells a hit from the report of a cell in which nothing was hit.
    pub fn is_hit(&self) -> (r: bool)
        ensures
            r == self.spec_is_hit(),
    {
        !self.normal.is_zero()
    }
}

} // verus!
