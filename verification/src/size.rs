//! Sizes in the plane.

use vstd::prelude::*;

use crate::binary32::Binary32;
use crate::binary32::INFINITY_BITS;

verus! {

/// A width and a height, both finite and greater than zero.
#[derive(Copy, Clone, Debug, PartialEq, Eq, Structural)]
pub struct Size {
    /// The horizontal extent.
    pub width: Binary32,
    /// The vertical extent.
    pub height: Binary32,
}

impl Size {
    /// Both extents are finite and greater than zero.
    pub open spec fn wf(self) -> bool {
        self.width.is_positive_finite() && self.height.is_positive_finite()
    }

    /// The size with these extents, if there is one.
    pub open spec fn of(width: Binary32, height: Binary32) -> Option<Size> {
        let size: Size = Size { width, height };
        if size.wf() {
            Some(size)
        } else {
            None
        }
    }

    /// Both extents times the factor, each rounded. A factor that is not above
    /// zero leaves no extent above zero, and an infinite one no finite extent.
    pub open spec fn scaled(self, factor: Binary32) -> Option<Size> {
        if factor.is_positive() {
            Self::of(self.width.product(factor), self.height.product(factor))
        } else {
            None
        }
    }

    /// Creates a size, unless an extent is not finite and greater than zero.
    pub fn from_wh(width: Binary32, height: Binary32) -> (size: Option<Size>)
        ensures
            size == Self::of(width, height),
    {
        if width.is_finite_above_zero() && height.is_finite_above_zero() {
            Some(Size { width, height })
        } else {
            None
        }
    }

    /// Multiplies both extents by the factor, unless one leaves the range of
    /// the finite numbers above zero.
    pub fn scale(self, factor: Binary32) -> (size: Option<Size>)
        requires
            self.wf(),
        ensures
            size == self.scaled(factor),
    {
        if factor.bits == 0 || factor.bits > INFINITY_BITS {
            return None;
        }
        Self::from_wh(self.width.times(factor), self.height.times(factor))
    }
}

} // verus!
