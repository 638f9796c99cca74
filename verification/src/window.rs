//! Placement of GUI windows.

use vstd::prelude::*;

verus! {

/// The point of a window that its position refers to.
#[derive(PartialEq, Eq, Structural, Debug, Clone, Copy)]
pub enum WindowPivot {
    LeftBottom,
    LeftCenter,
    LeftTop,
    CenterBottom,
    CenterCenter,
    CenterTop,
    RightBottom,
    RightCenter,
    RightTop,
}

/// Whether a window's position applies once or always.
#[derive(PartialEq, Eq, Structural, Debug, Clone, Copy)]
pub enum WindowPositionType {
    Initial,
    Fixed,
}

} // verus!
