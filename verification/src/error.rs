use crate::grid::Grid;
use crate::grid::GridView;
use vstd::prelude::*;

verus! {

/// The ways in which a detector or a kernel constructor turns its input down.
#[derive(Clone, Copy, Debug, PartialEq, Eq, Structural)]
pub enum DetectError {
    /// A kernel of even size was asked for.
    InvalidKernelSize,
    /// A parameter is out of its domain, or the image has no pixel whose
    /// whole window lies inside it.
    InvalidParameter,
    /// The grid has zero width or zero height.
    EmptyInput,
}

/// Why a detector turns a grid down, if it does: a grid without pixels is
/// empty input, and one under three pixels wide or high has no pixel whose
/// 3x3 window lies inside it.
pub open spec fn detector_fault(g: GridView) -> Option<DetectError> {
    if g.width == 0 || g.height == 0 {
        Some(DetectError::EmptyInput)
    } else if g.width < 3 || g.height < 3 {
        Some(DetectError::InvalidParameter)
    } else {
        None
    }
}

/// Why a detector turns this grid down, if it does.
pub fn check_detectable(image: &Grid) -> (fault: Option<DetectError>)
    ensures
        fault == detector_fault(image@),
{
    let width: u32 = image.width();
    let height: u32 = image.height();
    if width == 0 || height == 0 {
        Some(DetectError::EmptyInput)
    } else if width < 3 || height < 3 {
        Some(DetectError::InvalidParameter)
    } else {
        None
    }
}

} // verus!
