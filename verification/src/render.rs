//! The orientation correction a decoded image needs before it is blitted,
//! from the orientation tag its metadata carries.  The pixel work itself is
//! the renderer's business; this module only decides which operation it is.

use vstd::prelude::*;

verus! {

/// The geometric correction for one orientation code.
pub enum OrientationOp {
    /// Leave the image as decoded.
    Identity,
    /// Mirror along the vertical axis.
    FlipHorizontal,
    /// Turn upside down.
    Rotate180,
    /// Mirror along the horizontal axis.
    FlipVertical,
    /// Mirror along the vertical axis, then turn a quarter clockwise.
    FlipHorizontalRotate90,
    /// Turn a quarter clockwise.
    Rotate90,
    /// Mirror along the vertical axis, then turn a quarter anticlockwise.
    FlipHorizontalRotate270,
    /// Turn a quarter anticlockwise.
    Rotate270,
}

/// The correction for each orientation code; every unknown code leaves the
/// image untouched.
pub open spec fn spec_orientation_op(code: u32) -> OrientationOp {
    if code == 2 {
        OrientationOp::FlipHorizontal
    } else if code == 3 {
        OrientationOp::Rotate180
    } else if code == 4 {
        OrientationOp::FlipVertical
    } else if code == 5 {
        OrientationOp::FlipHorizontalRotate90
    } else if code == 6 {
        OrientationOp::Rotate90
    } else if code == 7 {
        OrientationOp::FlipHorizontalRotate270
    } else if code == 8 {
        OrientationOp::Rotate270
    } else {
        OrientationOp::Identity
    }
}

/// The correction for an orientation tag value.
pub fn orientation_op(code: u32) -> (r: OrientationOp)
    ensures
        r == spec_orientation_op(code),
{
    match code {
        2 => OrientationOp::FlipHorizontal,
        3 => OrientationOp::Rotate180,
        4 => OrientationOp::FlipVertical,
        5 => OrientationOp::FlipHorizontalRotate90,
        6 => OrientationOp::Rotate90,
        7 => OrientationOp::FlipHorizontalRotate270,
        8 => OrientationOp::Rotate270,
        _ => OrientationOp::Identity,
    }
}

} // verus!
