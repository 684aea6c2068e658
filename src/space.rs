//! Coordinate spaces of the rendering pipeline and the screen-space point type.
use vstd::prelude::*;

verus! {

/// Coordinates relative to a mesh's own origin.
pub struct ModelSpace;

/// Coordinates shared by every object of a scene.
pub struct WorldSpace;

/// Coordinates relative to the camera: the camera looks down negative Z.
pub struct ViewSpace;

/// Homogeneous coordinates after the perspective projection.
pub struct ClipSpace;

/// Pixel coordinates: origin at the top-left corner of the buffer.
pub struct ScreenSpace;

/// A position in screen space, in whole pixels.
#[derive(Clone, Copy, Debug, PartialEq, Eq, Structural)]
pub struct ScreenPoint {
    pub x: i32,
    pub y: i32,
}

impl ScreenPoint {
    pub fn new(x: i32, y: i32) -> (r: ScreenPoint)
        ensures
            r.x == x,
            r.y == y,
    {
        ScreenPoint { x, y }
    }

    /// The point as a pair of mathematical integers.
    pub open spec fn pair(self) -> (int, int) {
        (self.x as int, self.y as int)
    }
}

} // verus!
