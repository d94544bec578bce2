//! The camera: fixed at the origin, looking down +z, with a field of view of
//! 90 degrees. A pixel is mapped to the ray through its centre.
//!
//! The view coordinates of a pixel centre are whole numbers or whole numbers
//! and a half, so the ray is given in half pixels, as three integers: twice
//! its view-space direction. The host normalises it.

use vstd::prelude::*;

verus! {

/// A direction in view space, counted in half pixels.
#[derive(Clone, Copy, Debug, PartialEq, Eq, Structural)]
pub struct ViewVector {
    pub x: i64,
    pub y: i64,
    pub z: i64,
}

/// Twice the horizontal view coordinate `(x - width/2) + 1/2` of column `x`,
/// where `width/2` is the exact half.
pub open spec fn view_x(x: int, width: int) -> int {
    2 * x - width + 1
}

/// Twice the vertical view coordinate `(height/2 - y) - 1/2` of row `y`,
/// where `height/2` is the exact half. Rows count downwards and view space
/// counts upwards, hence the flip.
pub open spec fn view_y(y: int, height: int) -> int {
    height - 2 * y - 1
}

/// Twice the distance `width/2` of the image plane, at which a horizontal
/// field of view of 90 degrees spans the width.
pub open spec fn view_z(width: int) -> int {
    width
}

/// The ray from the camera through the centre of pixel `(x, y)` of an image
/// of `width` by `height` pixels, in half pixels and not normalised. It is
/// never the zero vector, so it can always be normalised: its horizontal
/// component is odd where the width is even, and the image plane is off the
/// camera where the width is odd.
pub fn ray_from_pixel(x: i32, y: i32, width: i32, height: i32) -> (ray: ViewVector)
    ensures
        ray.x == view_x(x as int, width as int),
        ray.y == view_y(y as int, height as int),
        ray.z == view_z(width as int),
        ray.x != 0 || ray.z != 0,
{
    ViewVector {
        x: 2 * (x as i64) - width as i64 + 1,
        y: height as i64 - 2 * (y as i64) - 1,
        z: width as i64,
    }
}

} // verus!
