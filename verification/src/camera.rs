//! Camera steering: which way the arrow and WASD keys push the camera.

use vstd::prelude::*;

verus! {

/// The keys held down that steer the camera (an arrow key or its WASD
/// counterpart counts the same).
pub struct SteeringKeys {
    pub left: bool,
    pub right: bool,
    pub up: bool,
    pub down: bool,
}

/// 1 for a held key, 0 otherwise.
pub open spec fn held(b: bool) -> int {
    if b {
        1
    } else {
        0
    }
}

/// The direction in which the held keys push the camera, one unit per axis
/// at most: right minus left, up minus down. Opposite keys cancel out.
pub fn key_direction(keys: &SteeringKeys) -> (dir: (i32, i32))
    ensures
        dir.0 == held(keys.right) - held(keys.left),
        dir.1 == held(keys.up) - held(keys.down),
{
    let mut dx: i32 = 0;
    let mut dy: i32 = 0;
    if keys.left {
        dx = dx - 1;
    }
    if keys.right {
        dx = dx + 1;
    }
    if keys.up {
        dy = dy + 1;
    }
    if keys.down {
        dy = dy - 1;
    }
    (dx, dy)
}

} // verus!
