//! How the main camera is steered: by the movement keys, or by dragging.

use vstd::prelude::*;

use crate::character::player::{move_direction, one_if};
use crate::input::event::{
    KeyboardEventCenter, PLAYER_MOVE_DOWN, PLAYER_MOVE_LEFT, PLAYER_MOVE_RIGHT, PLAYER_MOVE_UP,
    TOGGLE_CAMERA_CONTROL_OVERRIDE,
};

verus! {

/// How the camera moves this frame.
#[derive(Debug, Clone, Copy, PartialEq, Eq, Structural)]
pub enum CameraControl {
    /// By the movement keys, in this direction (`x` right, `y` up).
    Keys(i32, i32),
    /// With the cursor, while the camera is dragged.
    Drag,
    /// Not at all; the last cursor position is forgotten.
    Still,
}

/// Whether any movement key asks for a direction.
pub open spec fn keys_move(center: Set<int>) -> bool {
    one_if(center.contains(PLAYER_MOVE_RIGHT as int)) - one_if(center.contains(PLAYER_MOVE_LEFT as int)) != 0
        || one_if(center.contains(PLAYER_MOVE_UP as int)) - one_if(center.contains(PLAYER_MOVE_DOWN as int)) != 0
}

/// How the camera moves: by the keys where the cosmos is in view and they
/// ask for a direction, or where the camera has taken over the keys; else
/// with the cursor where there is one and the camera is dragged; else not.
pub fn camera_control(
    center: &KeyboardEventCenter,
    cosmos_view: bool,
    cursor_on_scene: bool,
    dragging: bool,
) -> (r: CameraControl)
    ensures
        r == (if (cosmos_view && keys_move(center@)) || center@.contains(TOGGLE_CAMERA_CONTROL_OVERRIDE as int) {
            CameraControl::Keys(
                (one_if(center@.contains(PLAYER_MOVE_RIGHT as int)) - one_if(center@.contains(PLAYER_MOVE_LEFT as int))) as i32,
                (one_if(center@.contains(PLAYER_MOVE_UP as int)) - one_if(center@.contains(PLAYER_MOVE_DOWN as int))) as i32,
            )
        } else if cursor_on_scene && dragging {
            CameraControl::Drag
        } else {
            CameraControl::Still
        }),
{
    let (x, y) = move_direction(center);
    if (cosmos_view && (x != 0 || y != 0)) || center.is_activating(TOGGLE_CAMERA_CONTROL_OVERRIDE) {
        CameraControl::Keys(x, y)
    } else if cursor_on_scene && dragging {
        CameraControl::Drag
    } else {
        CameraControl::Still
    }
}

} // verus!
