use vstd::prelude::*;

use crate::input::event::{
    KeyboardEventCenter, PLAYER_MOVE_DOWN, PLAYER_MOVE_LEFT, PLAYER_MOVE_RIGHT, PLAYER_MOVE_UP,
    TOGGLE_CAMERA_CONTROL_OVERRIDE,
};

verus! {

/// Marks the player; there is at most one at a time.
pub struct Player;

/// `1` where `b` holds, else `0`.
pub open spec fn one_if(b: bool) -> int {
    if b {
        1
    } else {
        0
    }
}

/// The direction that the movement events ask for: `x` is right minus
/// left, `y` is up minus down, each `1` where its event is active.
pub fn move_direction(center: &KeyboardEventCenter) -> (r: (i32, i32))
    ensures
        r.0 == one_if(center@.contains(PLAYER_MOVE_RIGHT as int)) - one_if(
            center@.contains(PLAYER_MOVE_LEFT as int),
        ),
        r.1 == one_if(center@.contains(PLAYER_MOVE_UP as int)) - one_if(
            center@.contains(PLAYER_MOVE_DOWN as int),
        ),
{
    let mut x: i32 = 0;
    let mut y: i32 = 0;
    if center.is_activating(PLAYER_MOVE_UP) {
        y = y + 1;
    }
    if center.is_activating(PLAYER_MOVE_DOWN) {
        y = y - 1;
    }
    if center.is_activating(PLAYER_MOVE_LEFT) {
        x = x - 1;
    }
    if center.is_activating(PLAYER_MOVE_RIGHT) {
        x = x + 1;
    }
    (x, y)
}

/// Whether the player moves this frame: it must be visible, and the camera
/// must not have taken over the movement keys.
pub fn player_moves(center: &KeyboardEventCenter, visible: bool) -> (r: bool)
    ensures
        r == (visible && !center@.contains(TOGGLE_CAMERA_CONTROL_OVERRIDE as int)),
{
    visible && !center.is_activating(TOGGLE_CAMERA_CONTROL_OVERRIDE)
}

} // verus!
