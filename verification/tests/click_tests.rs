use dystopia_core::input::click::{
    on_frame_end, on_frame_start, on_mouse_input, ClickTracker, MouseButtonKind, MouseInputState,
};
use dystopia_core::input::MouseClickCounter;

fn empty() -> ClickTracker {
    ClickTracker { input: None, cooldown: None, counter: None }
}

fn press(button: MouseButtonKind) -> MouseInputState {
    MouseInputState { button, pressed: true }
}

#[test]
fn first_press_starts_cooldown_and_counter() {
    let (t, restart) = on_mouse_input(empty(), press(MouseButtonKind::Left));
    assert!(restart);
    assert_eq!(t.cooldown, Some(MouseButtonKind::Left));
    assert_eq!(t.counter, Some(MouseClickCounter(0)));
    let t = on_frame_end(t, false);
    assert_eq!(t.counter, Some(MouseClickCounter(1)));
}

#[test]
fn release_is_recorded_but_starts_nothing() {
    let (t, restart) = on_mouse_input(empty(), MouseInputState { button: MouseButtonKind::Right, pressed: false });
    assert!(!restart);
    assert_eq!(t.input, Some(MouseInputState { button: MouseButtonKind::Right, pressed: false }));
    assert_eq!(t.cooldown, None);
    assert_eq!(t.counter, None);
}

#[test]
fn presses_in_quick_succession_are_counted() {
    let mut t = empty();
    for _ in 0..3 {
        t = on_frame_start(t);
        t = on_mouse_input(t, press(MouseButtonKind::Left)).0;
        t = on_frame_end(t, false);
    }
    assert_eq!(t.counter, Some(MouseClickCounter(3)));
    assert_eq!(t.cooldown, Some(MouseButtonKind::Left));
}

#[test]
fn another_button_restarts_the_cooldown() {
    let (t, _) = on_mouse_input(empty(), press(MouseButtonKind::Left));
    let t = on_frame_end(t, false);
    let (t, restart) = on_mouse_input(on_frame_start(t), press(MouseButtonKind::Other(7)));
    assert!(restart);
    assert_eq!(t.cooldown, Some(MouseButtonKind::Other(7)));
    assert_eq!(t.counter, Some(MouseClickCounter(1)));
    let (_, again) = on_mouse_input(t, press(MouseButtonKind::Other(7)));
    assert!(!again);
}

#[test]
fn expired_cooldown_ends_and_takes_the_idle_counter() {
    let (t, _) = on_mouse_input(empty(), press(MouseButtonKind::Middle));
    let t = on_frame_end(t, false);
    let idle = on_frame_end(on_frame_start(t), true);
    assert_eq!(idle.cooldown, None);
    assert_eq!(idle.counter, None);
    let (busy, _) = on_mouse_input(on_frame_start(t), press(MouseButtonKind::Middle));
    let busy = on_frame_end(busy, true);
    assert_eq!(busy.cooldown, None);
    assert_eq!(busy.counter, Some(MouseClickCounter(2)));
}

use dystopia_core::input::click::focuses_body;

#[test]
fn double_left_click_focuses() {
    assert!(focuses_body(press(MouseButtonKind::Left), MouseClickCounter(2)));
    assert!(!focuses_body(press(MouseButtonKind::Left), MouseClickCounter(1)));
    assert!(!focuses_body(press(MouseButtonKind::Left), MouseClickCounter(3)));
    assert!(!focuses_body(press(MouseButtonKind::Right), MouseClickCounter(2)));
}
