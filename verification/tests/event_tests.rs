use dystopia_core::character::player::{move_direction, player_moves};
use dystopia_core::input::event::{
    apply_keyboard_input, resolve_events, resolve_keyboard_mapping, KeyboardEventCenter, ReadableMapping, MAX_EVENT_COUNT,
    PLAYER_MOVE_DOWN, PLAYER_MOVE_LEFT, PLAYER_MOVE_RIGHT, PLAYER_MOVE_UP,
    TOGGLE_CAMERA_CONTROL_OVERRIDE,
};
use dystopia_core::input::MouseClickCounter;

#[test]
fn new_center_has_nothing_active() {
    let c = KeyboardEventCenter::new();
    for e in 0..MAX_EVENT_COUNT {
        assert!(!c.is_activating(e));
    }
    let d = KeyboardEventCenter::default();
    assert!(!d.is_activating(0));
}

#[test]
fn activate_then_query() {
    let mut c = KeyboardEventCenter::new();
    c.activate(3);
    assert!(c.is_activating(3));
    assert!(!c.is_activating(2));
    assert!(!c.is_activating(4));
    assert!(!c.is_activating(11));
}

#[test]
fn deactivate_then_query() {
    let mut c = KeyboardEventCenter::new();
    c.activate(3);
    c.activate(4);
    c.deactivate(3);
    assert!(!c.is_activating(3));
    assert!(c.is_activating(4));
}

#[test]
fn events_in_one_byte_are_independent() {
    let mut c = KeyboardEventCenter::new();
    for e in 8..16 {
        c.activate(e);
    }
    c.deactivate(12);
    for e in 8..16 {
        assert_eq!(c.is_activating(e), e != 12);
    }
    assert!(!c.is_activating(7));
    assert!(!c.is_activating(16));
}

#[test]
fn first_and_last_event() {
    let mut c = KeyboardEventCenter::new();
    c.activate(0);
    c.activate(MAX_EVENT_COUNT - 1);
    assert!(c.is_activating(0));
    assert!(c.is_activating(511));
    assert!(!c.is_activating(510));
    c.deactivate(511);
    assert!(!c.is_activating(511));
    assert!(c.is_activating(0));
}

#[test]
fn activating_twice_and_deactivating_an_inactive_event() {
    let mut c = KeyboardEventCenter::new();
    c.activate(100);
    c.activate(100);
    assert!(c.is_activating(100));
    c.deactivate(101);
    assert!(c.is_activating(100));
    assert!(!c.is_activating(101));
}

#[test]
fn keyboard_input_presses_then_releases() {
    let mut c = KeyboardEventCenter::new();
    c.activate(7);
    apply_keyboard_input(&mut c, &vec![1, 2, 3], &vec![3, 7]);
    assert!(c.is_activating(1));
    assert!(c.is_activating(2));
    assert!(!c.is_activating(3));
    assert!(!c.is_activating(7));
}

#[test]
fn resolve_events_by_name() {
    let m = ReadableMapping::from_entries(vec![("up".to_string(), 100), ("down".to_string(), 101)]);
    let r = resolve_events(&vec!["down".to_string(), "up".to_string(), "down".to_string()], &m);
    assert_eq!(r, vec![101, 100, 101]);
}

#[test]
fn move_direction_from_events() {
    let mut c = KeyboardEventCenter::new();
    assert_eq!(move_direction(&c), (0, 0));
    c.activate(PLAYER_MOVE_UP);
    c.activate(PLAYER_MOVE_RIGHT);
    assert_eq!(move_direction(&c), (1, 1));
    c.activate(PLAYER_MOVE_DOWN);
    c.activate(PLAYER_MOVE_LEFT);
    assert_eq!(move_direction(&c), (0, 0));
    c.deactivate(PLAYER_MOVE_UP);
    c.deactivate(PLAYER_MOVE_RIGHT);
    assert_eq!(move_direction(&c), (-1, -1));
}

#[test]
fn player_moves_only_when_visible_and_not_overridden() {
    let mut c = KeyboardEventCenter::new();
    assert!(player_moves(&c, true));
    assert!(!player_moves(&c, false));
    c.activate(TOGGLE_CAMERA_CONTROL_OVERRIDE);
    assert!(!player_moves(&c, true));
}

#[test]
fn click_counter_counts() {
    let mut c = MouseClickCounter::default();
    c.increment();
    c.increment();
    assert_eq!(c.0, 2);
}

#[test]
fn readable_mapping_later_entry_wins() {
    let m = ReadableMapping::from_entries(vec![
        ("up".to_string(), 100),
        ("down".to_string(), 101),
        ("up".to_string(), 7),
    ]);
    assert_eq!(m.lookup(&"up".to_string()), Some(7));
    assert_eq!(m.lookup(&"down".to_string()), Some(101));
    assert_eq!(m.lookup(&"left".to_string()), None);
}

#[test]
fn keyboard_mapping_resolves_names() {
    let m = ReadableMapping::from_entries(vec![("up".to_string(), 100), ("cosmos".to_string(), 0)]);
    let r = resolve_keyboard_mapping(
        vec![
            ("KeyW".to_string(), vec!["up".to_string()]),
            ("KeyC".to_string(), vec!["cosmos".to_string(), "up".to_string()]),
            ("KeyX".to_string(), vec![]),
        ],
        &m,
    );
    assert_eq!(
        r,
        vec![
            ("KeyW".to_string(), vec![100]),
            ("KeyC".to_string(), vec![0, 100]),
            ("KeyX".to_string(), vec![]),
        ]
    );
}

use dystopia_core::character::camera::{camera_control, CameraControl};

#[test]
fn camera_follows_keys_or_drag() {
    let mut c = KeyboardEventCenter::new();
    assert_eq!(camera_control(&c, true, true, true), CameraControl::Drag);
    assert_eq!(camera_control(&c, true, true, false), CameraControl::Still);
    assert_eq!(camera_control(&c, true, false, true), CameraControl::Still);
    c.activate(PLAYER_MOVE_UP);
    c.activate(PLAYER_MOVE_LEFT);
    assert_eq!(camera_control(&c, true, false, false), CameraControl::Keys(-1, 1));
    assert_eq!(camera_control(&c, false, true, true), CameraControl::Drag);
    c.activate(TOGGLE_CAMERA_CONTROL_OVERRIDE);
    assert_eq!(camera_control(&c, false, true, true), CameraControl::Keys(-1, 1));
    c.deactivate(PLAYER_MOVE_UP);
    c.deactivate(PLAYER_MOVE_LEFT);
    assert_eq!(camera_control(&c, false, false, false), CameraControl::Keys(0, 0));
}

use dystopia_core::input::event::resolve_keyboard_mapping_checked;

#[test]
fn checked_keyboard_mapping() {
    let m = ReadableMapping::from_entries(vec![("up".to_string(), 100)]);
    assert_eq!(
        resolve_keyboard_mapping_checked(vec![("KeyW".to_string(), vec!["up".to_string()])], &m),
        Some(vec![("KeyW".to_string(), vec![100])])
    );
    assert_eq!(
        resolve_keyboard_mapping_checked(
            vec![("KeyW".to_string(), vec!["up".to_string()]), ("KeyS".to_string(), vec!["down".to_string()])],
            &m
        ),
        None
    );
    assert_eq!(resolve_keyboard_mapping_checked(vec![], &m), Some(vec![]));
}
