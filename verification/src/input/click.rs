//! Multi-click counting. An entity under the cursor learns of each mouse
//! button input; a press starts the multi-click cooldown of its button
//! (unless that button's cooldown is running) and a click counter; while the
//! cooldown runs, each press of its button counts. When the cooldown runs
//! out it ends, and the counter goes too unless there is input that frame.

use vstd::prelude::*;

use crate::input::MouseClickCounter;

verus! {

/// A mouse button.
#[derive(Debug, Clone, Copy, PartialEq, Eq, Structural)]
pub enum MouseButtonKind {
    Left,
    Right,
    Middle,
    Back,
    Forward,
    Other(u16),
}

/// The input of one mouse button: which, and whether it was pressed (or
/// released).
#[derive(Debug, Clone, Copy, PartialEq, Eq, Structural)]
pub struct MouseInputState {
    pub button: MouseButtonKind,
    pub pressed: bool,
}

/// What an entity holds of the multi-click: this frame's input, the button
/// whose cooldown runs, and the counter.
#[derive(Debug, Clone, Copy, PartialEq, Eq, Structural)]
pub struct ClickTracker {
    pub input: Option<MouseInputState>,
    pub cooldown: Option<MouseButtonKind>,
    pub counter: Option<MouseClickCounter>,
}

/// The tracker after the input `input` reaches the entity, and whether the
/// cooldown (re)starts now: the input is recorded; a press starts the
/// cooldown of its button unless that button's cooldown runs, and starts a
/// counter at zero where there is none.
pub fn on_mouse_input(tracker: ClickTracker, input: MouseInputState) -> (r: (ClickTracker, bool))
    ensures
        r.0 == after_input(tracker, input),
        r.1 == (input.pressed && tracker.cooldown != Some(input.button)),
{
    let mut t = tracker;
    t.input = Some(input);
    if !input.pressed {
        return (t, false);
    }
    let restart = match tracker.cooldown {
        Some(b) => b != input.button,
        None => true,
    };
    if restart {
        t.cooldown = Some(input.button);
    }
    if t.counter.is_none() {
        t.counter = Some(MouseClickCounter(0));
    }
    (t, restart)
}

/// The count of the tracker's counter; zero where there is none.
pub open spec fn count_of(tracker: ClickTracker) -> u8 {
    match tracker.counter {
        Some(c) => c.0,
        None => 0,
    }
}

/// Whether this frame's input is a press of the button whose cooldown runs.
pub open spec fn counts(tracker: ClickTracker) -> bool {
    match (tracker.input, tracker.cooldown) {
        (Some(i), Some(b)) => i.pressed && i.button == b,
        _ => false,
    }
}

/// The tracker at the end of a frame, where `expired` tells whether the
/// cooldown has run out: a press of the cooldown's button counts; an expired
/// cooldown ends, and takes the counter with it where there was no input.
pub fn on_frame_end(tracker: ClickTracker, expired: bool) -> (r: ClickTracker)
    requires
        tracker.cooldown is Some,
        tracker.counter is Some,
        counts(tracker) ==> count_of(tracker) < u8::MAX,
    ensures
        r == after_frame(tracker, expired),
{
    let mut t = tracker;
    let counted = match (tracker.input, tracker.cooldown) {
        (Some(i), Some(b)) => i.pressed && i.button == b,
        _ => false,
    };
    if counted {
        let mut c = tracker.counter.unwrap();
        c.increment();
        t.counter = Some(c);
    }
    if expired {
        t.cooldown = None;
        if tracker.input.is_none() {
            t.counter = None;
        }
    }
    t
}

/// Whether the input on a body focuses the view on it: a double click of
/// the left button, the counter at two.
pub fn focuses_body(input: MouseInputState, counter: MouseClickCounter) -> (r: bool)
    ensures
        r == (input.button == MouseButtonKind::Left && counter.0 == 2),
{
    input.button == MouseButtonKind::Left && counter.0 == 2
}

/// The tracker at the start of a frame: last frame's input is forgotten.
pub fn on_frame_start(tracker: ClickTracker) -> (r: ClickTracker)
    ensures
        r == (ClickTracker { input: None, ..tracker }),
{
    ClickTracker { input: None, ..tracker }
}

/// The tracker after the input reaches the entity, as [`on_mouse_input`]
/// makes it.
pub open spec fn after_input(tracker: ClickTracker, input: MouseInputState) -> ClickTracker {
    let restart = input.pressed && tracker.cooldown != Some(input.button);
    ClickTracker {
        input: Some(input),
        cooldown: if restart { Some(input.button) } else { tracker.cooldown },
        counter: if input.pressed && tracker.counter is None {
            Some(MouseClickCounter(0))
        } else {
            tracker.counter
        },
    }
}

/// The tracker at the end of a frame, as [`on_frame_end`] makes it.
pub open spec fn after_frame(tracker: ClickTracker, expired: bool) -> ClickTracker {
    ClickTracker {
        input: tracker.input,
        cooldown: if expired { None } else { tracker.cooldown },
        counter: if expired && tracker.input is None {
            None
        } else if counts(tracker) {
            Some(MouseClickCounter((count_of(tracker) + 1) as u8))
        } else {
            tracker.counter
        },
    }
}

/// `n` frames, from `tracker`, in each of which `button` is pressed and the
/// cooldown has not run out.
pub open spec fn press_frames(tracker: ClickTracker, button: MouseButtonKind, n: nat) -> ClickTracker
    decreases n,
{
    if n == 0 {
        tracker
    } else {
        let before = press_frames(tracker, button, (n - 1) as nat);
        after_frame(
            after_input(ClickTracker { input: None, ..before }, MouseInputState { button, pressed: true }),
            false,
        )
    }
}

/// Presses of one button in quick succession are counted one each: from no
/// cooldown and no counter, `n` frames with a press of the button and a
/// cooldown that has not run out leave the counter at `n`, the button's
/// cooldown running.
pub proof fn law_presses_counted(button: MouseButtonKind, n: nat)
    requires
        n < 256,
    ensures
        ({
            let t = press_frames(ClickTracker { input: None, cooldown: None, counter: None }, button, n);
            &&& n > 0 ==> t.cooldown == Some(button)
            &&& n > 0 ==> t.counter == Some(MouseClickCounter(n as u8))
        }),
    decreases n,
{
    let empty = ClickTracker { input: None, cooldown: None, counter: None };
    let press = MouseInputState { button, pressed: true };
    if n == 1 {
        assert(press_frames(empty, button, 0) == empty);
        let a = after_input(ClickTracker { input: None, ..empty }, press);
        assert(a.cooldown == Some(button) && a.counter == Some(MouseClickCounter(0)));
        assert(counts(a));
        assert(count_of(a) == 0);
    } else if n > 1 {
        law_presses_counted(button, (n - 1) as nat);
        let before = press_frames(empty, button, (n - 1) as nat);
        let a = after_input(ClickTracker { input: None, ..before }, press);
        assert(a.cooldown == Some(button));
        assert(a.counter == Some(MouseClickCounter((n - 1) as u8)));
        assert(counts(a));
        assert(count_of(a) == n - 1);
    }
}

/// A release is recorded as the frame's input and changes nothing else: the
/// cooldown and the counter stay as they were, and no cooldown starts.
pub proof fn law_release_changes_only_input(tracker: ClickTracker, input: MouseInputState)
    requires
        !input.pressed,
    ensures
        after_input(tracker, input).input == Some(input),
        after_input(tracker, input).cooldown == tracker.cooldown,
        after_input(tracker, input).counter == tracker.counter,
{
}

/// One frame from `tracker` in which the cooldown has not run out: the last
/// frame's input is forgotten, `input` reaches the entity, and the frame ends.
pub open spec fn quick_frame(tracker: ClickTracker, input: MouseInputState) -> ClickTracker {
    after_frame(after_input(ClickTracker { input: None, ..tracker }, input), false)
}

/// A double click counts two: from no cooldown and no counter, a press of a
/// button, its release and a second press, each in its own frame before the
/// cooldown runs out, leave the button's cooldown running and the counter at
/// two, which with the left button is what [`focuses_body`] asks.
pub proof fn law_double_click_counts_two(button: MouseButtonKind)
    ensures
        ({
            let empty = ClickTracker { input: None, cooldown: None, counter: None };
            let press = MouseInputState { button, pressed: true };
            let release = MouseInputState { button, pressed: false };
            let t = quick_frame(quick_frame(quick_frame(empty, press), release), press);
            &&& t.cooldown == Some(button)
            &&& t.counter == Some(MouseClickCounter(2))
        }),
{
    let empty = ClickTracker { input: None, cooldown: None, counter: None };
    let press = MouseInputState { button, pressed: true };
    let release = MouseInputState { button, pressed: false };
    let a = after_input(ClickTracker { input: None, ..empty }, press);
    assert(counts(a) && count_of(a) == 0);
    let t1 = quick_frame(empty, press);
    assert(t1.counter == Some(MouseClickCounter(1)) && t1.cooldown == Some(button));
    let b = after_input(ClickTracker { input: None, ..t1 }, release);
    assert(!counts(b));
    let t2 = quick_frame(t1, release);
    assert(t2.counter == Some(MouseClickCounter(1)) && t2.cooldown == Some(button));
    let c = after_input(ClickTracker { input: None, ..t2 }, press);
    assert(counts(c) && count_of(c) == 1);
}

/// A frame with no input before the cooldown runs out changes nothing; when
/// the cooldown runs out it ends, and the counter goes with it only where the
/// frame had no input.
pub proof fn law_frame_end(tracker: ClickTracker)
    ensures
        tracker.input is None ==> after_frame(tracker, false) == tracker,
        after_frame(tracker, true).cooldown is None,
        tracker.input is None ==> after_frame(tracker, true).counter is None,
        tracker.input is Some && tracker.counter is Some ==> after_frame(tracker, true).counter is Some,
{
}

} // verus!
