//! The three buttons.

use vstd::prelude::*;

verus! {

/// How long a button is held for a long press.
pub const LONG_PRESS_DURATION_MS: u64 = 2000;

/// How long a button is left alone after it was released.
pub const DEBOUNCE_DURATION_MS: u64 = 10;

#[derive(Debug, Copy, Clone, PartialEq, Eq, Structural)]
pub enum ButtonPress {
    Short(Button),
    Long(Button),
    /// More than one button was held for a long press.
    CombinedLong(ButtonsPressedState),
}

#[derive(Debug, Copy, Clone, PartialEq, Eq, Structural)]
pub enum Button {
    Up,
    Middle,
    Down,
}

/// Which buttons are held.
#[derive(Debug, Copy, Clone, PartialEq, Eq, Structural)]
pub struct ButtonsPressedState {
    pub up: bool,
    pub down: bool,
    pub select: bool,
}

impl Default for ButtonsPressedState {
    fn default() -> (s: Self)
        ensures
            !s.up && !s.down && !s.select,
    {
        ButtonsPressedState { up: false, down: false, select: false }
    }
}

impl ButtonsPressedState {
    /// Whether a button is held.
    pub open spec fn held(self, button: Button) -> bool {
        match button {
            Button::Up => self.up,
            Button::Middle => self.select,
            Button::Down => self.down,
        }
    }

    /// Whether a button other than this one is held.
    pub open spec fn other_held(self, button: Button) -> bool {
        exists|b: Button| b != button && self.held(b)
    }

    /// The state in which `button` is held or not, and the others as they are.
    pub open spec fn with(self, button: Button, pressed: bool) -> Self {
        match button {
            Button::Up => ButtonsPressedState { up: pressed, ..self },
            Button::Middle => ButtonsPressedState { select: pressed, ..self },
            Button::Down => ButtonsPressedState { down: pressed, ..self },
        }
    }

    pub fn set_pressed(&mut self, button: Button, pressed: bool)
        ensures
            *final(self) == old(self).with(button, pressed),
    {
        match button {
            Button::Up => {
                self.up = pressed;
            },
            Button::Middle => {
                self.select = pressed;
            },
            Button::Down => {
                self.down = pressed;
            },
        }
    }

    pub fn is_pressed(&self, button: Button) -> (r: bool)
        ensures
            r == self.held(button),
    {
        match button {
            Button::Up => self.up,
            Button::Middle => self.select,
            Button::Down => self.down,
        }
    }

    pub fn is_other_pressed(&self, exclude: Button) -> (r: bool)
        ensures
            r == self.other_held(exclude),
    {
        assert(self.held(Button::Up) == self.up);
        assert(self.held(Button::Middle) == self.select);
        assert(self.held(Button::Down) == self.down);
        match exclude {
            Button::Up => self.down || self.select,
            Button::Middle => self.up || self.down,
            Button::Down => self.up || self.select,
        }
    }

    pub fn clear(&mut self)
        ensures
            !final(self).up && !final(self).down && !final(self).select,
    {
        *self = ButtonsPressedState::default();
    }
}

/// Setting a button changes that button and no other.
pub proof fn lemma_set_one_button(s: ButtonsPressedState, button: Button, pressed: bool)
    ensures
        s.with(button, pressed).held(button) == pressed,
        forall|b: Button| b != button ==> #[trigger] s.with(button, pressed).held(b) == s.held(b),
{
}

/// What happens to a button.
#[derive(Debug, Copy, Clone, PartialEq, Eq, Structural)]
pub enum ButtonEvent {
    /// It goes down. It `bounced` if it is up again at once.
    Pressed { bounced: bool },
    /// It comes up before the time for a long press is over.
    Released,
    /// The time for a long press is over.
    HeldLong,
    /// The time after a press is over.
    Settled,
}

/// What to wait for next.
#[derive(Debug, Copy, Clone, PartialEq, Eq, Structural)]
pub enum ButtonWait {
    /// The button to go down.
    Press,
    /// The button to come up, or the time for a long press to be over.
    ReleaseOrLong,
    /// The time after a press to be over.
    Settle,
}

/// What comes of an event: the state of the buttons, the press that it makes, and what to wait for.
///
/// The first button whose time for a long press is over while others are held makes a combined
/// press; the others held with it then make none.
pub open spec fn button_step(
    state: ButtonsPressedState,
    button: Button,
    event: ButtonEvent,
) -> (ButtonsPressedState, Option<ButtonPress>, ButtonWait) {
    match event {
        ButtonEvent::Pressed { bounced } => if bounced {
            (state.with(button, false), None, ButtonWait::Press)
        } else {
            (state.with(button, true), None, ButtonWait::ReleaseOrLong)
        },
        ButtonEvent::Released => (state, Some(ButtonPress::Short(button)), ButtonWait::Settle),
        ButtonEvent::HeldLong => if !state.held(button) {
            (state, None, ButtonWait::Press)
        } else if state.other_held(button) {
            (
                ButtonsPressedState { up: false, down: false, select: false },
                Some(ButtonPress::CombinedLong(state)),
                ButtonWait::Settle,
            )
        } else {
            (state, Some(ButtonPress::Long(button)), ButtonWait::Settle)
        },
        ButtonEvent::Settled => (state.with(button, false), None, ButtonWait::Press),
    }
}

/// Handles an event of a button.
pub fn on_button_event(state: &mut ButtonsPressedState, button: Button, event: ButtonEvent) -> (r: (
    Option<ButtonPress>,
    ButtonWait,
))
    ensures
        ({
            let (press, wait) = r;
            (*final(state), press, wait) == button_step(*old(state), button, event)
        }),
{
    match event {
        ButtonEvent::Pressed { bounced } => {
            state.set_pressed(button, !bounced);
            if bounced {
                (None, ButtonWait::Press)
            } else {
                (None, ButtonWait::ReleaseOrLong)
            }
        },
        ButtonEvent::Released => (Some(ButtonPress::Short(button)), ButtonWait::Settle),
        ButtonEvent::HeldLong => {
            if !state.is_pressed(button) {
                return (None, ButtonWait::Press);
            }
            if state.is_other_pressed(button) {
                let held = *state;
                state.clear();
                (Some(ButtonPress::CombinedLong(held)), ButtonWait::Settle)
            } else {
                (Some(ButtonPress::Long(button)), ButtonWait::Settle)
            }
        },
        ButtonEvent::Settled => {
            state.set_pressed(button, false);
            (None, ButtonWait::Press)
        },
    }
}

/// Buttons held together make one combined press: after the first has made it, the others make
/// none.
pub proof fn lemma_one_combined_press(state: ButtonsPressedState, first: Button, second: Button)
    requires
        state.held(first),
        state.held(second),
        first != second,
    ensures
        ({
            let (after, press, _) = button_step(state, first, ButtonEvent::HeldLong);
            let (_, other, _) = button_step(after, second, ButtonEvent::HeldLong);
            press == Some(ButtonPress::CombinedLong(state)) && other is None
        }),
{
    assert(state.held(second));
}

/// The states of the three buttons are kept apart, the middle one's as the one to select with.
pub proof fn lemma_state_of_each_button(s: ButtonsPressedState, pressed: bool)
    ensures
        s.held(Button::Up) == s.up,
        s.held(Button::Middle) == s.select,
        s.held(Button::Down) == s.down,
        s.with(Button::Up, pressed) == (ButtonsPressedState {
            up: pressed,
            down: s.down,
            select: s.select,
        }),
        s.with(Button::Middle, pressed) == (ButtonsPressedState {
            up: s.up,
            down: s.down,
            select: pressed,
        }),
        s.with(Button::Down, pressed) == (ButtonsPressedState {
            up: s.up,
            down: pressed,
            select: s.select,
        }),
{
}

/// A button that goes down, and comes up again in time, makes one short press of that button and is
/// not held in the end; one that bounces makes none.
pub proof fn lemma_short_press(state: ButtonsPressedState, button: Button)
    ensures
        ({
            let (down, p1, w1) = button_step(state, button, ButtonEvent::Pressed { bounced: false });
            let (up, p2, w2) = button_step(down, button, ButtonEvent::Released);
            let (end, p3, w3) = button_step(up, button, ButtonEvent::Settled);
            &&& down.held(button) && p1 is None && w1 == ButtonWait::ReleaseOrLong
            &&& p2 == Some(ButtonPress::Short(button)) && w2 == ButtonWait::Settle
            &&& !end.held(button) && p3 is None && w3 == ButtonWait::Press
            &&& forall|b: Button| b != button ==> #[trigger] end.held(b) == state.held(b)
        }),
        ({
            let (end, press, wait) = button_step(
                state,
                button,
                ButtonEvent::Pressed { bounced: true },
            );
            !end.held(button) && press is None && wait == ButtonWait::Press
        }),
{
}

/// A button that is held for long makes a long press if it is the only one held, and a combined one
/// of all that are held, which then count as released, if it is not. It makes none if its press was
/// part of a combined one.
pub proof fn lemma_long_press(state: ButtonsPressedState, button: Button)
    ensures
        ({
            let (after, press, wait) = button_step(state, button, ButtonEvent::HeldLong);
            let held = (if state.up {
                1int
            } else {
                0
            }) + (if state.select {
                1int
            } else {
                0
            }) + (if state.down {
                1int
            } else {
                0
            });
            &&& !state.held(button) ==> press is None && after == state && wait == ButtonWait::Press
            &&& state.held(button) && held == 1 ==> press == Some(ButtonPress::Long(button))
                && after == state && wait == ButtonWait::Settle
            &&& state.held(button) && held > 1 ==> press == Some(ButtonPress::CombinedLong(state))
                && !after.up && !after.select && !after.down && wait == ButtonWait::Settle
        }),
{
    assert(state.held(Button::Up) == state.up);
    assert(state.held(Button::Middle) == state.select);
    assert(state.held(Button::Down) == state.down);
}

} // verus!
