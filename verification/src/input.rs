//! Player intents and the device events that set and clear them.

use vstd::prelude::*;

verus! {

/// The keys the game reacts to. Every other key is `Other`.
#[derive(Clone, Copy, PartialEq, Eq, Debug)]
pub enum Key {
    Left,
    Right,
    Up,
    Down,
    LCtrl,
    Space,
    LShift,
    Other,
}

/// The controller buttons the game reacts to. Every other button is `Other`.
#[derive(Clone, Copy, PartialEq, Eq, Debug)]
pub enum Button {
    A,
    B,
    X,
    Other,
}

/// The controller axes the game reacts to. Every other axis is `Other`.
#[derive(Clone, Copy, PartialEq, Eq, Debug)]
pub enum Axis {
    LeftX,
    LeftY,
    Other,
}

/// An axis counts as pushed once its value lies beyond this distance from rest.
pub const AXIS_THRESHOLD: i16 = 7500;

/// What the player currently asks for, one flag per intent.
#[derive(Clone, Copy, PartialEq, Eq, Debug)]
pub struct PlayerInput {
    pub left: bool,
    pub right: bool,
    pub up: bool,
    pub down: bool,
    pub jump: bool,
    pub attack: bool,
    pub slide: bool,
}

impl PlayerInput {
    /// The state in which nothing is asked for.
    pub open spec fn idle() -> PlayerInput {
        PlayerInput {
            left: false,
            right: false,
            up: false,
            down: false,
            jump: false,
            attack: false,
            slide: false,
        }
    }

    /// The intent that `key` stands for; `false` for a key that stands for none.
    pub open spec fn intent(self, key: Key) -> bool {
        match key {
            Key::Left => self.left,
            Key::Right => self.right,
            Key::Up => self.up,
            Key::Down => self.down,
            Key::LCtrl => self.slide,
            Key::Space => self.jump,
            Key::LShift => self.attack,
            Key::Other => false,
        }
    }

    /// This state with the intent of `key` set to `held`, all else unchanged.
    pub open spec fn with_intent(self, key: Key, held: bool) -> PlayerInput {
        match key {
            Key::Left => PlayerInput { left: held, ..self },
            Key::Right => PlayerInput { right: held, ..self },
            Key::Up => PlayerInput { up: held, ..self },
            Key::Down => PlayerInput { down: held, ..self },
            Key::LCtrl => PlayerInput { slide: held, ..self },
            Key::Space => PlayerInput { jump: held, ..self },
            Key::LShift => PlayerInput { attack: held, ..self },
            Key::Other => self,
        }
    }

    /// The state after a key-down event. A repeat event changes nothing.
    pub open spec fn after_key_down(self, key: Key, repeat: bool) -> PlayerInput {
        if repeat {
            self
        } else {
            self.with_intent(key, true)
        }
    }

    /// The state after a key-up event. A repeat event changes nothing.
    pub open spec fn after_key_up(self, key: Key, repeat: bool) -> PlayerInput {
        if repeat {
            self
        } else {
            self.with_intent(key, false)
        }
    }

    /// The state after a controller button went down.
    pub open spec fn after_button_down(self, button: Button) -> PlayerInput {
        match button {
            Button::A => PlayerInput { jump: true, ..self },
            Button::X => PlayerInput { attack: true, ..self },
            Button::B => PlayerInput { slide: true, ..self },
            Button::Other => self,
        }
    }

    /// The state after a controller axis moved to `value`.
    pub open spec fn after_axis(self, axis: Axis, value: i16) -> PlayerInput {
        match axis {
            Axis::LeftX => PlayerInput {
                right: value > AXIS_THRESHOLD,
                left: value < -AXIS_THRESHOLD,
                ..self
            },
            Axis::LeftY => PlayerInput { down: value > AXIS_THRESHOLD, ..self },
            Axis::Other => self,
        }
    }

    /// A state in which nothing is asked for.
    pub fn new() -> (input: PlayerInput)
        ensures
            input == PlayerInput::idle(),
    {
        PlayerInput {
            left: false,
            right: false,
            up: false,
            down: false,
            jump: false,
            attack: false,
            slide: false,
        }
    }

    /// Records a key-down event: the first press of a key sets its intent,
    /// the repeats that follow while it is held are ignored.
    pub fn key_down_event(&mut self, keycode: Key, repeat: bool)
        ensures
            *final(self) == old(self).after_key_down(keycode, repeat),
    {
        if !repeat {
            match keycode {
                Key::Left => self.left = true,
                Key::Right => self.right = true,
                Key::Up => self.up = true,
                Key::Down => self.down = true,
                Key::LCtrl => self.slide = true,
                Key::Space => self.jump = true,
                Key::LShift => self.attack = true,
                Key::Other => (),
            }
        }
    }

    /// Records a key-up event: the release of a key clears its intent.
    pub fn key_up_event(&mut self, keycode: Key, repeat: bool)
        ensures
            *final(self) == old(self).after_key_up(keycode, repeat),
    {
        if !repeat {
            match keycode {
                Key::Left => self.left = false,
                Key::Right => self.right = false,
                Key::Up => self.up = false,
                Key::Down => self.down = false,
                Key::LCtrl => self.slide = false,
                Key::Space => self.jump = false,
                Key::LShift => self.attack = false,
                Key::Other => (),
            }
        }
    }

    /// Records that a controller button went down.
    pub fn controller_button_down_event(&mut self, btn: Button)
        ensures
            *final(self) == old(self).after_button_down(btn),
    {
        match btn {
            Button::A => self.jump = true,
            Button::X => self.attack = true,
            Button::B => self.slide = true,
            Button::Other => (),
        }
    }

    /// Records that a controller button came up, which changes no intent.
    pub fn controller_button_up_event(&mut self, btn: Button)
        ensures
            *final(self) == *old(self),
    {
    }

    /// Records the new position of a controller axis. The horizontal axis
    /// decides `left` and `right`, the vertical axis decides `down`.
    pub fn controller_axis_event(&mut self, axis: Axis, value: i16)
        ensures
            *final(self) == old(self).after_axis(axis, value),
    {
        match axis {
            Axis::LeftX => {
                self.right = value > AXIS_THRESHOLD;
                self.left = value < -AXIS_THRESHOLD;
            },
            Axis::LeftY => {
                self.down = value > AXIS_THRESHOLD;
            },
            Axis::Other => (),
        }
    }
}

/// While a key is held its intent is set by the first key-down event alone:
/// that event sets the intent, every repeat of it leaves the whole state as
/// it is, and the release clears the intent and touches no other.
pub proof fn held_key_sets_once_and_release_clears(state: PlayerInput, key: Key)
    requires
        key != Key::Other,
    ensures
        state.after_key_down(key, false).intent(key),
        forall|held: PlayerInput| held.after_key_down(key, true) == held,
        forall|held: PlayerInput| held.after_key_up(key, true) == held,
        !state.after_key_down(key, false).after_key_up(key, false).intent(key),
        forall|other: Key|
            other != key ==> state.after_key_down(key, false).after_key_up(key, false).intent(other)
                == state.intent(other),
{
}

/// A key that stands for no intent never changes the state.
pub proof fn unmapped_key_changes_nothing(state: PlayerInput, repeat: bool)
    ensures
        state.after_key_down(Key::Other, repeat) == state,
        state.after_key_up(Key::Other, repeat) == state,
{
}

} // verus!
