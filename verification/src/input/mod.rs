//! The snapshot of the input devices that a frame is simulated with.

pub mod keyboard;
pub mod mouse;

use crate::input::keyboard::Keyboard;
use crate::input::mouse::Mouse;
use vstd::prelude::*;

verus! {

/// The state of a button in this frame and in the one before.
#[derive(Copy, Clone, Debug, PartialEq, Eq, Structural)]
pub struct ButtonState {
    pub is_down: bool,
    pub was_down: bool,
}

impl ButtonState {
    /// Whether the button went down in this frame.
    pub open spec fn went_down(self) -> bool {
        self.is_down && !self.was_down
    }

    /// Whether the button went up in this frame.
    pub open spec fn went_up(self) -> bool {
        !self.is_down && self.was_down
    }

    /// The button that is up and was up.
    pub fn new() -> (r: ButtonState)
        ensures
            r == (ButtonState { is_down: false, was_down: false }),
    {
        ButtonState { is_down: false, was_down: false }
    }

    /// Lets the button go and forgets that it was down.
    pub fn reset(&mut self)
        ensures
            *final(self) == (ButtonState { is_down: false, was_down: false }),
    {
        self.is_down = false;
        self.was_down = false;
    }

    /// Whether the button is down.
    pub fn is_down(&self) -> (r: bool)
        ensures
            r == self.is_down,
    {
        self.is_down
    }

    /// Whether the button went down in this frame.
    pub fn pressed(&self) -> (r: bool)
        ensures
            r == self.went_down(),
    {
        self.is_down && !self.was_down
    }

    /// Whether the button went up in this frame.
    pub fn released(&self) -> (r: bool)
        ensures
            r == self.went_up(),
    {
        !self.is_down && self.was_down
    }
}

/// What the input devices say in one frame.
pub struct Input {
    pub mouse: Mouse,
    pub keyboard: Keyboard,
}

impl Input {
    /// The input with the pointer at the origin and nothing down.
    pub fn new() -> (r: Input)
        ensures
            r.mouse == Mouse::idle(),
            r.keyboard == Keyboard::idle(),
    {
        Input { mouse: Mouse::new(), keyboard: Keyboard::new() }
    }
}

} // verus!
