use crate::input::ButtonState;
use crate::math::Vec2;
use vstd::prelude::*;

verus! {

/// The buttons that are tracked; `Count` is their number and no button.
#[derive(Copy, Clone, Debug, PartialEq, Eq, Structural)]
pub enum Button {
    Left,
    Right,
    Count,
}

impl Button {
    /// The place of the button among the tracked buttons; `Count` is their
    /// number and no button.
    pub open spec fn ordinal(self) -> int {
        match self {
            Button::Left => 0,
            Button::Right => 1,
            Button::Count => 2,
        }
    }

    /// The place of the button among the tracked buttons.
    fn place(self) -> (r: usize)
        ensures
            r == self.ordinal(),
    {
        match self {
            Button::Left => 0,
            Button::Right => 1,
            Button::Count => 2,
        }
    }
}

/// The pointer: where it is, in world units, and its buttons.
pub struct Mouse {
    pub position: Vec2,
    pub buttons: [ButtonState; 2],
}

impl Mouse {
    /// The pointer at the origin with no button down, now or before.
    pub open spec fn idle() -> Mouse {
        let up = ButtonState { is_down: false, was_down: false };
        Mouse { position: Vec2::origin(), buttons: [up, up] }
    }

    /// The pointer at the origin with no button down.
    pub fn new() -> (r: Mouse)
        ensures
            r == Mouse::idle(),
    {
        let up = ButtonState::new();
        Mouse { position: Vec2::zero(), buttons: [up, up] }
    }

    /// The state of a button.
    pub fn button(&self, button: Button) -> (r: &ButtonState)
        requires
            button != Button::Count,
        ensures
            *r == self.buttons[button.ordinal()],
    {
        &self.buttons[button.place()]
    }

    /// The state of a button, for changing it.
    pub fn button_mut(&mut self, button: Button) -> (r: &mut ButtonState)
        requires
            button != Button::Count,
        ensures
            *r == old(self).buttons[button.ordinal()],
            final(self).buttons@ == old(self).buttons@.update(button.ordinal(), *final(r)),
    {
        &mut self.buttons[button.place()]
    }
}

} // verus!
