use crate::input::ButtonState;
use vstd::prelude::*;

verus! {

/// The keys that are tracked; `Count` is their number and no key.
#[derive(Copy, Clone, Debug, PartialEq, Eq, Structural)]
pub enum Key {
    Left,
    Right,
    Up,
    Down,
    Count,
}

impl Key {
    /// The place of the key among the tracked keys; `Count` is their
    /// number and no key.
    pub open spec fn ordinal(self) -> int {
        match self {
            Key::Left => 0,
            Key::Right => 1,
            Key::Up => 2,
            Key::Down => 3,
            Key::Count => 4,
        }
    }

    /// The place of the key among the tracked keys.
    fn place(self) -> (r: usize)
        ensures
            r == self.ordinal(),
    {
        match self {
            Key::Left => 0,
            Key::Right => 1,
            Key::Up => 2,
            Key::Down => 3,
            Key::Count => 4,
        }
    }
}

/// The tracked keys of the keyboard.
pub struct Keyboard {
    pub keys: [ButtonState; 4],
}

impl Keyboard {
    /// The keyboard with no key down, now or before.
    pub open spec fn idle() -> Keyboard {
        let up = ButtonState { is_down: false, was_down: false };
        Keyboard { keys: [up, up, up, up] }
    }

    /// The keyboard with no key down.
    pub fn new() -> (r: Keyboard)
        ensures
            r == Keyboard::idle(),
    {
        let up = ButtonState::new();
        Keyboard { keys: [up, up, up, up] }
    }

    /// The state of a key.
    pub fn key(&self, key: Key) -> (r: &ButtonState)
        requires
            key != Key::Count,
        ensures
            *r == self.keys[key.ordinal()],
    {
        &self.keys[key.place()]
    }

    /// The state of a key, for changing it.
    pub fn key_mut(&mut self, key: Key) -> (r: &mut ButtonState)
        requires
            key != Key::Count,
        ensures
            *r == old(self).keys[key.ordinal()],
            final(self).keys@ == old(self).keys@.update(key.ordinal(), *final(r)),
    {
        &mut self.keys[key.place()]
    }
}

} // verus!
