use breakout::fixed::Fixed;
use breakout::input::keyboard::Key;
use breakout::input::keyboard::Keyboard;
use breakout::input::mouse::Button;
use breakout::input::mouse::Mouse;
use breakout::input::ButtonState;
use breakout::input::Input;

#[test]
fn a_new_button_is_up() {
    let button = ButtonState::new();
    assert!(!button.is_down());
    assert!(!button.pressed());
    assert!(!button.released());
}

#[test]
fn pressed_and_released_are_edges() {
    let down = ButtonState { is_down: true, was_down: false };
    assert!(down.is_down() && down.pressed() && !down.released());
    let held = ButtonState { is_down: true, was_down: true };
    assert!(held.is_down() && !held.pressed() && !held.released());
    let up = ButtonState { is_down: false, was_down: true };
    assert!(!up.is_down() && !up.pressed() && up.released());
}

#[test]
fn reset_lets_a_button_go() {
    let mut button = ButtonState { is_down: true, was_down: true };
    button.reset();
    assert_eq!(button, ButtonState::new());
}

#[test]
fn keys_are_tracked_one_by_one() {
    let mut keyboard = Keyboard::new();
    keyboard.key_mut(Key::Up).is_down = true;
    assert!(keyboard.key(Key::Up).pressed());
    assert!(!keyboard.key(Key::Left).is_down());
    assert!(!keyboard.key(Key::Right).is_down());
    assert!(!keyboard.key(Key::Down).is_down());
    keyboard.key_mut(Key::Down).was_down = true;
    assert!(keyboard.key(Key::Down).released());
    assert!(keyboard.keys[2].is_down);
    assert!(keyboard.keys[3].was_down);
}

#[test]
fn mouse_buttons_are_tracked_one_by_one() {
    let mut mouse = Mouse::new();
    assert!(mouse.position.is_zero());
    mouse.button_mut(Button::Right).is_down = true;
    assert!(mouse.button(Button::Right).pressed());
    assert!(!mouse.button(Button::Left).is_down());
    assert!(mouse.buttons[1].is_down);
    mouse.position.x = Fixed::from_int(3);
    assert_eq!(mouse.position.x.raw, 12582912);
}

#[test]
fn a_new_input_has_nothing_down() {
    let input = Input::new();
    assert!(!input.mouse.button(Button::Left).is_down());
    assert!(!input.mouse.button(Button::Right).is_down());
    assert!(!input.keyboard.key(Key::Left).is_down());
    assert!(input.mouse.position.is_zero());
}
