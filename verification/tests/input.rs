use citybound::input::{GameKey, InputState, map_platform_key};
use citybound::platform::{MouseButton, PlatformKey};

#[test]
fn input_state_starts_empty() {
    let state = InputState::new();
    assert_eq!(state.keys_down, 0);
    assert_eq!(state.keys_pressed, 0);
    assert_eq!(state.keys_released, 0);
    assert!(!state.mouse_left);
    assert!(!state.mouse_right);
}

#[test]
fn key_bits_match_the_key_table() {
    assert_eq!(GameKey::Escape.bit(), 0);
    assert_eq!(GameKey::W.bit(), 45);
    assert_eq!(GameKey::BracketLeft.bit(), 60);
    assert_eq!(GameKey::BracketRight.bit(), 61);
    assert_eq!(GameKey::F5.bit(), 59);
    assert_eq!(GameKey::F9.bit(), 65);
    assert_eq!(GameKey::F12.bit(), 68);
}

#[test]
fn held_pressed_and_released_keys() {
    let mut state = InputState::new();
    state.keys_down = 1u128 << GameKey::W.bit();
    assert!(state.is_key_down(GameKey::W));
    assert!(!state.is_key_down(GameKey::S));
    state.keys_pressed = 1u128 << GameKey::Space.bit();
    assert!(state.is_key_pressed(GameKey::Space));
    assert!(!state.is_key_pressed(GameKey::Enter));
    state.keys_released = 1u128 << GameKey::Escape.bit();
    assert!(state.is_key_released(GameKey::Escape));
    assert!(!state.is_key_released(GameKey::Tab));
}

#[test]
fn key_edges_between_frames() {
    let a = 1u128 << GameKey::A.bit();
    let b = 1u128 << GameKey::B.bit();
    let mut state = InputState::new();
    state.update(a, false, false, false, true);
    assert!(state.is_key_pressed(GameKey::A));
    state.update(a | b, false, false, false, true);
    assert!(!state.is_key_pressed(GameKey::A));
    assert!(state.is_key_down(GameKey::A));
    assert!(state.is_key_pressed(GameKey::B));
    state.update(b, false, false, false, true);
    assert!(state.is_key_released(GameKey::A));
    assert!(!state.is_key_released(GameKey::B));
}

#[test]
fn mouse_button_edges() {
    let mut state = InputState::new();
    state.update(0, true, false, false, true);
    assert!(state.is_mouse_pressed(MouseButton::Left));
    assert!(state.is_mouse_down(MouseButton::Left));
    assert!(!state.is_mouse_released(MouseButton::Left));
    state.update(0, false, false, false, true);
    assert!(!state.is_mouse_pressed(MouseButton::Left));
    assert!(!state.is_mouse_down(MouseButton::Left));
    assert!(state.is_mouse_released(MouseButton::Left));
}

#[test]
fn platform_events_feed_the_state() {
    let mut state = InputState::new();
    state.press_platform_key(PlatformKey::RShift);
    assert!(state.is_key_down(GameKey::Shift));
    assert!(state.is_key_pressed(GameKey::Shift));
    state.press_platform_key(PlatformKey::Back);
    assert_eq!(state.keys_down, 1u128 << GameKey::Shift.bit());
    state.set_mouse_button(MouseButton::Right, true);
    assert!(state.is_mouse_pressed(MouseButton::Right));
    state.set_mouse_button(MouseButton::Right, false);
    assert!(state.is_mouse_released(MouseButton::Right));
}

#[test]
fn platform_key_mapping() {
    assert_eq!(map_platform_key(PlatformKey::LCtrl), Some(GameKey::Control));
    assert_eq!(map_platform_key(PlatformKey::Key7), Some(GameKey::Key7));
    assert_eq!(map_platform_key(PlatformKey::BracketRight), Some(GameKey::BracketRight));
    assert_eq!(map_platform_key(PlatformKey::Menu), None);
}
