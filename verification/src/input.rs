//! Per-frame input state: a 128-bit field of held keys with press and
//! release edges, and the three mouse buttons with their previous state.

use vstd::prelude::*;
use crate::platform::{PlatformKey, MouseButton};

verus! {

/// Keys the game reacts to; each has a fixed bit in the key fields.
#[derive(Copy, Clone, Debug, PartialEq, Eq, Structural)]
pub enum GameKey {
    Escape,
    Space,
    Enter,
    Tab,
    Backspace,
    Delete,
    Left,
    Right,
    Up,
    Down,
    Shift,
    Control,
    Alt,
    Key1,
    Key2,
    Key3,
    Key4,
    Key5,
    Key6,
    Key7,
    Key8,
    Key9,
    Key0,
    A,
    B,
    C,
    D,
    E,
    F,
    G,
    H,
    I,
    J,
    K,
    L,
    M,
    N,
    O,
    P,
    Q,
    R,
    S,
    T,
    U,
    V,
    W,
    X,
    Y,
    Z,
    Minus,
    Equals,
    PageUp,
    PageDown,
    Home,
    End,
    F1,
    F2,
    F3,
    F4,
    F5,
    F6,
    F7,
    F8,
    F9,
    F10,
    F11,
    F12,
    BracketLeft,
    BracketRight,
}

/// Bit of a key in the key fields.
pub open spec fn key_bit(k: GameKey) -> u8 {
    match k {
        GameKey::Escape => 0u8,
        GameKey::Space => 1u8,
        GameKey::Enter => 2u8,
        GameKey::Tab => 3u8,
        GameKey::Backspace => 4u8,
        GameKey::Delete => 5u8,
        GameKey::Left => 6u8,
        GameKey::Right => 7u8,
        GameKey::Up => 8u8,
        GameKey::Down => 9u8,
        GameKey::Shift => 10u8,
        GameKey::Control => 11u8,
        GameKey::Alt => 12u8,
        GameKey::Key1 => 13u8,
        GameKey::Key2 => 14u8,
        GameKey::Key3 => 15u8,
        GameKey::Key4 => 16u8,
        GameKey::Key5 => 17u8,
        GameKey::Key6 => 18u8,
        GameKey::Key7 => 19u8,
        GameKey::Key8 => 20u8,
        GameKey::Key9 => 21u8,
        GameKey::Key0 => 22u8,
        GameKey::A => 23u8,
        GameKey::B => 24u8,
        GameKey::C => 25u8,
        GameKey::D => 26u8,
        GameKey::E => 27u8,
        GameKey::F => 28u8,
        GameKey::G => 29u8,
        GameKey::H => 30u8,
        GameKey::I => 31u8,
        GameKey::J => 32u8,
        GameKey::K => 33u8,
        GameKey::L => 34u8,
        GameKey::M => 35u8,
        GameKey::N => 36u8,
        GameKey::O => 37u8,
        GameKey::P => 38u8,
        GameKey::Q => 39u8,
        GameKey::R => 40u8,
        GameKey::S => 41u8,
        GameKey::T => 42u8,
        GameKey::U => 43u8,
        GameKey::V => 44u8,
        GameKey::W => 45u8,
        GameKey::X => 46u8,
        GameKey::Y => 47u8,
        GameKey::Z => 48u8,
        GameKey::Minus => 49u8,
        GameKey::Equals => 50u8,
        GameKey::PageUp => 51u8,
        GameKey::PageDown => 52u8,
        GameKey::Home => 53u8,
        GameKey::End => 54u8,
        GameKey::F1 => 55u8,
        GameKey::F2 => 56u8,
        GameKey::F3 => 57u8,
        GameKey::F4 => 58u8,
        GameKey::F5 => 59u8,
        GameKey::F6 => 62u8,
        GameKey::F7 => 63u8,
        GameKey::F8 => 64u8,
        GameKey::F9 => 65u8,
        GameKey::F10 => 66u8,
        GameKey::F11 => 67u8,
        GameKey::F12 => 68u8,
        GameKey::BracketLeft => 60u8,
        GameKey::BracketRight => 61u8,
    }
}

impl GameKey {
    /// Bit of the key in the key fields.
    pub fn bit(&self) -> (r: u8)
        ensures
            r == key_bit(*self),
            r < 128,
    {
        match self {
            GameKey::Escape => 0,
            GameKey::Space => 1,
            GameKey::Enter => 2,
            GameKey::Tab => 3,
            GameKey::Backspace => 4,
            GameKey::Delete => 5,
            GameKey::Left => 6,
            GameKey::Right => 7,
            GameKey::Up => 8,
            GameKey::Down => 9,
            GameKey::Shift => 10,
            GameKey::Control => 11,
            GameKey::Alt => 12,
            GameKey::Key1 => 13,
            GameKey::Key2 => 14,
            GameKey::Key3 => 15,
            GameKey::Key4 => 16,
            GameKey::Key5 => 17,
            GameKey::Key6 => 18,
            GameKey::Key7 => 19,
            GameKey::Key8 => 20,
            GameKey::Key9 => 21,
            GameKey::Key0 => 22,
            GameKey::A => 23,
            GameKey::B => 24,
            GameKey::C => 25,
            GameKey::D => 26,
            GameKey::E => 27,
            GameKey::F => 28,
            GameKey::G => 29,
            GameKey::H => 30,
            GameKey::I => 31,
            GameKey::J => 32,
            GameKey::K => 33,
            GameKey::L => 34,
            GameKey::M => 35,
            GameKey::N => 36,
            GameKey::O => 37,
            GameKey::P => 38,
            GameKey::Q => 39,
            GameKey::R => 40,
            GameKey::S => 41,
            GameKey::T => 42,
            GameKey::U => 43,
            GameKey::V => 44,
            GameKey::W => 45,
            GameKey::X => 46,
            GameKey::Y => 47,
            GameKey::Z => 48,
            GameKey::Minus => 49,
            GameKey::Equals => 50,
            GameKey::PageUp => 51,
            GameKey::PageDown => 52,
            GameKey::Home => 53,
            GameKey::End => 54,
            GameKey::F1 => 55,
            GameKey::F2 => 56,
            GameKey::F3 => 57,
            GameKey::F4 => 58,
            GameKey::F5 => 59,
            GameKey::F6 => 62,
            GameKey::F7 => 63,
            GameKey::F8 => 64,
            GameKey::F9 => 65,
            GameKey::F10 => 66,
            GameKey::F11 => 67,
            GameKey::F12 => 68,
            GameKey::BracketLeft => 60,
            GameKey::BracketRight => 61,
        }
    }
}

/// Game key of a platform key: both shift, control and alt keys map to one
/// key each; `Back` and `Menu` have none.
pub open spec fn platform_game_key(key: PlatformKey) -> Option<GameKey> {
    match key {
        PlatformKey::A => Some(GameKey::A),
        PlatformKey::B => Some(GameKey::B),
        PlatformKey::C => Some(GameKey::C),
        PlatformKey::D => Some(GameKey::D),
        PlatformKey::E => Some(GameKey::E),
        PlatformKey::F => Some(GameKey::F),
        PlatformKey::G => Some(GameKey::G),
        PlatformKey::H => Some(GameKey::H),
        PlatformKey::I => Some(GameKey::I),
        PlatformKey::J => Some(GameKey::J),
        PlatformKey::K => Some(GameKey::K),
        PlatformKey::L => Some(GameKey::L),
        PlatformKey::M => Some(GameKey::M),
        PlatformKey::N => Some(GameKey::N),
        PlatformKey::O => Some(GameKey::O),
        PlatformKey::P => Some(GameKey::P),
        PlatformKey::Q => Some(GameKey::Q),
        PlatformKey::R => Some(GameKey::R),
        PlatformKey::S => Some(GameKey::S),
        PlatformKey::T => Some(GameKey::T),
        PlatformKey::U => Some(GameKey::U),
        PlatformKey::V => Some(GameKey::V),
        PlatformKey::W => Some(GameKey::W),
        PlatformKey::X => Some(GameKey::X),
        PlatformKey::Y => Some(GameKey::Y),
        PlatformKey::Z => Some(GameKey::Z),
        PlatformKey::Key0 => Some(GameKey::Key0),
        PlatformKey::Key1 => Some(GameKey::Key1),
        PlatformKey::Key2 => Some(GameKey::Key2),
        PlatformKey::Key3 => Some(GameKey::Key3),
        PlatformKey::Key4 => Some(GameKey::Key4),
        PlatformKey::Key5 => Some(GameKey::Key5),
        PlatformKey::Key6 => Some(GameKey::Key6),
        PlatformKey::Key7 => Some(GameKey::Key7),
        PlatformKey::Key8 => Some(GameKey::Key8),
        PlatformKey::Key9 => Some(GameKey::Key9),
        PlatformKey::F1 => Some(GameKey::F1),
        PlatformKey::F2 => Some(GameKey::F2),
        PlatformKey::F3 => Some(GameKey::F3),
        PlatformKey::F4 => Some(GameKey::F4),
        PlatformKey::F5 => Some(GameKey::F5),
        PlatformKey::F6 => Some(GameKey::F6),
        PlatformKey::F7 => Some(GameKey::F7),
        PlatformKey::F8 => Some(GameKey::F8),
        PlatformKey::F9 => Some(GameKey::F9),
        PlatformKey::F10 => Some(GameKey::F10),
        PlatformKey::F11 => Some(GameKey::F11),
        PlatformKey::F12 => Some(GameKey::F12),
        PlatformKey::Up => Some(GameKey::Up),
        PlatformKey::Down => Some(GameKey::Down),
        PlatformKey::Left => Some(GameKey::Left),
        PlatformKey::Right => Some(GameKey::Right),
        PlatformKey::LShift => Some(GameKey::Shift),
        PlatformKey::RShift => Some(GameKey::Shift),
        PlatformKey::LCtrl => Some(GameKey::Control),
        PlatformKey::RCtrl => Some(GameKey::Control),
        PlatformKey::LAlt => Some(GameKey::Alt),
        PlatformKey::RAlt => Some(GameKey::Alt),
        PlatformKey::Escape => Some(GameKey::Escape),
        PlatformKey::Enter => Some(GameKey::Enter),
        PlatformKey::Space => Some(GameKey::Space),
        PlatformKey::Backspace => Some(GameKey::Backspace),
        PlatformKey::Tab => Some(GameKey::Tab),
        PlatformKey::Delete => Some(GameKey::Delete),
        PlatformKey::Home => Some(GameKey::Home),
        PlatformKey::End => Some(GameKey::End),
        PlatformKey::PageUp => Some(GameKey::PageUp),
        PlatformKey::PageDown => Some(GameKey::PageDown),
        PlatformKey::Minus => Some(GameKey::Minus),
        PlatformKey::Equals => Some(GameKey::Equals),
        PlatformKey::BracketLeft => Some(GameKey::BracketLeft),
        PlatformKey::BracketRight => Some(GameKey::BracketRight),
        PlatformKey::Back => None,
        PlatformKey::Menu => None,
    }
}

/// Every game key has its own bit in the 128-bit key fields: two different
/// keys never share a bit, so pressing one is never read as pressing the
/// other.
pub proof fn lemma_key_bits_distinct(a: GameKey, b: GameKey)
    ensures
        key_bit(a) < 128,
        a != b ==> key_bit(a) != key_bit(b),
{
}

/// Every platform key that has a game key of the same name maps to it (the
/// arrow keys to the arrow of the same direction, letters, digits and
/// function keys to themselves); the left and right shift, control and alt
/// keys both map to the one shift, control and alt key; `Back` and `Menu`
/// map to none. Two platform keys share a game key only when they are the
/// left and right form of one modifier.
pub proof fn lemma_platform_keys_keep_their_names(k1: PlatformKey, k2: PlatformKey)
    ensures
        platform_game_key(PlatformKey::A) == Some(GameKey::A),
        platform_game_key(PlatformKey::B) == Some(GameKey::B),
        platform_game_key(PlatformKey::C) == Some(GameKey::C),
        platform_game_key(PlatformKey::D) == Some(GameKey::D),
        platform_game_key(PlatformKey::E) == Some(GameKey::E),
        platform_game_key(PlatformKey::F) == Some(GameKey::F),
        platform_game_key(PlatformKey::G) == Some(GameKey::G),
        platform_game_key(PlatformKey::H) == Some(GameKey::H),
        platform_game_key(PlatformKey::I) == Some(GameKey::I),
        platform_game_key(PlatformKey::J) == Some(GameKey::J),
        platform_game_key(PlatformKey::K) == Some(GameKey::K),
        platform_game_key(PlatformKey::L) == Some(GameKey::L),
        platform_game_key(PlatformKey::M) == Some(GameKey::M),
        platform_game_key(PlatformKey::N) == Some(GameKey::N),
        platform_game_key(PlatformKey::O) == Some(GameKey::O),
        platform_game_key(PlatformKey::P) == Some(GameKey::P),
        platform_game_key(PlatformKey::Q) == Some(GameKey::Q),
        platform_game_key(PlatformKey::R) == Some(GameKey::R),
        platform_game_key(PlatformKey::S) == Some(GameKey::S),
        platform_game_key(PlatformKey::T) == Some(GameKey::T),
        platform_game_key(PlatformKey::U) == Some(GameKey::U),
        platform_game_key(PlatformKey::V) == Some(GameKey::V),
        platform_game_key(PlatformKey::W) == Some(GameKey::W),
        platform_game_key(PlatformKey::X) == Some(GameKey::X),
        platform_game_key(PlatformKey::Y) == Some(GameKey::Y),
        platform_game_key(PlatformKey::Z) == Some(GameKey::Z),
        platform_game_key(PlatformKey::Key0) == Some(GameKey::Key0),
        platform_game_key(PlatformKey::Key1) == Some(GameKey::Key1),
        platform_game_key(PlatformKey::Key2) == Some(GameKey::Key2),
        platform_game_key(PlatformKey::Key3) == Some(GameKey::Key3),
        platform_game_key(PlatformKey::Key4) == Some(GameKey::Key4),
        platform_game_key(PlatformKey::Key5) == Some(GameKey::Key5),
        platform_game_key(PlatformKey::Key6) == Some(GameKey::Key6),
        platform_game_key(PlatformKey::Key7) == Some(GameKey::Key7),
        platform_game_key(PlatformKey::Key8) == Some(GameKey::Key8),
        platform_game_key(PlatformKey::Key9) == Some(GameKey::Key9),
        platform_game_key(PlatformKey::F1) == Some(GameKey::F1),
        platform_game_key(PlatformKey::F2) == Some(GameKey::F2),
        platform_game_key(PlatformKey::F3) == Some(GameKey::F3),
        platform_game_key(PlatformKey::F4) == Some(GameKey::F4),
        platform_game_key(PlatformKey::F5) == Some(GameKey::F5),
        platform_game_key(PlatformKey::F6) == Some(GameKey::F6),
        platform_game_key(PlatformKey::F7) == Some(GameKey::F7),
        platform_game_key(PlatformKey::F8) == Some(GameKey::F8),
        platform_game_key(PlatformKey::F9) == Some(GameKey::F9),
        platform_game_key(PlatformKey::F10) == Some(GameKey::F10),
        platform_game_key(PlatformKey::F11) == Some(GameKey::F11),
        platform_game_key(PlatformKey::F12) == Some(GameKey::F12),
        platform_game_key(PlatformKey::Up) == Some(GameKey::Up),
        platform_game_key(PlatformKey::Down) == Some(GameKey::Down),
        platform_game_key(PlatformKey::Left) == Some(GameKey::Left),
        platform_game_key(PlatformKey::Right) == Some(GameKey::Right),
        platform_game_key(PlatformKey::LShift) == Some(GameKey::Shift),
        platform_game_key(PlatformKey::RShift) == Some(GameKey::Shift),
        platform_game_key(PlatformKey::LCtrl) == Some(GameKey::Control),
        platform_game_key(PlatformKey::RCtrl) == Some(GameKey::Control),
        platform_game_key(PlatformKey::LAlt) == Some(GameKey::Alt),
        platform_game_key(PlatformKey::RAlt) == Some(GameKey::Alt),
        platform_game_key(PlatformKey::Escape) == Some(GameKey::Escape),
        platform_game_key(PlatformKey::Enter) == Some(GameKey::Enter),
        platform_game_key(PlatformKey::Space) == Some(GameKey::Space),
        platform_game_key(PlatformKey::Backspace) == Some(GameKey::Backspace),
        platform_game_key(PlatformKey::Tab) == Some(GameKey::Tab),
        platform_game_key(PlatformKey::Delete) == Some(GameKey::Delete),
        platform_game_key(PlatformKey::Home) == Some(GameKey::Home),
        platform_game_key(PlatformKey::End) == Some(GameKey::End),
        platform_game_key(PlatformKey::PageUp) == Some(GameKey::PageUp),
        platform_game_key(PlatformKey::PageDown) == Some(GameKey::PageDown),
        platform_game_key(PlatformKey::Minus) == Some(GameKey::Minus),
        platform_game_key(PlatformKey::Equals) == Some(GameKey::Equals),
        platform_game_key(PlatformKey::BracketLeft) == Some(GameKey::BracketLeft),
        platform_game_key(PlatformKey::BracketRight) == Some(GameKey::BracketRight),
        platform_game_key(PlatformKey::Back) == None::<GameKey>,
        platform_game_key(PlatformKey::Menu) == None::<GameKey>,
        platform_game_key(k1) is Some && platform_game_key(k1) == platform_game_key(k2) ==> (k1 == k2
            || (platform_game_key(k1) == Some(GameKey::Shift) && platform_game_key(k2) == Some(GameKey::Shift))
            || (platform_game_key(k1) == Some(GameKey::Control) && platform_game_key(k2) == Some(GameKey::Control))
            || (platform_game_key(k1) == Some(GameKey::Alt) && platform_game_key(k2) == Some(GameKey::Alt))),
{
}

/// Game key of a platform key, if it has one.
pub fn map_platform_key(key: PlatformKey) -> (r: Option<GameKey>)
    ensures
        r == platform_game_key(key),
{
    match key {
        PlatformKey::A => Some(GameKey::A),
        PlatformKey::B => Some(GameKey::B),
        PlatformKey::C => Some(GameKey::C),
        PlatformKey::D => Some(GameKey::D),
        PlatformKey::E => Some(GameKey::E),
        PlatformKey::F => Some(GameKey::F),
        PlatformKey::G => Some(GameKey::G),
        PlatformKey::H => Some(GameKey::H),
        PlatformKey::I => Some(GameKey::I),
        PlatformKey::J => Some(GameKey::J),
        PlatformKey::K => Some(GameKey::K),
        PlatformKey::L => Some(GameKey::L),
        PlatformKey::M => Some(GameKey::M),
        PlatformKey::N => Some(GameKey::N),
        PlatformKey::O => Some(GameKey::O),
        PlatformKey::P => Some(GameKey::P),
        PlatformKey::Q => Some(GameKey::Q),
        PlatformKey::R => Some(GameKey::R),
        PlatformKey::S => Some(GameKey::S),
        PlatformKey::T => Some(GameKey::T),
        PlatformKey::U => Some(GameKey::U),
        PlatformKey::V => Some(GameKey::V),
        PlatformKey::W => Some(GameKey::W),
        PlatformKey::X => Some(GameKey::X),
        PlatformKey::Y => Some(GameKey::Y),
        PlatformKey::Z => Some(GameKey::Z),
        PlatformKey::Key0 => Some(GameKey::Key0),
        PlatformKey::Key1 => Some(GameKey::Key1),
        PlatformKey::Key2 => Some(GameKey::Key2),
        PlatformKey::Key3 => Some(GameKey::Key3),
        PlatformKey::Key4 => Some(GameKey::Key4),
        PlatformKey::Key5 => Some(GameKey::Key5),
        PlatformKey::Key6 => Some(GameKey::Key6),
        PlatformKey::Key7 => Some(GameKey::Key7),
        PlatformKey::Key8 => Some(GameKey::Key8),
        PlatformKey::Key9 => Some(GameKey::Key9),
        PlatformKey::F1 => Some(GameKey::F1),
        PlatformKey::F2 => Some(GameKey::F2),
        PlatformKey::F3 => Some(GameKey::F3),
        PlatformKey::F4 => Some(GameKey::F4),
        PlatformKey::F5 => Some(GameKey::F5),
        PlatformKey::F6 => Some(GameKey::F6),
        PlatformKey::F7 => Some(GameKey::F7),
        PlatformKey::F8 => Some(GameKey::F8),
        PlatformKey::F9 => Some(GameKey::F9),
        PlatformKey::F10 => Some(GameKey::F10),
        PlatformKey::F11 => Some(GameKey::F11),
        PlatformKey::F12 => Some(GameKey::F12),
        PlatformKey::Up => Some(GameKey::Up),
        PlatformKey::Down => Some(GameKey::Down),
        PlatformKey::Left => Some(GameKey::Left),
        PlatformKey::Right => Some(GameKey::Right),
        PlatformKey::LShift => Some(GameKey::Shift),
        PlatformKey::RShift => Some(GameKey::Shift),
        PlatformKey::LCtrl => Some(GameKey::Control),
        PlatformKey::RCtrl => Some(GameKey::Control),
        PlatformKey::LAlt => Some(GameKey::Alt),
        PlatformKey::RAlt => Some(GameKey::Alt),
        PlatformKey::Escape => Some(GameKey::Escape),
        PlatformKey::Enter => Some(GameKey::Enter),
        PlatformKey::Space => Some(GameKey::Space),
        PlatformKey::Backspace => Some(GameKey::Backspace),
        PlatformKey::Tab => Some(GameKey::Tab),
        PlatformKey::Delete => Some(GameKey::Delete),
        PlatformKey::Home => Some(GameKey::Home),
        PlatformKey::End => Some(GameKey::End),
        PlatformKey::PageUp => Some(GameKey::PageUp),
        PlatformKey::PageDown => Some(GameKey::PageDown),
        PlatformKey::Minus => Some(GameKey::Minus),
        PlatformKey::Equals => Some(GameKey::Equals),
        PlatformKey::BracketLeft => Some(GameKey::BracketLeft),
        PlatformKey::BracketRight => Some(GameKey::BracketRight),
        PlatformKey::Back => None,
        PlatformKey::Menu => None,
    }
}

/// Bit `b` of a key field is set.
pub open spec fn has_bit(bits: u128, b: u8) -> bool {
    bits & (1u128 << b) != 0
}

proof fn lemma_edges(now: u128, prev: u128, b: u8)
    by (bit_vector)
    requires
        b < 128,
    ensures
        ((now & !prev) & (1u128 << b) != 0) == ((now & (1u128 << b) != 0) && !(prev & (1u128 << b) != 0)),
        ((!now & prev) & (1u128 << b) != 0) == (!(now & (1u128 << b) != 0) && (prev & (1u128 << b) != 0)),
{
}

proof fn lemma_set_bit(bits: u128, b: u8, c: u8)
    by (bit_vector)
    requires
        b < 128,
        c < 128,
    ensures
        ((bits | (1u128 << b)) & (1u128 << c) != 0) == (c == b || bits & (1u128 << c) != 0),
{
}

/// Input of one frame.
#[derive(Clone, Copy, Debug, PartialEq, Eq, Structural)]
pub struct InputState {
    /// Keys held in this frame, one bit per `GameKey`.
    pub keys_down: u128,
    /// Keys that went down in this frame.
    pub keys_pressed: u128,
    /// Keys that went up in this frame.
    pub keys_released: u128,
    /// Mouse buttons held in this frame.
    pub mouse_left: bool,
    pub mouse_right: bool,
    pub mouse_middle: bool,
    /// Mouse buttons held in the previous frame.
    pub prev_mouse_left: bool,
    pub prev_mouse_right: bool,
    pub prev_mouse_middle: bool,
    /// The pointer is inside the window.
    pub mouse_inside: bool,
}

impl InputState {
    /// Held state of a mouse button in this frame.
    pub open spec fn button_down(self, button: MouseButton) -> bool {
        match button {
            MouseButton::Left => self.mouse_left,
            MouseButton::Right => self.mouse_right,
            MouseButton::Middle => self.mouse_middle,
        }
    }

    /// Held state of a mouse button in the previous frame.
    pub open spec fn button_was_down(self, button: MouseButton) -> bool {
        match button {
            MouseButton::Left => self.prev_mouse_left,
            MouseButton::Right => self.prev_mouse_right,
            MouseButton::Middle => self.prev_mouse_middle,
        }
    }

    /// No key or button held, pressed or released, pointer outside.
    pub fn new() -> (r: InputState)
        ensures
            r.keys_down == 0 && r.keys_pressed == 0 && r.keys_released == 0,
            !r.mouse_left && !r.mouse_right && !r.mouse_middle,
            !r.prev_mouse_left && !r.prev_mouse_right && !r.prev_mouse_middle,
            !r.mouse_inside,
    {
        InputState {
            keys_down: 0,
            keys_pressed: 0,
            keys_released: 0,
            mouse_left: false,
            mouse_right: false,
            mouse_middle: false,
            prev_mouse_left: false,
            prev_mouse_right: false,
            prev_mouse_middle: false,
            mouse_inside: false,
        }
    }

    /// Starts a new frame from the keys and buttons now held: this frame's
    /// buttons become the previous ones, and a key counts as pressed when it
    /// is held now and was not, released when it was held and is not.
    pub fn update(&mut self, keys_now: u128, left: bool, right: bool, middle: bool, inside: bool)
        ensures
            final(self).keys_down == keys_now,
            final(self).keys_pressed == keys_now & !old(self).keys_down,
            final(self).keys_released == !keys_now & old(self).keys_down,
            forall|b: u8| b < 128 ==> (#[trigger] has_bit(final(self).keys_pressed, b) <==> (has_bit(
                keys_now,
                b,
            ) && !has_bit(old(self).keys_down, b))),
            forall|b: u8| b < 128 ==> (#[trigger] has_bit(final(self).keys_released, b) <==> (!has_bit(
                keys_now,
                b,
            ) && has_bit(old(self).keys_down, b))),
            final(self).mouse_left == left,
            final(self).mouse_right == right,
            final(self).mouse_middle == middle,
            final(self).prev_mouse_left == old(self).mouse_left,
            final(self).prev_mouse_right == old(self).mouse_right,
            final(self).prev_mouse_middle == old(self).mouse_middle,
            final(self).mouse_inside == inside,
    {
        let prev_keys = self.keys_down;
        self.prev_mouse_left = self.mouse_left;
        self.prev_mouse_right = self.mouse_right;
        self.prev_mouse_middle = self.mouse_middle;
        self.mouse_inside = inside;
        self.mouse_left = left;
        self.mouse_right = right;
        self.mouse_middle = middle;
        self.keys_down = keys_now;
        self.keys_pressed = keys_now & !prev_keys;
        self.keys_released = !keys_now & prev_keys;
        proof {
            assert forall|b: u8| b < 128 implies (#[trigger] has_bit(self.keys_pressed, b) <==> (has_bit(
                keys_now,
                b,
            ) && !has_bit(prev_keys, b))) by {
                lemma_edges(keys_now, prev_keys, b);
            }
            assert forall|b: u8| b < 128 implies (#[trigger] has_bit(self.keys_released, b) <==> (!has_bit(
                keys_now,
                b,
            ) && has_bit(prev_keys, b))) by {
                lemma_edges(keys_now, prev_keys, b);
            }
        }
    }

    /// A platform key went down: its game key, if any, is marked held and
    /// pressed; every other bit stays as it was.
    pub fn press_platform_key(&mut self, key: PlatformKey)
        ensures
            platform_game_key(key) is None ==> *final(self) == *old(self),
            platform_game_key(key) matches Some(k) ==> {
                &&& final(self).keys_down == old(self).keys_down | (1u128 << key_bit(k))
                &&& final(self).keys_pressed == old(self).keys_pressed | (1u128 << key_bit(k))
                &&& final(self).keys_released == old(self).keys_released
                &&& forall|b: u8| b < 128 ==> (#[trigger] has_bit(final(self).keys_down, b) <==> (b == key_bit(k)
                    || has_bit(old(self).keys_down, b)))
                &&& final(self).mouse_left == old(self).mouse_left
                &&& final(self).mouse_right == old(self).mouse_right
                &&& final(self).mouse_middle == old(self).mouse_middle
                &&& final(self).prev_mouse_left == old(self).prev_mouse_left
                &&& final(self).prev_mouse_right == old(self).prev_mouse_right
                &&& final(self).prev_mouse_middle == old(self).prev_mouse_middle
                &&& final(self).mouse_inside == old(self).mouse_inside
            },
    {
        match map_platform_key(key) {
            Some(gk) => {
                let bit = gk.bit();
                let ghost before = self.keys_down;
                self.keys_pressed = self.keys_pressed | (1u128 << bit);
                self.keys_down = self.keys_down | (1u128 << bit);
                proof {
                    assert forall|b: u8| b < 128 implies (#[trigger] has_bit(self.keys_down, b) <==> (b == bit
                        || has_bit(before, b))) by {
                        lemma_set_bit(before, bit, b);
                    }
                }
            },
            None => {},
        }
    }

    /// A mouse button went down or up: the three buttons' states become the
    /// previous ones and `button` takes the new state.
    pub fn set_mouse_button(&mut self, button: MouseButton, down: bool)
        ensures
            final(self).prev_mouse_left == old(self).mouse_left,
            final(self).prev_mouse_right == old(self).mouse_right,
            final(self).prev_mouse_middle == old(self).mouse_middle,
            forall|b: MouseButton| #[trigger] final(self).button_down(b) == (if b == button {
                down
            } else {
                old(self).button_down(b)
            }),
            final(self).keys_down == old(self).keys_down,
            final(self).keys_pressed == old(self).keys_pressed,
            final(self).keys_released == old(self).keys_released,
            final(self).mouse_inside == old(self).mouse_inside,
    {
        self.prev_mouse_left = self.mouse_left;
        self.prev_mouse_right = self.mouse_right;
        self.prev_mouse_middle = self.mouse_middle;
        match button {
            MouseButton::Left => self.mouse_left = down,
            MouseButton::Right => self.mouse_right = down,
            MouseButton::Middle => self.mouse_middle = down,
        }
    }

    /// The key is held in this frame.
    pub fn is_key_down(&self, key: GameKey) -> (r: bool)
        ensures
            r == has_bit(self.keys_down, key_bit(key)),
    {
        (self.keys_down & (1u128 << key.bit())) != 0
    }

    /// The key went down in this frame.
    pub fn is_key_pressed(&self, key: GameKey) -> (r: bool)
        ensures
            r == has_bit(self.keys_pressed, key_bit(key)),
    {
        (self.keys_pressed & (1u128 << key.bit())) != 0
    }

    /// The key went up in this frame.
    pub fn is_key_released(&self, key: GameKey) -> (r: bool)
        ensures
            r == has_bit(self.keys_released, key_bit(key)),
    {
        (self.keys_released & (1u128 << key.bit())) != 0
    }

    /// The button is held in this frame.
    pub fn is_mouse_down(&self, button: MouseButton) -> (r: bool)
        ensures
            r == self.button_down(button),
    {
        match button {
            MouseButton::Left => self.mouse_left,
            MouseButton::Right => self.mouse_right,
            MouseButton::Middle => self.mouse_middle,
        }
    }

    /// The button went down in this frame.
    pub fn is_mouse_pressed(&self, button: MouseButton) -> (r: bool)
        ensures
            r == (self.button_down(button) && !self.button_was_down(button)),
    {
        match button {
            MouseButton::Left => self.mouse_left && !self.prev_mouse_left,
            MouseButton::Right => self.mouse_right && !self.prev_mouse_right,
            MouseButton::Middle => self.mouse_middle && !self.prev_mouse_middle,
        }
    }

    /// The button went up in this frame.
    pub fn is_mouse_released(&self, button: MouseButton) -> (r: bool)
        ensures
            r == (!self.button_down(button) && self.button_was_down(button)),
    {
        match button {
            MouseButton::Left => !self.mouse_left && self.prev_mouse_left,
            MouseButton::Right => !self.mouse_right && self.prev_mouse_right,
            MouseButton::Middle => !self.mouse_middle && self.prev_mouse_middle,
        }
    }
}

} // verus!
