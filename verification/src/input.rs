use vstd::prelude::*;
use vstd::string::StringExecFns;
use crate::text::str_eq;
use vstd::string::StrSliceExecFns;

verus! {

/// The state of a key or button over frames.
#[derive(Debug, Clone, Copy, PartialEq, Eq)]
pub enum ButtonState {
    /// Pressed during this frame.
    JustPressed,
    /// Held down since an earlier frame.
    Held,
    /// Released during this frame.
    JustReleased,
    /// Not pressed.
    Released,
}

impl ButtonState {
    /// Whether the button is down (just pressed or held).
    pub fn is_down(&self) -> (b: bool)
        ensures
            b == (*self is JustPressed || *self is Held),
    {
        match self {
            ButtonState::JustPressed | ButtonState::Held => true,
            _ => false,
        }
    }

    /// Whether the button was pressed during this frame.
    pub fn is_just_pressed(&self) -> (b: bool)
        ensures
            b == (*self is JustPressed),
    {
        match self {
            ButtonState::JustPressed => true,
            _ => false,
        }
    }

    /// Whether the button was released during this frame.
    pub fn is_just_released(&self) -> (b: bool)
        ensures
            b == (*self is JustReleased),
    {
        match self {
            ButtonState::JustReleased => true,
            _ => false,
        }
    }

    /// Whether the button is not pressed at all.
    pub fn is_released(&self) -> (b: bool)
        ensures
            b == (*self is Released),
    {
        match self {
            ButtonState::Released => true,
            _ => false,
        }
    }

    /// The state at the start of the next frame: a fresh press becomes held,
    /// a fresh release becomes released.
    pub fn next_frame(&self) -> (s: ButtonState)
        ensures
            s == frame_advanced(*self),
    {
        match self {
            ButtonState::JustPressed => ButtonState::Held,
            ButtonState::JustReleased => ButtonState::Released,
            ButtonState::Held => ButtonState::Held,
            ButtonState::Released => ButtonState::Released,
        }
    }

    /// A press event: a released button becomes just pressed (and a press is
    /// reported); any other state ignores the event.
    pub fn on_press(&self) -> (r: (ButtonState, bool))
        ensures
            *self is Released ==> r == (ButtonState::JustPressed, true),
            !(*self is Released) ==> r == (*self, false),
            r.0 == after_press(*self),
    {
        match self {
            ButtonState::Released => (ButtonState::JustPressed, true),
            other => (*other, false),
        }
    }

    /// A release event: a button that is down becomes just released; reports
    /// `(new state, release happened, click happened)`, a click being a press
    /// and release within one frame.
    pub fn on_release(&self) -> (r: (ButtonState, bool, bool))
        ensures
            *self is JustPressed ==> r == (ButtonState::JustReleased, true, true),
            *self is Held ==> r == (ButtonState::JustReleased, true, false),
            !(*self is JustPressed || *self is Held) ==> r == (*self, false, false),
            r.0 == after_release(*self),
    {
        match self {
            ButtonState::JustPressed => (ButtonState::JustReleased, true, true),
            ButtonState::Held => (ButtonState::JustReleased, true, false),
            other => (*other, false, false),
        }
    }
}

/// The state at the start of the next frame.
pub open spec fn frame_advanced(s: ButtonState) -> ButtonState {
    match s {
        ButtonState::JustPressed => ButtonState::Held,
        ButtonState::JustReleased => ButtonState::Released,
        other => other,
    }
}

/// The state after a press event.
pub open spec fn after_press(s: ButtonState) -> ButtonState {
    if s is Released {
        ButtonState::JustPressed
    } else {
        s
    }
}

/// The state after a release event.
pub open spec fn after_release(s: ButtonState) -> ButtonState {
    if s is JustPressed || s is Held {
        ButtonState::JustReleased
    } else {
        s
    }
}

/// Whether a button in state `s` counts as down.
pub open spec fn is_down_state(s: ButtonState) -> bool {
    s is JustPressed || s is Held
}

/// Frames only settle a state: a second frame changes nothing more, and a
/// button stays down or up across a frame.
pub proof fn lemma_frame_settles(s: ButtonState)
    ensures
        frame_advanced(frame_advanced(s)) == frame_advanced(s),
        is_down_state(frame_advanced(s)) == is_down_state(s),
{
}

/// A released button that is pressed is down, stays down (held) over the
/// next frame, and after a release and another frame is released again;
/// pressing and releasing within one frame leaves it just released.
pub proof fn lemma_press_release_cycle(s: ButtonState)
    requires
        s is Released,
    ensures
        after_press(s) is JustPressed,
        frame_advanced(after_press(s)) is Held,
        after_release(frame_advanced(after_press(s))) is JustReleased,
        frame_advanced(after_release(frame_advanced(after_press(s)))) is Released,
        after_release(after_press(s)) is JustReleased,
        after_press(after_press(s)) == after_press(s),
{
}

/// Keyboard keys.
#[derive(Debug, PartialEq, Eq, Hash)]
pub enum Key {
    A,
    B,
    C,
    D,
    E,
    F,
    G,
    H,
    I,
    J,
    K,
    L,
    M,
    N,
    O,
    P,
    Q,
    R,
    S,
    T,
    U,
    V,
    W,
    X,
    Y,
    Z,
    Key0,
    Key1,
    Key2,
    Key3,
    Key4,
    Key5,
    Key6,
    Key7,
    Key8,
    Key9,
    ArrowUp,
    ArrowDown,
    ArrowLeft,
    ArrowRight,
    F1,
    F2,
    F3,
    F4,
    F5,
    F6,
    F7,
    F8,
    F9,
    F10,
    F11,
    F12,
    Space,
    Enter,
    Escape,
    Tab,
    Shift,
    Control,
    Alt,
    Backspace,
    Delete,
    /// A key with no name of its own.
    Unknown(String),
}

/// The number of a key: its place in the list of named keys, or 255 for a
/// key with no name of its own.
pub open spec fn key_code(key: Key) -> u8 {
    match key {
        Key::A => 0,
        Key::B => 1,
        Key::C => 2,
        Key::D => 3,
        Key::E => 4,
        Key::F => 5,
        Key::G => 6,
        Key::H => 7,
        Key::I => 8,
        Key::J => 9,
        Key::K => 10,
        Key::L => 11,
        Key::M => 12,
        Key::N => 13,
        Key::O => 14,
        Key::P => 15,
        Key::Q => 16,
        Key::R => 17,
        Key::S => 18,
        Key::T => 19,
        Key::U => 20,
        Key::V => 21,
        Key::W => 22,
        Key::X => 23,
        Key::Y => 24,
        Key::Z => 25,
        Key::Key0 => 26,
        Key::Key1 => 27,
        Key::Key2 => 28,
        Key::Key3 => 29,
        Key::Key4 => 30,
        Key::Key5 => 31,
        Key::Key6 => 32,
        Key::Key7 => 33,
        Key::Key8 => 34,
        Key::Key9 => 35,
        Key::ArrowUp => 36,
        Key::ArrowDown => 37,
        Key::ArrowLeft => 38,
        Key::ArrowRight => 39,
        Key::F1 => 40,
        Key::F2 => 41,
        Key::F3 => 42,
        Key::F4 => 43,
        Key::F5 => 44,
        Key::F6 => 45,
        Key::F7 => 46,
        Key::F8 => 47,
        Key::F9 => 48,
        Key::F10 => 49,
        Key::F11 => 50,
        Key::F12 => 51,
        Key::Space => 52,
        Key::Enter => 53,
        Key::Escape => 54,
        Key::Tab => 55,
        Key::Shift => 56,
        Key::Control => 57,
        Key::Alt => 58,
        Key::Backspace => 59,
        Key::Delete => 60,
        Key::Unknown(_) => 255,
    }
}

impl Clone for Key {
    /// The same key.
    fn clone(&self) -> (k: Self)
        ensures
            k == *self,
    {
        match self {
            Key::A => Key::A,
            Key::B => Key::B,
            Key::C => Key::C,
            Key::D => Key::D,
            Key::E => Key::E,
            Key::F => Key::F,
            Key::G => Key::G,
            Key::H => Key::H,
            Key::I => Key::I,
            Key::J => Key::J,
            Key::K => Key::K,
            Key::L => Key::L,
            Key::M => Key::M,
            Key::N => Key::N,
            Key::O => Key::O,
            Key::P => Key::P,
            Key::Q => Key::Q,
            Key::R => Key::R,
            Key::S => Key::S,
            Key::T => Key::T,
            Key::U => Key::U,
            Key::V => Key::V,
            Key::W => Key::W,
            Key::X => Key::X,
            Key::Y => Key::Y,
            Key::Z => Key::Z,
            Key::Key0 => Key::Key0,
            Key::Key1 => Key::Key1,
            Key::Key2 => Key::Key2,
            Key::Key3 => Key::Key3,
            Key::Key4 => Key::Key4,
            Key::Key5 => Key::Key5,
            Key::Key6 => Key::Key6,
            Key::Key7 => Key::Key7,
            Key::Key8 => Key::Key8,
            Key::Key9 => Key::Key9,
            Key::ArrowUp => Key::ArrowUp,
            Key::ArrowDown => Key::ArrowDown,
            Key::ArrowLeft => Key::ArrowLeft,
            Key::ArrowRight => Key::ArrowRight,
            Key::F1 => Key::F1,
            Key::F2 => Key::F2,
            Key::F3 => Key::F3,
            Key::F4 => Key::F4,
            Key::F5 => Key::F5,
            Key::F6 => Key::F6,
            Key::F7 => Key::F7,
            Key::F8 => Key::F8,
            Key::F9 => Key::F9,
            Key::F10 => Key::F10,
            Key::F11 => Key::F11,
            Key::F12 => Key::F12,
            Key::Space => Key::Space,
            Key::Enter => Key::Enter,
            Key::Escape => Key::Escape,
            Key::Tab => Key::Tab,
            Key::Shift => Key::Shift,
            Key::Control => Key::Control,
            Key::Alt => Key::Alt,
            Key::Backspace => Key::Backspace,
            Key::Delete => Key::Delete,
            Key::Unknown(name) => Key::Unknown(name.clone()),
        }
    }
}

/// Whether two keys are the same key: equal named keys, or two keys without
/// a name of their own that carry the same text.
pub open spec fn same_key(a: Key, b: Key) -> bool {
    match (a, b) {
        (Key::Unknown(x), Key::Unknown(y)) => x@ == y@,
        _ => a == b,
    }
}

/// Keys with the same number below 255 are the same key.
pub proof fn lemma_key_code_identifies(a: Key, b: Key)
    requires
        key_code(a) == key_code(b),
        key_code(a) != 255,
    ensures
        a == b,
{
}

impl Key {
    /// The number of the key.
    pub fn code(&self) -> (c: u8)
        ensures
            c == key_code(*self),
    {
        match self {
            Key::A => 0,
            Key::B => 1,
            Key::C => 2,
            Key::D => 3,
            Key::E => 4,
            Key::F => 5,
            Key::G => 6,
            Key::H => 7,
            Key::I => 8,
            Key::J => 9,
            Key::K => 10,
            Key::L => 11,
            Key::M => 12,
            Key::N => 13,
            Key::O => 14,
            Key::P => 15,
            Key::Q => 16,
            Key::R => 17,
            Key::S => 18,
            Key::T => 19,
            Key::U => 20,
            Key::V => 21,
            Key::W => 22,
            Key::X => 23,
            Key::Y => 24,
            Key::Z => 25,
            Key::Key0 => 26,
            Key::Key1 => 27,
            Key::Key2 => 28,
            Key::Key3 => 29,
            Key::Key4 => 30,
            Key::Key5 => 31,
            Key::Key6 => 32,
            Key::Key7 => 33,
            Key::Key8 => 34,
            Key::Key9 => 35,
            Key::ArrowUp => 36,
            Key::ArrowDown => 37,
            Key::ArrowLeft => 38,
            Key::ArrowRight => 39,
            Key::F1 => 40,
            Key::F2 => 41,
            Key::F3 => 42,
            Key::F4 => 43,
            Key::F5 => 44,
            Key::F6 => 45,
            Key::F7 => 46,
            Key::F8 => 47,
            Key::F9 => 48,
            Key::F10 => 49,
            Key::F11 => 50,
            Key::F12 => 51,
            Key::Space => 52,
            Key::Enter => 53,
            Key::Escape => 54,
            Key::Tab => 55,
            Key::Shift => 56,
            Key::Control => 57,
            Key::Alt => 58,
            Key::Backspace => 59,
            Key::Delete => 60,
            Key::Unknown(_) => 255,
        }
    }

    /// Whether two keys are the same key: the same named key, or two keys
    /// without a name of their own that carry the same text.
    pub fn same_as(&self, other: &Key) -> (b: bool)
        ensures
            b == same_key(*self, *other),
    {
        match (self, other) {
            (Key::Unknown(a), Key::Unknown(b)) => str_eq(a.as_str(), b.as_str()),
            _ => {
                let c = self.code();
                let d = other.code();
                proof {
                    if c == d && c != 255 {
                        lemma_key_code_identifies(*self, *other);
                    }
                }
                c == d
            },
        }
    }
}

/// Mouse buttons.
#[derive(Debug, Clone, Copy, PartialEq, Eq, Hash, Structural)]
pub enum MouseButton {
    Left,
    Right,
    Middle,
    Other(u8),
}

/// Gamepad buttons.
#[derive(Debug, Clone, PartialEq, Eq, Hash)]
pub enum GamepadButton {
    A,
    B,
    X,
    Y,
    DPadUp,
    DPadDown,
    DPadLeft,
    DPadRight,
    LeftShoulder,
    RightShoulder,
    LeftTrigger,
    RightTrigger,
    Start,
    Select,
    LeftStick,
    RightStick,
    Other(String),
}

/// Gamepad analog sticks.
#[derive(Debug, Clone, Copy, PartialEq, Eq, Hash)]
pub enum GamepadStick {
    LeftStick,
    RightStick,
}

/// The outcome of an input operation.
#[derive(Debug, Clone)]
pub enum InputResult {
    Success,
    Error(String),
}

/// The key a lower-case name stands for, if any.
pub open spec fn key_named(name: Seq<char>) -> Option<Key> {
    if name == "a"@ {
        Some(Key::A)
    } else if name == "b"@ {
        Some(Key::B)
    } else if name == "c"@ {
        Some(Key::C)
    } else if name == "d"@ {
        Some(Key::D)
    } else if name == "e"@ {
        Some(Key::E)
    } else if name == "f"@ {
        Some(Key::F)
    } else if name == "g"@ {
        Some(Key::G)
    } else if name == "h"@ {
        Some(Key::H)
    } else if name == "i"@ {
        Some(Key::I)
    } else if name == "j"@ {
        Some(Key::J)
    } else if name == "k"@ {
        Some(Key::K)
    } else if name == "l"@ {
        Some(Key::L)
    } else if name == "m"@ {
        Some(Key::M)
    } else if name == "n"@ {
        Some(Key::N)
    } else if name == "o"@ {
        Some(Key::O)
    } else if name == "p"@ {
        Some(Key::P)
    } else if name == "q"@ {
        Some(Key::Q)
    } else if name == "r"@ {
        Some(Key::R)
    } else if name == "s"@ {
        Some(Key::S)
    } else if name == "t"@ {
        Some(Key::T)
    } else if name == "u"@ {
        Some(Key::U)
    } else if name == "v"@ {
        Some(Key::V)
    } else if name == "w"@ {
        Some(Key::W)
    } else if name == "x"@ {
        Some(Key::X)
    } else if name == "y"@ {
        Some(Key::Y)
    } else if name == "z"@ {
        Some(Key::Z)
    } else if name == "0"@ {
        Some(Key::Key0)
    } else if name == "1"@ {
        Some(Key::Key1)
    } else if name == "2"@ {
        Some(Key::Key2)
    } else if name == "3"@ {
        Some(Key::Key3)
    } else if name == "4"@ {
        Some(Key::Key4)
    } else if name == "5"@ {
        Some(Key::Key5)
    } else if name == "6"@ {
        Some(Key::Key6)
    } else if name == "7"@ {
        Some(Key::Key7)
    } else if name == "8"@ {
        Some(Key::Key8)
    } else if name == "9"@ {
        Some(Key::Key9)
    } else if name == "arrowup"@ {
        Some(Key::ArrowUp)
    } else if name == "up"@ {
        Some(Key::ArrowUp)
    } else if name == "arrowdown"@ {
        Some(Key::ArrowDown)
    } else if name == "down"@ {
        Some(Key::ArrowDown)
    } else if name == "arrowleft"@ {
        Some(Key::ArrowLeft)
    } else if name == "left"@ {
        Some(Key::ArrowLeft)
    } else if name == "arrowright"@ {
        Some(Key::ArrowRight)
    } else if name == "right"@ {
        Some(Key::ArrowRight)
    } else if name == "f1"@ {
        Some(Key::F1)
    } else if name == "f2"@ {
        Some(Key::F2)
    } else if name == "f3"@ {
        Some(Key::F3)
    } else if name == "f4"@ {
        Some(Key::F4)
    } else if name == "f5"@ {
        Some(Key::F5)
    } else if name == "f6"@ {
        Some(Key::F6)
    } else if name == "f7"@ {
        Some(Key::F7)
    } else if name == "f8"@ {
        Some(Key::F8)
    } else if name == "f9"@ {
        Some(Key::F9)
    } else if name == "f10"@ {
        Some(Key::F10)
    } else if name == "f11"@ {
        Some(Key::F11)
    } else if name == "f12"@ {
        Some(Key::F12)
    } else if name == "space"@ {
        Some(Key::Space)
    } else if name == "enter"@ {
        Some(Key::Enter)
    } else if name == "escape"@ {
        Some(Key::Escape)
    } else if name == "esc"@ {
        Some(Key::Escape)
    } else if name == "tab"@ {
        Some(Key::Tab)
    } else if name == "shift"@ {
        Some(Key::Shift)
    } else if name == "control"@ {
        Some(Key::Control)
    } else if name == "ctrl"@ {
        Some(Key::Control)
    } else if name == "alt"@ {
        Some(Key::Alt)
    } else if name == "backspace"@ {
        Some(Key::Backspace)
    } else if name == "delete"@ {
        Some(Key::Delete)
    } else if name == "del"@ {
        Some(Key::Delete)
    } else {
        None
    }
}

/// The printed name of a key.
pub open spec fn key_display_name(key: Key) -> Seq<char> {
    match key {
        Key::A => "A"@,
        Key::B => "B"@,
        Key::C => "C"@,
        Key::D => "D"@,
        Key::E => "E"@,
        Key::F => "F"@,
        Key::G => "G"@,
        Key::H => "H"@,
        Key::I => "I"@,
        Key::J => "J"@,
        Key::K => "K"@,
        Key::L => "L"@,
        Key::M => "M"@,
        Key::N => "N"@,
        Key::O => "O"@,
        Key::P => "P"@,
        Key::Q => "Q"@,
        Key::R => "R"@,
        Key::S => "S"@,
        Key::T => "T"@,
        Key::U => "U"@,
        Key::V => "V"@,
        Key::W => "W"@,
        Key::X => "X"@,
        Key::Y => "Y"@,
        Key::Z => "Z"@,
        Key::Key0 => "0"@,
        Key::Key1 => "1"@,
        Key::Key2 => "2"@,
        Key::Key3 => "3"@,
        Key::Key4 => "4"@,
        Key::Key5 => "5"@,
        Key::Key6 => "6"@,
        Key::Key7 => "7"@,
        Key::Key8 => "8"@,
        Key::Key9 => "9"@,
        Key::ArrowUp => "ArrowUp"@,
        Key::ArrowDown => "ArrowDown"@,
        Key::ArrowLeft => "ArrowLeft"@,
        Key::ArrowRight => "ArrowRight"@,
        Key::F1 => "F1"@,
        Key::F2 => "F2"@,
        Key::F3 => "F3"@,
        Key::F4 => "F4"@,
        Key::F5 => "F5"@,
        Key::F6 => "F6"@,
        Key::F7 => "F7"@,
        Key::F8 => "F8"@,
        Key::F9 => "F9"@,
        Key::F10 => "F10"@,
        Key::F11 => "F11"@,
        Key::F12 => "F12"@,
        Key::Space => "Space"@,
        Key::Enter => "Enter"@,
        Key::Escape => "Escape"@,
        Key::Tab => "Tab"@,
        Key::Shift => "Shift"@,
        Key::Control => "Control"@,
        Key::Alt => "Alt"@,
        Key::Backspace => "Backspace"@,
        Key::Delete => "Delete"@,
        Key::Unknown(s) => s@,
    }
}

/// The lower-case form that `str::to_lowercase` gives (Unicode lowercase
/// mapping).
pub uninterp spec fn lowercase(s: Seq<char>) -> Seq<char>;

/// ASCII lower-casing, character by character.
pub open spec fn ascii_lowercase(s: Seq<char>) -> Seq<char> {
    s.map_values(|c: char| if 'A' <= c && c <= 'Z' { ((c as int) + 32) as char } else { c })
}

/// Every name that names a key is that key's printed name lower-cased, or
/// one of the short forms `up`, `down`, `left`, `right` (of the arrow keys),
/// `esc`, `ctrl` and `del`, each standing for the key whose full name it
/// shortens.
pub proof fn lemma_key_names_denote_their_key(name: Seq<char>)
    ensures
        key_named(name) matches Some(k) ==> {
            let full = ascii_lowercase(key_display_name(k));
            ||| name == full
            ||| (name == "up"@ && full == "arrowup"@)
            ||| (name == "down"@ && full == "arrowdown"@)
            ||| (name == "left"@ && full == "arrowleft"@)
            ||| (name == "right"@ && full == "arrowright"@)
            ||| (name == "esc"@ && full == "escape"@)
            ||| (name == "ctrl"@ && full == "control"@)
            ||| (name == "del"@ && full == "delete"@)
        },
        key_named("up"@) == Some(Key::ArrowUp),
        key_named("up"@) == key_named("arrowup"@),
        key_named("down"@) == Some(Key::ArrowDown),
        key_named("down"@) == key_named("arrowdown"@),
        key_named("left"@) == Some(Key::ArrowLeft),
        key_named("left"@) == key_named("arrowleft"@),
        key_named("right"@) == Some(Key::ArrowRight),
        key_named("right"@) == key_named("arrowright"@),
        key_named("esc"@) == Some(Key::Escape),
        key_named("esc"@) == key_named("escape"@),
        key_named("ctrl"@) == Some(Key::Control),
        key_named("ctrl"@) == key_named("control"@),
        key_named("del"@) == Some(Key::Delete),
        key_named("del"@) == key_named("delete"@),
{
    reveal_strlit("a");
    reveal_strlit("b");
    reveal_strlit("c");
    reveal_strlit("d");
    reveal_strlit("e");
    reveal_strlit("f");
    reveal_strlit("g");
    reveal_strlit("h");
    reveal_strlit("i");
    reveal_strlit("j");
    reveal_strlit("k");
    reveal_strlit("l");
    reveal_strlit("m");
    reveal_strlit("n");
    reveal_strlit("o");
    reveal_strlit("p");
    reveal_strlit("q");
    reveal_strlit("r");
    reveal_strlit("s");
    reveal_strlit("t");
    reveal_strlit("u");
    reveal_strlit("v");
    reveal_strlit("w");
    reveal_strlit("x");
    reveal_strlit("y");
    reveal_strlit("z");
    reveal_strlit("0");
    reveal_strlit("1");
    reveal_strlit("2");
    reveal_strlit("3");
    reveal_strlit("4");
    reveal_strlit("5");
    reveal_strlit("6");
    reveal_strlit("7");
    reveal_strlit("8");
    reveal_strlit("9");
    reveal_strlit("arrowup");
    reveal_strlit("up");
    reveal_strlit("arrowdown");
    reveal_strlit("down");
    reveal_strlit("arrowleft");
    reveal_strlit("left");
    reveal_strlit("arrowright");
    reveal_strlit("right");
    reveal_strlit("f1");
    reveal_strlit("f2");
    reveal_strlit("f3");
    reveal_strlit("f4");
    reveal_strlit("f5");
    reveal_strlit("f6");
    reveal_strlit("f7");
    reveal_strlit("f8");
    reveal_strlit("f9");
    reveal_strlit("f10");
    reveal_strlit("f11");
    reveal_strlit("f12");
    reveal_strlit("space");
    reveal_strlit("enter");
    reveal_strlit("escape");
    reveal_strlit("esc");
    reveal_strlit("tab");
    reveal_strlit("shift");
    reveal_strlit("control");
    reveal_strlit("ctrl");
    reveal_strlit("alt");
    reveal_strlit("backspace");
    reveal_strlit("delete");
    reveal_strlit("del");
    assert("a"@[0] == 'a');
    assert("b"@[0] == 'b');
    assert("c"@[0] == 'c');
    assert("d"@[0] == 'd');
    assert("e"@[0] == 'e');
    assert("f"@[0] == 'f');
    assert("g"@[0] == 'g');
    assert("h"@[0] == 'h');
    assert("i"@[0] == 'i');
    assert("j"@[0] == 'j');
    assert("k"@[0] == 'k');
    assert("l"@[0] == 'l');
    assert("m"@[0] == 'm');
    assert("n"@[0] == 'n');
    assert("o"@[0] == 'o');
    assert("p"@[0] == 'p');
    assert("q"@[0] == 'q');
    assert("r"@[0] == 'r');
    assert("s"@[0] == 's');
    assert("t"@[0] == 't');
    assert("u"@[0] == 'u');
    assert("v"@[0] == 'v');
    assert("w"@[0] == 'w');
    assert("x"@[0] == 'x');
    assert("y"@[0] == 'y');
    assert("z"@[0] == 'z');
    assert("0"@[0] == '0');
    assert("1"@[0] == '1');
    assert("2"@[0] == '2');
    assert("3"@[0] == '3');
    assert("4"@[0] == '4');
    assert("5"@[0] == '5');
    assert("6"@[0] == '6');
    assert("7"@[0] == '7');
    assert("8"@[0] == '8');
    assert("9"@[0] == '9');
    assert("arrowup"@[0] == 'a');
    assert("arrowup"@[1] == 'r');
    assert("arrowup"@[2] == 'r');
    assert("arrowup"@[3] == 'o');
    assert("arrowup"@[4] == 'w');
    assert("arrowup"@[5] == 'u');
    assert("arrowup"@[6] == 'p');
    assert("up"@[0] == 'u');
    assert("up"@[1] == 'p');
    assert("arrowdown"@[0] == 'a');
    assert("arrowdown"@[1] == 'r');
    assert("arrowdown"@[2] == 'r');
    assert("arrowdown"@[3] == 'o');
    assert("arrowdown"@[4] == 'w');
    assert("arrowdown"@[5] == 'd');
    assert("arrowdown"@[6] == 'o');
    assert("arrowdown"@[7] == 'w');
    assert("arrowdown"@[8] == 'n');
    assert("down"@[0] == 'd');
    assert("down"@[1] == 'o');
    assert("down"@[2] == 'w');
    assert("down"@[3] == 'n');
    assert("arrowleft"@[0] == 'a');
    assert("arrowleft"@[1] == 'r');
    assert("arrowleft"@[2] == 'r');
    assert("arrowleft"@[3] == 'o');
    assert("arrowleft"@[4] == 'w');
    assert("arrowleft"@[5] == 'l');
    assert("arrowleft"@[6] == 'e');
    assert("arrowleft"@[7] == 'f');
    assert("arrowleft"@[8] == 't');
    assert("left"@[0] == 'l');
    assert("left"@[1] == 'e');
    assert("left"@[2] == 'f');
    assert("left"@[3] == 't');
    assert("arrowright"@[0] == 'a');
    assert("arrowright"@[1] == 'r');
    assert("arrowright"@[2] == 'r');
    assert("arrowright"@[3] == 'o');
    assert("arrowright"@[4] == 'w');
    assert("arrowright"@[5] == 'r');
    assert("arrowright"@[6] == 'i');
    assert("arrowright"@[7] == 'g');
    assert("arrowright"@[8] == 'h');
    assert("arrowright"@[9] == 't');
    assert("right"@[0] == 'r');
    assert("right"@[1] == 'i');
    assert("right"@[2] == 'g');
    assert("right"@[3] == 'h');
    assert("right"@[4] == 't');
    assert("f1"@[0] == 'f');
    assert("f1"@[1] == '1');
    assert("f2"@[0] == 'f');
    assert("f2"@[1] == '2');
    assert("f3"@[0] == 'f');
    assert("f3"@[1] == '3');
    assert("f4"@[0] == 'f');
    assert("f4"@[1] == '4');
    assert("f5"@[0] == 'f');
    assert("f5"@[1] == '5');
    assert("f6"@[0] == 'f');
    assert("f6"@[1] == '6');
    assert("f7"@[0] == 'f');
    assert("f7"@[1] == '7');
    assert("f8"@[0] == 'f');
    assert("f8"@[1] == '8');
    assert("f9"@[0] == 'f');
    assert("f9"@[1] == '9');
    assert("f10"@[0] == 'f');
    assert("f10"@[1] == '1');
    assert("f10"@[2] == '0');
    assert("f11"@[0] == 'f');
    assert("f11"@[1] == '1');
    assert("f11"@[2] == '1');
    assert("f12"@[0] == 'f');
    assert("f12"@[1] == '1');
    assert("f12"@[2] == '2');
    assert("space"@[0] == 's');
    assert("space"@[1] == 'p');
    assert("space"@[2] == 'a');
    assert("space"@[3] == 'c');
    assert("space"@[4] == 'e');
    assert("enter"@[0] == 'e');
    assert("enter"@[1] == 'n');
    assert("enter"@[2] == 't');
    assert("enter"@[3] == 'e');
    assert("enter"@[4] == 'r');
    assert("escape"@[0] == 'e');
    assert("escape"@[1] == 's');
    assert("escape"@[2] == 'c');
    assert("escape"@[3] == 'a');
    assert("escape"@[4] == 'p');
    assert("escape"@[5] == 'e');
    assert("esc"@[0] == 'e');
    assert("esc"@[1] == 's');
    assert("esc"@[2] == 'c');
    assert("tab"@[0] == 't');
    assert("tab"@[1] == 'a');
    assert("tab"@[2] == 'b');
    assert("shift"@[0] == 's');
    assert("shift"@[1] == 'h');
    assert("shift"@[2] == 'i');
    assert("shift"@[3] == 'f');
    assert("shift"@[4] == 't');
    assert("control"@[0] == 'c');
    assert("control"@[1] == 'o');
    assert("control"@[2] == 'n');
    assert("control"@[3] == 't');
    assert("control"@[4] == 'r');
    assert("control"@[5] == 'o');
    assert("control"@[6] == 'l');
    assert("ctrl"@[0] == 'c');
    assert("ctrl"@[1] == 't');
    assert("ctrl"@[2] == 'r');
    assert("ctrl"@[3] == 'l');
    assert("alt"@[0] == 'a');
    assert("alt"@[1] == 'l');
    assert("alt"@[2] == 't');
    assert("backspace"@[0] == 'b');
    assert("backspace"@[1] == 'a');
    assert("backspace"@[2] == 'c');
    assert("backspace"@[3] == 'k');
    assert("backspace"@[4] == 's');
    assert("backspace"@[5] == 'p');
    assert("backspace"@[6] == 'a');
    assert("backspace"@[7] == 'c');
    assert("backspace"@[8] == 'e');
    assert("delete"@[0] == 'd');
    assert("delete"@[1] == 'e');
    assert("delete"@[2] == 'l');
    assert("delete"@[3] == 'e');
    assert("delete"@[4] == 't');
    assert("delete"@[5] == 'e');
    assert("del"@[0] == 'd');
    assert("del"@[1] == 'e');
    assert("del"@[2] == 'l');
    if key_named(name) is Some {
        let k = key_named(name)->0;
        match k {
            Key::A => {
                reveal_strlit("A");
                assert(ascii_lowercase("A"@) =~= "a"@);
            },
            Key::B => {
                reveal_strlit("B");
                assert(ascii_lowercase("B"@) =~= "b"@);
            },
            Key::C => {
                reveal_strlit("C");
                assert(ascii_lowercase("C"@) =~= "c"@);
            },
            Key::D => {
                reveal_strlit("D");
                assert(ascii_lowercase("D"@) =~= "d"@);
            },
            Key::E => {
                reveal_strlit("E");
                assert(ascii_lowercase("E"@) =~= "e"@);
            },
            Key::F => {
                reveal_strlit("F");
                assert(ascii_lowercase("F"@) =~= "f"@);
            },
            Key::G => {
                reveal_strlit("G");
                assert(ascii_lowercase("G"@) =~= "g"@);
            },
            Key::H => {
                reveal_strlit("H");
                assert(ascii_lowercase("H"@) =~= "h"@);
            },
            Key::I => {
                reveal_strlit("I");
                assert(ascii_lowercase("I"@) =~= "i"@);
            },
            Key::J => {
                reveal_strlit("J");
                assert(ascii_lowercase("J"@) =~= "j"@);
            },
            Key::K => {
                reveal_strlit("K");
                assert(ascii_lowercase("K"@) =~= "k"@);
            },
            Key::L => {
                reveal_strlit("L");
                assert(ascii_lowercase("L"@) =~= "l"@);
            },
            Key::M => {
                reveal_strlit("M");
                assert(ascii_lowercase("M"@) =~= "m"@);
            },
            Key::N => {
                reveal_strlit("N");
                assert(ascii_lowercase("N"@) =~= "n"@);
            },
            Key::O => {
                reveal_strlit("O");
                assert(ascii_lowercase("O"@) =~= "o"@);
            },
            Key::P => {
                reveal_strlit("P");
                assert(ascii_lowercase("P"@) =~= "p"@);
            },
            Key::Q => {
                reveal_strlit("Q");
                assert(ascii_lowercase("Q"@) =~= "q"@);
            },
            Key::R => {
                reveal_strlit("R");
                assert(ascii_lowercase("R"@) =~= "r"@);
            },
            Key::S => {
                reveal_strlit("S");
                assert(ascii_lowercase("S"@) =~= "s"@);
            },
            Key::T => {
                reveal_strlit("T");
                assert(ascii_lowercase("T"@) =~= "t"@);
            },
            Key::U => {
                reveal_strlit("U");
                assert(ascii_lowercase("U"@) =~= "u"@);
            },
            Key::V => {
                reveal_strlit("V");
                assert(ascii_lowercase("V"@) =~= "v"@);
            },
            Key::W => {
                reveal_strlit("W");
                assert(ascii_lowercase("W"@) =~= "w"@);
            },
            Key::X => {
                reveal_strlit("X");
                assert(ascii_lowercase("X"@) =~= "x"@);
            },
            Key::Y => {
                reveal_strlit("Y");
                assert(ascii_lowercase("Y"@) =~= "y"@);
            },
            Key::Z => {
                reveal_strlit("Z");
                assert(ascii_lowercase("Z"@) =~= "z"@);
            },
            Key::Key0 => {
                reveal_strlit("0");
                assert(ascii_lowercase("0"@) =~= "0"@);
            },
            Key::Key1 => {
                reveal_strlit("1");
                assert(ascii_lowercase("1"@) =~= "1"@);
            },
            Key::Key2 => {
                reveal_strlit("2");
                assert(ascii_lowercase("2"@) =~= "2"@);
            },
            Key::Key3 => {
                reveal_strlit("3");
                assert(ascii_lowercase("3"@) =~= "3"@);
            },
            Key::Key4 => {
                reveal_strlit("4");
                assert(ascii_lowercase("4"@) =~= "4"@);
            },
            Key::Key5 => {
                reveal_strlit("5");
                assert(ascii_lowercase("5"@) =~= "5"@);
            },
            Key::Key6 => {
                reveal_strlit("6");
                assert(ascii_lowercase("6"@) =~= "6"@);
            },
            Key::Key7 => {
                reveal_strlit("7");
                assert(ascii_lowercase("7"@) =~= "7"@);
            },
            Key::Key8 => {
                reveal_strlit("8");
                assert(ascii_lowercase("8"@) =~= "8"@);
            },
            Key::Key9 => {
                reveal_strlit("9");
                assert(ascii_lowercase("9"@) =~= "9"@);
            },
            Key::ArrowUp => {
                reveal_strlit("ArrowUp");
                assert(ascii_lowercase("ArrowUp"@) =~= "arrowup"@);
            },
            Key::ArrowDown => {
                reveal_strlit("ArrowDown");
                assert(ascii_lowercase("ArrowDown"@) =~= "arrowdown"@);
            },
            Key::ArrowLeft => {
                reveal_strlit("ArrowLeft");
                assert(ascii_lowercase("ArrowLeft"@) =~= "arrowleft"@);
            },
            Key::ArrowRight => {
                reveal_strlit("ArrowRight");
                assert(ascii_lowercase("ArrowRight"@) =~= "arrowright"@);
            },
            Key::F1 => {
                reveal_strlit("F1");
                assert(ascii_lowercase("F1"@) =~= "f1"@);
            },
            Key::F2 => {
                reveal_strlit("F2");
                assert(ascii_lowercase("F2"@) =~= "f2"@);
            },
            Key::F3 => {
                reveal_strlit("F3");
                assert(ascii_lowercase("F3"@) =~= "f3"@);
            },
            Key::F4 => {
                reveal_strlit("F4");
                assert(ascii_lowercase("F4"@) =~= "f4"@);
            },
            Key::F5 => {
                reveal_strlit("F5");
                assert(ascii_lowercase("F5"@) =~= "f5"@);
            },
            Key::F6 => {
                reveal_strlit("F6");
                assert(ascii_lowercase("F6"@) =~= "f6"@);
            },
            Key::F7 => {
                reveal_strlit("F7");
                assert(ascii_lowercase("F7"@) =~= "f7"@);
            },
            Key::F8 => {
                reveal_strlit("F8");
                assert(ascii_lowercase("F8"@) =~= "f8"@);
            },
            Key::F9 => {
                reveal_strlit("F9");
                assert(ascii_lowercase("F9"@) =~= "f9"@);
            },
            Key::F10 => {
                reveal_strlit("F10");
                assert(ascii_lowercase("F10"@) =~= "f10"@);
            },
            Key::F11 => {
                reveal_strlit("F11");
                assert(ascii_lowercase("F11"@) =~= "f11"@);
            },
            Key::F12 => {
                reveal_strlit("F12");
                assert(ascii_lowercase("F12"@) =~= "f12"@);
            },
            Key::Space => {
                reveal_strlit("Space");
                assert(ascii_lowercase("Space"@) =~= "space"@);
            },
            Key::Enter => {
                reveal_strlit("Enter");
                assert(ascii_lowercase("Enter"@) =~= "enter"@);
            },
            Key::Escape => {
                reveal_strlit("Escape");
                assert(ascii_lowercase("Escape"@) =~= "escape"@);
            },
            Key::Tab => {
                reveal_strlit("Tab");
                assert(ascii_lowercase("Tab"@) =~= "tab"@);
            },
            Key::Shift => {
                reveal_strlit("Shift");
                assert(ascii_lowercase("Shift"@) =~= "shift"@);
            },
            Key::Control => {
                reveal_strlit("Control");
                assert(ascii_lowercase("Control"@) =~= "control"@);
            },
            Key::Alt => {
                reveal_strlit("Alt");
                assert(ascii_lowercase("Alt"@) =~= "alt"@);
            },
            Key::Backspace => {
                reveal_strlit("Backspace");
                assert(ascii_lowercase("Backspace"@) =~= "backspace"@);
            },
            Key::Delete => {
                reveal_strlit("Delete");
                assert(ascii_lowercase("Delete"@) =~= "delete"@);
            },
            Key::Unknown(_) => {},
        }
    }
}

/// Every named key reads back from its printed name: the name is ASCII and,
/// lower-cased, names the same key.
pub proof fn lemma_key_name_round_trip(k: Key)
    requires
        !(k is Unknown),
    ensures
        vstd::utf8::is_ascii_chars(key_display_name(k)),
        key_named(ascii_lowercase(key_display_name(k))) == Some(k),
{
    reveal_strlit("a");
    reveal_strlit("b");
    reveal_strlit("c");
    reveal_strlit("d");
    reveal_strlit("e");
    reveal_strlit("f");
    reveal_strlit("g");
    reveal_strlit("h");
    reveal_strlit("i");
    reveal_strlit("j");
    reveal_strlit("k");
    reveal_strlit("l");
    reveal_strlit("m");
    reveal_strlit("n");
    reveal_strlit("o");
    reveal_strlit("p");
    reveal_strlit("q");
    reveal_strlit("r");
    reveal_strlit("s");
    reveal_strlit("t");
    reveal_strlit("u");
    reveal_strlit("v");
    reveal_strlit("w");
    reveal_strlit("x");
    reveal_strlit("y");
    reveal_strlit("z");
    reveal_strlit("0");
    reveal_strlit("1");
    reveal_strlit("2");
    reveal_strlit("3");
    reveal_strlit("4");
    reveal_strlit("5");
    reveal_strlit("6");
    reveal_strlit("7");
    reveal_strlit("8");
    reveal_strlit("9");
    reveal_strlit("arrowup");
    reveal_strlit("up");
    reveal_strlit("arrowdown");
    reveal_strlit("down");
    reveal_strlit("arrowleft");
    reveal_strlit("left");
    reveal_strlit("arrowright");
    reveal_strlit("right");
    reveal_strlit("f1");
    reveal_strlit("f2");
    reveal_strlit("f3");
    reveal_strlit("f4");
    reveal_strlit("f5");
    reveal_strlit("f6");
    reveal_strlit("f7");
    reveal_strlit("f8");
    reveal_strlit("f9");
    reveal_strlit("f10");
    reveal_strlit("f11");
    reveal_strlit("f12");
    reveal_strlit("space");
    reveal_strlit("enter");
    reveal_strlit("escape");
    reveal_strlit("esc");
    reveal_strlit("tab");
    reveal_strlit("shift");
    reveal_strlit("control");
    reveal_strlit("ctrl");
    reveal_strlit("alt");
    reveal_strlit("backspace");
    reveal_strlit("delete");
    reveal_strlit("del");
    assert("a"@[0] == 'a');
    assert("b"@[0] == 'b');
    assert("c"@[0] == 'c');
    assert("d"@[0] == 'd');
    assert("e"@[0] == 'e');
    assert("f"@[0] == 'f');
    assert("g"@[0] == 'g');
    assert("h"@[0] == 'h');
    assert("i"@[0] == 'i');
    assert("j"@[0] == 'j');
    assert("k"@[0] == 'k');
    assert("l"@[0] == 'l');
    assert("m"@[0] == 'm');
    assert("n"@[0] == 'n');
    assert("o"@[0] == 'o');
    assert("p"@[0] == 'p');
    assert("q"@[0] == 'q');
    assert("r"@[0] == 'r');
    assert("s"@[0] == 's');
    assert("t"@[0] == 't');
    assert("u"@[0] == 'u');
    assert("v"@[0] == 'v');
    assert("w"@[0] == 'w');
    assert("x"@[0] == 'x');
    assert("y"@[0] == 'y');
    assert("z"@[0] == 'z');
    assert("0"@[0] == '0');
    assert("1"@[0] == '1');
    assert("2"@[0] == '2');
    assert("3"@[0] == '3');
    assert("4"@[0] == '4');
    assert("5"@[0] == '5');
    assert("6"@[0] == '6');
    assert("7"@[0] == '7');
    assert("8"@[0] == '8');
    assert("9"@[0] == '9');
    assert("arrowup"@[0] == 'a');
    assert("arrowup"@[1] == 'r');
    assert("arrowup"@[2] == 'r');
    assert("arrowup"@[3] == 'o');
    assert("arrowup"@[4] == 'w');
    assert("arrowup"@[5] == 'u');
    assert("arrowup"@[6] == 'p');
    assert("up"@[0] == 'u');
    assert("up"@[1] == 'p');
    assert("arrowdown"@[0] == 'a');
    assert("arrowdown"@[1] == 'r');
    assert("arrowdown"@[2] == 'r');
    assert("arrowdown"@[3] == 'o');
    assert("arrowdown"@[4] == 'w');
    assert("arrowdown"@[5] == 'd');
    assert("arrowdown"@[6] == 'o');
    assert("arrowdown"@[7] == 'w');
    assert("arrowdown"@[8] == 'n');
    assert("down"@[0] == 'd');
    assert("down"@[1] == 'o');
    assert("down"@[2] == 'w');
    assert("down"@[3] == 'n');
    assert("arrowleft"@[0] == 'a');
    assert("arrowleft"@[1] == 'r');
    assert("arrowleft"@[2] == 'r');
    assert("arrowleft"@[3] == 'o');
    assert("arrowleft"@[4] == 'w');
    assert("arrowleft"@[5] == 'l');
    assert("arrowleft"@[6] == 'e');
    assert("arrowleft"@[7] == 'f');
    assert("arrowleft"@[8] == 't');
    assert("left"@[0] == 'l');
    assert("left"@[1] == 'e');
    assert("left"@[2] == 'f');
    assert("left"@[3] == 't');
    assert("arrowright"@[0] == 'a');
    assert("arrowright"@[1] == 'r');
    assert("arrowright"@[2] == 'r');
    assert("arrowright"@[3] == 'o');
    assert("arrowright"@[4] == 'w');
    assert("arrowright"@[5] == 'r');
    assert("arrowright"@[6] == 'i');
    assert("arrowright"@[7] == 'g');
    assert("arrowright"@[8] == 'h');
    assert("arrowright"@[9] == 't');
    assert("right"@[0] == 'r');
    assert("right"@[1] == 'i');
    assert("right"@[2] == 'g');
    assert("right"@[3] == 'h');
    assert("right"@[4] == 't');
    assert("f1"@[0] == 'f');
    assert("f1"@[1] == '1');
    assert("f2"@[0] == 'f');
    assert("f2"@[1] == '2');
    assert("f3"@[0] == 'f');
    assert("f3"@[1] == '3');
    assert("f4"@[0] == 'f');
    assert("f4"@[1] == '4');
    assert("f5"@[0] == 'f');
    assert("f5"@[1] == '5');
    assert("f6"@[0] == 'f');
    assert("f6"@[1] == '6');
    assert("f7"@[0] == 'f');
    assert("f7"@[1] == '7');
    assert("f8"@[0] == 'f');
    assert("f8"@[1] == '8');
    assert("f9"@[0] == 'f');
    assert("f9"@[1] == '9');
    assert("f10"@[0] == 'f');
    assert("f10"@[1] == '1');
    assert("f10"@[2] == '0');
    assert("f11"@[0] == 'f');
    assert("f11"@[1] == '1');
    assert("f11"@[2] == '1');
    assert("f12"@[0] == 'f');
    assert("f12"@[1] == '1');
    assert("f12"@[2] == '2');
    assert("space"@[0] == 's');
    assert("space"@[1] == 'p');
    assert("space"@[2] == 'a');
    assert("space"@[3] == 'c');
    assert("space"@[4] == 'e');
    assert("enter"@[0] == 'e');
    assert("enter"@[1] == 'n');
    assert("enter"@[2] == 't');
    assert("enter"@[3] == 'e');
    assert("enter"@[4] == 'r');
    assert("escape"@[0] == 'e');
    assert("escape"@[1] == 's');
    assert("escape"@[2] == 'c');
    assert("escape"@[3] == 'a');
    assert("escape"@[4] == 'p');
    assert("escape"@[5] == 'e');
    assert("esc"@[0] == 'e');
    assert("esc"@[1] == 's');
    assert("esc"@[2] == 'c');
    assert("tab"@[0] == 't');
    assert("tab"@[1] == 'a');
    assert("tab"@[2] == 'b');
    assert("shift"@[0] == 's');
    assert("shift"@[1] == 'h');
    assert("shift"@[2] == 'i');
    assert("shift"@[3] == 'f');
    assert("shift"@[4] == 't');
    assert("control"@[0] == 'c');
    assert("control"@[1] == 'o');
    assert("control"@[2] == 'n');
    assert("control"@[3] == 't');
    assert("control"@[4] == 'r');
    assert("control"@[5] == 'o');
    assert("control"@[6] == 'l');
    assert("ctrl"@[0] == 'c');
    assert("ctrl"@[1] == 't');
    assert("ctrl"@[2] == 'r');
    assert("ctrl"@[3] == 'l');
    assert("alt"@[0] == 'a');
    assert("alt"@[1] == 'l');
    assert("alt"@[2] == 't');
    assert("backspace"@[0] == 'b');
    assert("backspace"@[1] == 'a');
    assert("backspace"@[2] == 'c');
    assert("backspace"@[3] == 'k');
    assert("backspace"@[4] == 's');
    assert("backspace"@[5] == 'p');
    assert("backspace"@[6] == 'a');
    assert("backspace"@[7] == 'c');
    assert("backspace"@[8] == 'e');
    assert("delete"@[0] == 'd');
    assert("delete"@[1] == 'e');
    assert("delete"@[2] == 'l');
    assert("delete"@[3] == 'e');
    assert("delete"@[4] == 't');
    assert("delete"@[5] == 'e');
    assert("del"@[0] == 'd');
    assert("del"@[1] == 'e');
    assert("del"@[2] == 'l');
    match k {
        Key::A => {
            reveal_strlit("A");
            assert(ascii_lowercase("A"@) =~= "a"@);
        },
        Key::B => {
            reveal_strlit("B");
            assert(ascii_lowercase("B"@) =~= "b"@);
        },
        Key::C => {
            reveal_strlit("C");
            assert(ascii_lowercase("C"@) =~= "c"@);
        },
        Key::D => {
            reveal_strlit("D");
            assert(ascii_lowercase("D"@) =~= "d"@);
        },
        Key::E => {
            reveal_strlit("E");
            assert(ascii_lowercase("E"@) =~= "e"@);
        },
        Key::F => {
            reveal_strlit("F");
            assert(ascii_lowercase("F"@) =~= "f"@);
        },
        Key::G => {
            reveal_strlit("G");
            assert(ascii_lowercase("G"@) =~= "g"@);
        },
        Key::H => {
            reveal_strlit("H");
            assert(ascii_lowercase("H"@) =~= "h"@);
        },
        Key::I => {
            reveal_strlit("I");
            assert(ascii_lowercase("I"@) =~= "i"@);
        },
        Key::J => {
            reveal_strlit("J");
            assert(ascii_lowercase("J"@) =~= "j"@);
        },
        Key::K => {
            reveal_strlit("K");
            assert(ascii_lowercase("K"@) =~= "k"@);
        },
        Key::L => {
            reveal_strlit("L");
            assert(ascii_lowercase("L"@) =~= "l"@);
        },
        Key::M => {
            reveal_strlit("M");
            assert(ascii_lowercase("M"@) =~= "m"@);
        },
        Key::N => {
            reveal_strlit("N");
            assert(ascii_lowercase("N"@) =~= "n"@);
        },
        Key::O => {
            reveal_strlit("O");
            assert(ascii_lowercase("O"@) =~= "o"@);
        },
        Key::P => {
            reveal_strlit("P");
            assert(ascii_lowercase("P"@) =~= "p"@);
        },
        Key::Q => {
            reveal_strlit("Q");
            assert(ascii_lowercase("Q"@) =~= "q"@);
        },
        Key::R => {
            reveal_strlit("R");
            assert(ascii_lowercase("R"@) =~= "r"@);
        },
        Key::S => {
            reveal_strlit("S");
            assert(ascii_lowercase("S"@) =~= "s"@);
        },
        Key::T => {
            reveal_strlit("T");
            assert(ascii_lowercase("T"@) =~= "t"@);
        },
        Key::U => {
            reveal_strlit("U");
            assert(ascii_lowercase("U"@) =~= "u"@);
        },
        Key::V => {
            reveal_strlit("V");
            assert(ascii_lowercase("V"@) =~= "v"@);
        },
        Key::W => {
            reveal_strlit("W");
            assert(ascii_lowercase("W"@) =~= "w"@);
        },
        Key::X => {
            reveal_strlit("X");
            assert(ascii_lowercase("X"@) =~= "x"@);
        },
        Key::Y => {
            reveal_strlit("Y");
            assert(ascii_lowercase("Y"@) =~= "y"@);
        },
        Key::Z => {
            reveal_strlit("Z");
            assert(ascii_lowercase("Z"@) =~= "z"@);
        },
        Key::Key0 => {
            reveal_strlit("0");
            assert(ascii_lowercase("0"@) =~= "0"@);
        },
        Key::Key1 => {
            reveal_strlit("1");
            assert(ascii_lowercase("1"@) =~= "1"@);
        },
        Key::Key2 => {
            reveal_strlit("2");
            assert(ascii_lowercase("2"@) =~= "2"@);
        },
        Key::Key3 => {
            reveal_strlit("3");
            assert(ascii_lowercase("3"@) =~= "3"@);
        },
        Key::Key4 => {
            reveal_strlit("4");
            assert(ascii_lowercase("4"@) =~= "4"@);
        },
        Key::Key5 => {
            reveal_strlit("5");
            assert(ascii_lowercase("5"@) =~= "5"@);
        },
        Key::Key6 => {
            reveal_strlit("6");
            assert(ascii_lowercase("6"@) =~= "6"@);
        },
        Key::Key7 => {
            reveal_strlit("7");
            assert(ascii_lowercase("7"@) =~= "7"@);
        },
        Key::Key8 => {
            reveal_strlit("8");
            assert(ascii_lowercase("8"@) =~= "8"@);
        },
        Key::Key9 => {
            reveal_strlit("9");
            assert(ascii_lowercase("9"@) =~= "9"@);
        },
        Key::ArrowUp => {
            reveal_strlit("ArrowUp");
            assert(ascii_lowercase("ArrowUp"@) =~= "arrowup"@);
        },
        Key::ArrowDown => {
            reveal_strlit("ArrowDown");
            assert(ascii_lowercase("ArrowDown"@) =~= "arrowdown"@);
        },
        Key::ArrowLeft => {
            reveal_strlit("ArrowLeft");
            assert(ascii_lowercase("ArrowLeft"@) =~= "arrowleft"@);
        },
        Key::ArrowRight => {
            reveal_strlit("ArrowRight");
            assert(ascii_lowercase("ArrowRight"@) =~= "arrowright"@);
        },
        Key::F1 => {
            reveal_strlit("F1");
            assert(ascii_lowercase("F1"@) =~= "f1"@);
        },
        Key::F2 => {
            reveal_strlit("F2");
            assert(ascii_lowercase("F2"@) =~= "f2"@);
        },
        Key::F3 => {
            reveal_strlit("F3");
            assert(ascii_lowercase("F3"@) =~= "f3"@);
        },
        Key::F4 => {
            reveal_strlit("F4");
            assert(ascii_lowercase("F4"@) =~= "f4"@);
        },
        Key::F5 => {
            reveal_strlit("F5");
            assert(ascii_lowercase("F5"@) =~= "f5"@);
        },
        Key::F6 => {
            reveal_strlit("F6");
            assert(ascii_lowercase("F6"@) =~= "f6"@);
        },
        Key::F7 => {
            reveal_strlit("F7");
            assert(ascii_lowercase("F7"@) =~= "f7"@);
        },
        Key::F8 => {
            reveal_strlit("F8");
            assert(ascii_lowercase("F8"@) =~= "f8"@);
        },
        Key::F9 => {
            reveal_strlit("F9");
            assert(ascii_lowercase("F9"@) =~= "f9"@);
        },
        Key::F10 => {
            reveal_strlit("F10");
            assert(ascii_lowercase("F10"@) =~= "f10"@);
        },
        Key::F11 => {
            reveal_strlit("F11");
            assert(ascii_lowercase("F11"@) =~= "f11"@);
        },
        Key::F12 => {
            reveal_strlit("F12");
            assert(ascii_lowercase("F12"@) =~= "f12"@);
        },
        Key::Space => {
            reveal_strlit("Space");
            assert(ascii_lowercase("Space"@) =~= "space"@);
        },
        Key::Enter => {
            reveal_strlit("Enter");
            assert(ascii_lowercase("Enter"@) =~= "enter"@);
        },
        Key::Escape => {
            reveal_strlit("Escape");
            assert(ascii_lowercase("Escape"@) =~= "escape"@);
        },
        Key::Tab => {
            reveal_strlit("Tab");
            assert(ascii_lowercase("Tab"@) =~= "tab"@);
        },
        Key::Shift => {
            reveal_strlit("Shift");
            assert(ascii_lowercase("Shift"@) =~= "shift"@);
        },
        Key::Control => {
            reveal_strlit("Control");
            assert(ascii_lowercase("Control"@) =~= "control"@);
        },
        Key::Alt => {
            reveal_strlit("Alt");
            assert(ascii_lowercase("Alt"@) =~= "alt"@);
        },
        Key::Backspace => {
            reveal_strlit("Backspace");
            assert(ascii_lowercase("Backspace"@) =~= "backspace"@);
        },
        Key::Delete => {
            reveal_strlit("Delete");
            assert(ascii_lowercase("Delete"@) =~= "delete"@);
        },
        Key::Unknown(_) => {},
    }
}

/// `str::to_lowercase`: the Unicode lower-case form of `s`. For ASCII text,
/// as std documents for ASCII letters, each of `A`..`Z` becomes `a`..`z`
/// and every other character stays.
#[verifier::external_body]
fn to_lowercase(s: &str) -> (r: String)
    ensures
        r@ == lowercase(s@),
        vstd::utf8::is_ascii_chars(s@) ==> r@ == ascii_lowercase(s@),
{
    s.to_lowercase()
}

impl Key {
    /// The key named by an already lower-cased name; `given` is kept in
    /// `Key::Unknown` when the name is not known.
    pub fn from_lowercase_name(lower: &str, given: &str) -> (k: Key)
        ensures
            key_named(lower@) matches Some(known) ==> k == known,
            key_named(lower@) is None ==> (k matches Key::Unknown(u) && u@ == given@),
    {
        if str_eq(lower, "a") {
            return Key::A;
        }
        if str_eq(lower, "b") {
            return Key::B;
        }
        if str_eq(lower, "c") {
            return Key::C;
        }
        if str_eq(lower, "d") {
            return Key::D;
        }
        if str_eq(lower, "e") {
            return Key::E;
        }
        if str_eq(lower, "f") {
            return Key::F;
        }
        if str_eq(lower, "g") {
            return Key::G;
        }
        if str_eq(lower, "h") {
            return Key::H;
        }
        if str_eq(lower, "i") {
            return Key::I;
        }
        if str_eq(lower, "j") {
            return Key::J;
        }
        if str_eq(lower, "k") {
            return Key::K;
        }
        if str_eq(lower, "l") {
            return Key::L;
        }
        if str_eq(lower, "m") {
            return Key::M;
        }
        if str_eq(lower, "n") {
            return Key::N;
        }
        if str_eq(lower, "o") {
            return Key::O;
        }
        if str_eq(lower, "p") {
            return Key::P;
        }
        if str_eq(lower, "q") {
            return Key::Q;
        }
        if str_eq(lower, "r") {
            return Key::R;
        }
        if str_eq(lower, "s") {
            return Key::S;
        }
        if str_eq(lower, "t") {
            return Key::T;
        }
        if str_eq(lower, "u") {
            return Key::U;
        }
        if str_eq(lower, "v") {
            return Key::V;
        }
        if str_eq(lower, "w") {
            return Key::W;
        }
        if str_eq(lower, "x") {
            return Key::X;
        }
        if str_eq(lower, "y") {
            return Key::Y;
        }
        if str_eq(lower, "z") {
            return Key::Z;
        }
        if str_eq(lower, "0") {
            return Key::Key0;
        }
        if str_eq(lower, "1") {
            return Key::Key1;
        }
        if str_eq(lower, "2") {
            return Key::Key2;
        }
        if str_eq(lower, "3") {
            return Key::Key3;
        }
        if str_eq(lower, "4") {
            return Key::Key4;
        }
        if str_eq(lower, "5") {
            return Key::Key5;
        }
        if str_eq(lower, "6") {
            return Key::Key6;
        }
        if str_eq(lower, "7") {
            return Key::Key7;
        }
        if str_eq(lower, "8") {
            return Key::Key8;
        }
        if str_eq(lower, "9") {
            return Key::Key9;
        }
        if str_eq(lower, "arrowup") {
            return Key::ArrowUp;
        }
        if str_eq(lower, "up") {
            return Key::ArrowUp;
        }
        if str_eq(lower, "arrowdown") {
            return Key::ArrowDown;
        }
        if str_eq(lower, "down") {
            return Key::ArrowDown;
        }
        if str_eq(lower, "arrowleft") {
            return Key::ArrowLeft;
        }
        if str_eq(lower, "left") {
            return Key::ArrowLeft;
        }
        if str_eq(lower, "arrowright") {
            return Key::ArrowRight;
        }
        if str_eq(lower, "right") {
            return Key::ArrowRight;
        }
        if str_eq(lower, "f1") {
            return Key::F1;
        }
        if str_eq(lower, "f2") {
            return Key::F2;
        }
        if str_eq(lower, "f3") {
            return Key::F3;
        }
        if str_eq(lower, "f4") {
            return Key::F4;
        }
        if str_eq(lower, "f5") {
            return Key::F5;
        }
        if str_eq(lower, "f6") {
            return Key::F6;
        }
        if str_eq(lower, "f7") {
            return Key::F7;
        }
        if str_eq(lower, "f8") {
            return Key::F8;
        }
        if str_eq(lower, "f9") {
            return Key::F9;
        }
        if str_eq(lower, "f10") {
            return Key::F10;
        }
        if str_eq(lower, "f11") {
            return Key::F11;
        }
        if str_eq(lower, "f12") {
            return Key::F12;
        }
        if str_eq(lower, "space") {
            return Key::Space;
        }
        if str_eq(lower, "enter") {
            return Key::Enter;
        }
        if str_eq(lower, "escape") {
            return Key::Escape;
        }
        if str_eq(lower, "esc") {
            return Key::Escape;
        }
        if str_eq(lower, "tab") {
            return Key::Tab;
        }
        if str_eq(lower, "shift") {
            return Key::Shift;
        }
        if str_eq(lower, "control") {
            return Key::Control;
        }
        if str_eq(lower, "ctrl") {
            return Key::Control;
        }
        if str_eq(lower, "alt") {
            return Key::Alt;
        }
        if str_eq(lower, "backspace") {
            return Key::Backspace;
        }
        if str_eq(lower, "delete") {
            return Key::Delete;
        }
        if str_eq(lower, "del") {
            return Key::Delete;
        }
        Key::Unknown(String::from_str(given))
    }

    /// Parses a key name, ignoring case; unknown names give `Key::Unknown`
    /// holding the text as given.
    pub fn from_string(s: &str) -> (k: Key)
        ensures
            key_named(lowercase(s@)) matches Some(known) ==> k == known,
            key_named(lowercase(s@)) is None ==> (k matches Key::Unknown(u) && u@ == s@),
            vstd::utf8::is_ascii_chars(s@) ==> (key_named(ascii_lowercase(s@)) matches Some(known)
                ==> k == known),
            vstd::utf8::is_ascii_chars(s@) ==> (key_named(ascii_lowercase(s@)) is None ==> (
            k matches Key::Unknown(u) && u@ == s@)),
    {
        let lower = to_lowercase(s);
        Self::from_lowercase_name(lower.as_str(), s)
    }

    /// The printed name of the key.
    pub fn to_string(&self) -> (r: String)
        ensures
            r@ == key_display_name(*self),
    {
        match self {
            Key::A => String::from_str("A"),
            Key::B => String::from_str("B"),
            Key::C => String::from_str("C"),
            Key::D => String::from_str("D"),
            Key::E => String::from_str("E"),
            Key::F => String::from_str("F"),
            Key::G => String::from_str("G"),
            Key::H => String::from_str("H"),
            Key::I => String::from_str("I"),
            Key::J => String::from_str("J"),
            Key::K => String::from_str("K"),
            Key::L => String::from_str("L"),
            Key::M => String::from_str("M"),
            Key::N => String::from_str("N"),
            Key::O => String::from_str("O"),
            Key::P => String::from_str("P"),
            Key::Q => String::from_str("Q"),
            Key::R => String::from_str("R"),
            Key::S => String::from_str("S"),
            Key::T => String::from_str("T"),
            Key::U => String::from_str("U"),
            Key::V => String::from_str("V"),
            Key::W => String::from_str("W"),
            Key::X => String::from_str("X"),
            Key::Y => String::from_str("Y"),
            Key::Z => String::from_str("Z"),
            Key::Key0 => String::from_str("0"),
            Key::Key1 => String::from_str("1"),
            Key::Key2 => String::from_str("2"),
            Key::Key3 => String::from_str("3"),
            Key::Key4 => String::from_str("4"),
            Key::Key5 => String::from_str("5"),
            Key::Key6 => String::from_str("6"),
            Key::Key7 => String::from_str("7"),
            Key::Key8 => String::from_str("8"),
            Key::Key9 => String::from_str("9"),
            Key::ArrowUp => String::from_str("ArrowUp"),
            Key::ArrowDown => String::from_str("ArrowDown"),
            Key::ArrowLeft => String::from_str("ArrowLeft"),
            Key::ArrowRight => String::from_str("ArrowRight"),
            Key::F1 => String::from_str("F1"),
            Key::F2 => String::from_str("F2"),
            Key::F3 => String::from_str("F3"),
            Key::F4 => String::from_str("F4"),
            Key::F5 => String::from_str("F5"),
            Key::F6 => String::from_str("F6"),
            Key::F7 => String::from_str("F7"),
            Key::F8 => String::from_str("F8"),
            Key::F9 => String::from_str("F9"),
            Key::F10 => String::from_str("F10"),
            Key::F11 => String::from_str("F11"),
            Key::F12 => String::from_str("F12"),
            Key::Space => String::from_str("Space"),
            Key::Enter => String::from_str("Enter"),
            Key::Escape => String::from_str("Escape"),
            Key::Tab => String::from_str("Tab"),
            Key::Shift => String::from_str("Shift"),
            Key::Control => String::from_str("Control"),
            Key::Alt => String::from_str("Alt"),
            Key::Backspace => String::from_str("Backspace"),
            Key::Delete => String::from_str("Delete"),
            Key::Unknown(s) => s.clone(),
        }
    }
}

/// `c` is one of the ASCII digits.
pub open spec fn is_digit(c: char) -> bool {
    '0' <= c && c <= '9'
}

/// The number written by a string of decimal digits.
pub open spec fn digits_value(s: Seq<char>) -> int
    decreases s.len(),
{
    if s.len() == 0 {
        0
    } else {
        digits_value(s.drop_last()) * 10 + ((s.last() as int) - ('0' as int))
    }
}

/// The text after an optional leading `+`.
pub open spec fn unsigned_digits(s: Seq<char>) -> Seq<char> {
    if s.len() > 0 && s[0] == '+' {
        s.drop_first()
    } else {
        s
    }
}

/// Every character is a digit.
pub open spec fn all_digits(s: Seq<char>) -> bool {
    forall|i: int| 0 <= i < s.len() ==> is_digit(#[trigger] s[i])
}

/// What `str::parse::<u8>` accepts: an optional `+` followed by at least one
/// digit, the number being at most 255.
pub open spec fn parse_u8_spec(s: Seq<char>) -> Option<u8> {
    let digits = unsigned_digits(s);
    if digits.len() > 0 && all_digits(digits) && digits_value(digits) <= 255 {
        Some(digits_value(digits) as u8)
    } else {
        None
    }
}

proof fn lemma_digits_value_grows(s: Seq<char>, k: int)
    requires
        0 <= k <= s.len(),
        forall|i: int| 0 <= i < s.len() ==> is_digit(#[trigger] s[i]),
    ensures
        digits_value(s.subrange(0, k)) <= digits_value(s),
        0 <= digits_value(s.subrange(0, k)),
    decreases s.len() - k,
{
    if k < s.len() {
        lemma_digits_value_grows(s, k + 1);
        assert(s.subrange(0, k + 1).drop_last() =~= s.subrange(0, k));
        assert(is_digit(s[k]));
    } else {
        assert(s.subrange(0, k) =~= s);
        lemma_digits_nonnegative(s);
    }
}

proof fn lemma_digits_nonnegative(s: Seq<char>)
    requires
        forall|i: int| 0 <= i < s.len() ==> is_digit(#[trigger] s[i]),
    ensures
        0 <= digits_value(s),
    decreases s.len(),
{
    if s.len() > 0 {
        assert(is_digit(s[s.len() - 1]));
        lemma_digits_nonnegative(s.drop_last());
    }
}

/// Parses a decimal `u8` the way `str::parse::<u8>` does.
pub fn parse_u8(s: &str) -> (r: Option<u8>)
    ensures
        r == parse_u8_spec(s@),
{
    let n = s.unicode_len();
    let mut start: usize = 0;
    if n > 0 && s.get_char(0) == '+' {
        start = 1;
    }
    let ghost digits = unsigned_digits(s@);
    proof {
        assert(digits =~= s@.subrange(start as int, n as int));
    }
    if start >= n {
        return None;
    }
    let mut value: u32 = 0;
    let mut i: usize = start;
    while i < n
        invariant
            n == s@.len(),
            start <= i <= n,
            digits =~= s@.subrange(start as int, n as int),
            digits == unsigned_digits(s@),
            forall|j: int| start <= j < i ==> is_digit(#[trigger] s@[j]),
            value as int == digits_value(s@.subrange(start as int, i as int)),
            value <= 255,
        decreases n - i,
    {
        let c = s.get_char(i);
        if !('0' <= c && c <= '9') {
            proof {
                let k = (i - start) as int;
                assert(digits[k] == s@[i as int]);
                assert(!is_digit(digits[k]));
                assert(0 <= k < digits.len());
                assert(!(forall|j: int| 0 <= j < digits.len() ==> is_digit(#[trigger] digits[j])));
                assert(parse_u8_spec(s@) is None);
            }
            return None;
        }
        let d = (c as u32) - ('0' as u32);
        let next = value * 10 + d;
        proof {
            assert(s@.subrange(start as int, i + 1).drop_last() =~= s@.subrange(
                start as int,
                i as int,
            ));
            assert(next as int == digits_value(s@.subrange(start as int, i + 1)));
        }
        if next > 255 {
            proof {
                let prefix = s@.subrange(start as int, i + 1);
                let k = i + 1 - start;
                if forall|j: int| 0 <= j < digits.len() ==> is_digit(#[trigger] digits[j]) {
                    assert(digits.subrange(0, k as int) =~= prefix);
                    lemma_digits_value_grows(digits, k as int);
                    assert(digits_value(digits) > 255);
                }
                assert(parse_u8_spec(s@) is None);
            }
            return None;
        }
        value = next;
        i = i + 1;
    }
    proof {
        assert(s@.subrange(start as int, n as int) =~= digits);
    }
    Some(value as u8)
}

/// The mouse button a lower-case name stands for, if any.
pub open spec fn mouse_button_named(name: Seq<char>) -> Option<MouseButton> {
    if name == "left"@ || name == "0"@ {
        Some(MouseButton::Left)
    } else if name == "right"@ || name == "2"@ {
        Some(MouseButton::Right)
    } else if name == "middle"@ || name == "1"@ {
        Some(MouseButton::Middle)
    } else {
        None
    }
}

impl MouseButton {
    /// The button named by an already lower-cased name; otherwise the
    /// numbered button `given` denotes, or button 255 when it is no number.
    pub fn from_lowercase_name(lower: &str, given: &str) -> (b: MouseButton)
        ensures
            b == match mouse_button_named(lower@) {
                Some(named) => named,
                None => MouseButton::Other(
                    match parse_u8_spec(given@) {
                        Some(code) => code,
                        None => 255u8,
                    },
                ),
            },
    {
        if str_eq(lower, "left") || str_eq(lower, "0") {
            MouseButton::Left
        } else if str_eq(lower, "right") || str_eq(lower, "2") {
            MouseButton::Right
        } else if str_eq(lower, "middle") || str_eq(lower, "1") {
            MouseButton::Middle
        } else {
            match parse_u8(given) {
                Some(code) => MouseButton::Other(code),
                None => MouseButton::Other(255),
            }
        }
    }

    /// Parses a mouse button name, ignoring case; a number names that button
    /// and anything else gives button 255.
    pub fn from_string(s: &str) -> (b: MouseButton)
        ensures
            b == match mouse_button_named(lowercase(s@)) {
                Some(named) => named,
                None => MouseButton::Other(
                    match parse_u8_spec(s@) {
                        Some(code) => code,
                        None => 255u8,
                    },
                ),
            },
            vstd::utf8::is_ascii_chars(s@) ==> b == match mouse_button_named(ascii_lowercase(s@)) {
                Some(named) => named,
                None => MouseButton::Other(
                    match parse_u8_spec(s@) {
                        Some(code) => code,
                        None => 255u8,
                    },
                ),
            },
    {
        let lower = to_lowercase(s);
        Self::from_lowercase_name(lower.as_str(), s)
    }
}

} // verus!
