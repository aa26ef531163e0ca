use citybuilder_ecs::input::{parse_u8, ButtonState, Key, MouseButton};

#[test]
fn test_button_state_checks() {
    assert!(ButtonState::JustPressed.is_down());
    assert!(ButtonState::JustPressed.is_just_pressed());
    assert!(!ButtonState::JustPressed.is_just_released());
    assert!(!ButtonState::JustPressed.is_released());

    assert!(ButtonState::Held.is_down());
    assert!(!ButtonState::Held.is_just_pressed());
    assert!(!ButtonState::Held.is_just_released());
    assert!(!ButtonState::Held.is_released());

    assert!(!ButtonState::JustReleased.is_down());
    assert!(!ButtonState::JustReleased.is_just_pressed());
    assert!(ButtonState::JustReleased.is_just_released());
    assert!(!ButtonState::JustReleased.is_released());

    assert!(!ButtonState::Released.is_down());
    assert!(!ButtonState::Released.is_just_pressed());
    assert!(!ButtonState::Released.is_just_released());
    assert!(ButtonState::Released.is_released());
}

#[test]
fn test_input_event_parsing_examples() {
    assert_eq!(Key::from_string("w"), Key::W);
    assert_eq!(Key::from_string("space"), Key::Space);
    assert_eq!(Key::from_string("escape"), Key::Escape);

    assert_eq!(MouseButton::from_string("left"), MouseButton::Left);
    assert_eq!(MouseButton::from_string("right"), MouseButton::Right);
    assert_eq!(MouseButton::from_string("middle"), MouseButton::Middle);
}

#[test]
fn test_key_parsing() {
    assert_eq!(Key::from_string("a"), Key::A);
    assert_eq!(Key::from_string("A"), Key::A);
    assert_eq!(Key::from_string("space"), Key::Space);
    assert_eq!(Key::from_string("ArrowUp"), Key::ArrowUp);
    assert_eq!(Key::from_string("up"), Key::ArrowUp);
    assert_eq!(Key::from_string("1"), Key::Key1);
    assert_eq!(Key::from_string("f1"), Key::F1);
    assert_eq!(Key::from_string("unknown_key"), Key::Unknown("unknown_key".to_string()));

    assert_eq!(Key::A.to_string(), "A");
    assert_eq!(Key::Space.to_string(), "Space");
    assert_eq!(Key::ArrowUp.to_string(), "ArrowUp");
}

#[test]
fn test_mouse_button_parsing() {
    assert_eq!(MouseButton::from_string("left"), MouseButton::Left);
    assert_eq!(MouseButton::from_string("Left"), MouseButton::Left);
    assert_eq!(MouseButton::from_string("0"), MouseButton::Left);
    assert_eq!(MouseButton::from_string("right"), MouseButton::Right);
    assert_eq!(MouseButton::from_string("2"), MouseButton::Right);
    assert_eq!(MouseButton::from_string("middle"), MouseButton::Middle);
    assert_eq!(MouseButton::from_string("1"), MouseButton::Middle);
    assert_eq!(MouseButton::from_string("5"), MouseButton::Other(5));
}

#[test]
fn button_goes_through_press_hold_release() {
    let (pressed, was_press) = ButtonState::Released.on_press();
    assert_eq!(pressed, ButtonState::JustPressed);
    assert!(was_press);
    let held = pressed.next_frame();
    assert_eq!(held, ButtonState::Held);
    assert_eq!(held.next_frame(), ButtonState::Held);
    let (released, was_release, click) = held.on_release();
    assert_eq!(released, ButtonState::JustReleased);
    assert!(was_release);
    assert!(!click);
    assert_eq!(released.next_frame(), ButtonState::Released);
}

#[test]
fn quick_press_and_release_is_a_click() {
    let (pressed, _) = ButtonState::Released.on_press();
    let (released, was_release, click) = pressed.on_release();
    assert_eq!(released, ButtonState::JustReleased);
    assert!(was_release);
    assert!(click);
}

#[test]
fn ignored_events_change_nothing() {
    assert_eq!(ButtonState::Held.on_press(), (ButtonState::Held, false));
    assert_eq!(ButtonState::Released.on_release(), (ButtonState::Released, false, false));
    assert_eq!(ButtonState::JustReleased.on_release(), (ButtonState::JustReleased, false, false));
}

#[test]
fn every_named_key_survives_printing_and_parsing() {
    let keys = vec![
        Key::A,
        Key::B,
        Key::C,
        Key::D,
        Key::E,
        Key::F,
        Key::G,
        Key::H,
        Key::I,
        Key::J,
        Key::K,
        Key::L,
        Key::M,
        Key::N,
        Key::O,
        Key::P,
        Key::Q,
        Key::R,
        Key::S,
        Key::T,
        Key::U,
        Key::V,
        Key::W,
        Key::X,
        Key::Y,
        Key::Z,
        Key::Key0,
        Key::Key1,
        Key::Key2,
        Key::Key3,
        Key::Key4,
        Key::Key5,
        Key::Key6,
        Key::Key7,
        Key::Key8,
        Key::Key9,
        Key::ArrowUp,
        Key::ArrowDown,
        Key::ArrowLeft,
        Key::ArrowRight,
        Key::F1,
        Key::F2,
        Key::F3,
        Key::F4,
        Key::F5,
        Key::F6,
        Key::F7,
        Key::F8,
        Key::F9,
        Key::F10,
        Key::F11,
        Key::F12,
        Key::Space,
        Key::Enter,
        Key::Escape,
        Key::Tab,
        Key::Shift,
        Key::Control,
        Key::Alt,
        Key::Backspace,
        Key::Delete,
    ];
    for key in keys {
        assert_eq!(Key::from_string(&key.to_string()), key);
    }
}

#[test]
fn key_aliases_and_unknown_names() {
    assert_eq!(Key::from_string("ESC"), Key::Escape);
    assert_eq!(Key::from_string("ctrl"), Key::Control);
    assert_eq!(Key::from_string("del"), Key::Delete);
    assert_eq!(Key::from_string("Right"), Key::ArrowRight);
    assert_eq!(Key::from_string("Gamma"), Key::Unknown("Gamma".to_string()));
    assert_eq!(Key::Unknown("Gamma".to_string()).to_string(), "Gamma");
}

#[test]
fn mouse_buttons_by_number() {
    assert_eq!(MouseButton::from_string("255"), MouseButton::Other(255));
    assert_eq!(MouseButton::from_string("256"), MouseButton::Other(255));
    assert_eq!(MouseButton::from_string("wheel"), MouseButton::Other(255));
    assert_eq!(MouseButton::from_string("+7"), MouseButton::Other(7));
}

#[test]
fn small_numbers_parse() {
    assert_eq!(parse_u8("0"), Some(0));
    assert_eq!(parse_u8("255"), Some(255));
    assert_eq!(parse_u8("256"), None);
    assert_eq!(parse_u8(""), None);
    assert_eq!(parse_u8("+"), None);
    assert_eq!(parse_u8("-1"), None);
    assert_eq!(parse_u8("007"), Some(7));
}

#[test]
fn key_names_read_back() {
    for key in [Key::A, Key::Z, Key::Key0, Key::Key9, Key::ArrowUp, Key::ArrowRight, Key::F1, Key::F12,
        Key::Space, Key::Escape, Key::Control, Key::Backspace, Key::Delete]
    {
        assert_eq!(Key::from_string(&key.to_string()), key);
    }
}
