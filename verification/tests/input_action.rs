use citybuilder_ecs::input::{ButtonState, Key, MouseButton};
use citybuilder_ecs::input_action::{ButtonAction, ButtonEvent, ButtonInput};

fn names(actions: &[ButtonAction]) -> Vec<String> {
    actions
        .iter()
        .map(|a| match a {
            ButtonAction::ButtonPress { key_or_button } => format!("press {}", key_or_button),
            ButtonAction::ButtonRelease { key_or_button } => format!("release {}", key_or_button),
            ButtonAction::ButtonClick { key_or_button } => format!("click {}", key_or_button),
            ButtonAction::ButtonHold { key_or_button } => format!("hold {}", key_or_button),
        })
        .collect()
}

#[test]
fn test_key_press_and_release() {
    let mut input = ButtonInput::new();
    input.update_from_events(&[ButtonEvent::KeyPress(Key::A)]);
    assert!(input.is_key_just_pressed(&Key::A));
    assert!(input.is_key_pressed(&Key::A));
    assert!(!input.is_key_just_released(&Key::A));
    assert_eq!(names(input.get_frame_actions()), vec!["press A"]);
    assert_eq!(names(input.get_active_actions()), vec!["hold A"]);

    input.update_from_events(&[]);
    assert!(!input.is_key_just_pressed(&Key::A));
    assert!(input.is_key_pressed(&Key::A));
    assert_eq!(input.key_state(&Key::A), Some(ButtonState::Held));
    assert!(input.get_frame_actions().is_empty());

    input.update_from_events(&[ButtonEvent::KeyRelease(Key::A)]);
    assert!(!input.is_key_pressed(&Key::A));
    assert!(input.is_key_just_released(&Key::A));
    assert_eq!(names(input.get_frame_actions()), vec!["release A"]);
    assert!(input.get_active_actions().is_empty());

    input.update_from_events(&[]);
    assert_eq!(input.key_state(&Key::A), Some(ButtonState::Released));
}

#[test]
fn test_quick_click() {
    let mut input = ButtonInput::new();
    input.update_from_events(&[ButtonEvent::KeyPress(Key::Space), ButtonEvent::KeyRelease(Key::Space)]);
    assert_eq!(names(input.get_frame_actions()), vec!["press Space", "release Space", "click Space"]);
    assert!(!input.is_key_pressed(&Key::Space));
    assert!(input.is_key_just_released(&Key::Space));
}

#[test]
fn mouse_buttons_are_named_after_their_debug_form() {
    let mut input = ButtonInput::new();
    input.update_from_events(&[
        ButtonEvent::MousePress(MouseButton::Left),
        ButtonEvent::MousePress(MouseButton::Other(7)),
        ButtonEvent::MousePress(MouseButton::Left),
    ]);
    assert!(input.is_mouse_button_just_pressed(MouseButton::Left));
    assert!(input.is_mouse_button_pressed(MouseButton::Other(7)));
    assert!(!input.is_mouse_button_pressed(MouseButton::Right));
    assert_eq!(names(input.get_frame_actions()), vec!["press MouseLeft", "press MouseOther(7)"]);
    assert_eq!(names(input.get_active_actions()), vec!["hold MouseLeft", "hold MouseOther(7)"]);

    input.update_from_events(&[ButtonEvent::MouseRelease(MouseButton::Left)]);
    assert!(input.is_mouse_button_just_released(MouseButton::Left));
    assert_eq!(names(input.get_frame_actions()), vec!["release MouseLeft"]);
    assert_eq!(names(input.get_active_actions()), vec!["hold MouseOther(7)"]);
}

#[test]
fn holds_list_keys_then_buttons_in_first_seen_order() {
    let mut input = ButtonInput::new();
    input.update_from_events(&[
        ButtonEvent::MousePress(MouseButton::Middle),
        ButtonEvent::KeyPress(Key::W),
        ButtonEvent::KeyPress(Key::Unknown("Fn".to_string())),
        ButtonEvent::KeyPress(Key::D),
        ButtonEvent::KeyRelease(Key::W),
    ]);
    assert_eq!(names(input.get_active_actions()), vec!["hold Fn", "hold D", "hold MouseMiddle"]);
    assert!(input.is_key_pressed(&Key::Unknown("Fn".to_string())));
    assert!(!input.is_key_pressed(&Key::Unknown("fn".to_string())));
}

#[test]
fn repeated_events_are_ignored() {
    let mut input = ButtonInput::new();
    input.press_key(&Key::Q);
    input.press_key(&Key::Q);
    input.release_key(&Key::E);
    assert_eq!(names(input.get_frame_actions()), vec!["press Q"]);
    input.release_key(&Key::Q);
    input.release_key(&Key::Q);
    assert_eq!(names(input.get_frame_actions()), vec!["press Q", "release Q", "click Q"]);
}

#[test]
fn clearing_forgets_everything() {
    let mut input = ButtonInput::new();
    input.update_from_events(&[ButtonEvent::KeyPress(Key::A), ButtonEvent::MousePress(MouseButton::Left)]);
    assert!(!input.get_frame_actions().is_empty());
    input.clear();
    assert!(input.key_state(&Key::A).is_none());
    assert!(input.mouse_button_state(MouseButton::Left).is_none());
    assert!(input.get_frame_actions().is_empty());
    assert!(input.get_active_actions().is_empty());
}

#[test]
fn keys_compare_by_identity() {
    assert!(Key::A.same_as(&Key::A));
    assert!(!Key::A.same_as(&Key::B));
    assert!(!Key::A.same_as(&Key::Unknown("A".to_string())));
    assert!(Key::Unknown("x".to_string()).same_as(&Key::Unknown("x".to_string())));
    assert_eq!(Key::A.code(), 0);
    assert_eq!(Key::Unknown("x".to_string()).code(), 255);
    assert_eq!(Key::Delete.clone(), Key::Delete);
}

#[test]
fn keys_no_event_names_only_advance() {
    let mut input = ButtonInput::new();
    input.update_from_events(&[ButtonEvent::KeyPress(Key::A), ButtonEvent::MousePress(MouseButton::Left)]);
    input.update_from_events(&[ButtonEvent::KeyPress(Key::B), ButtonEvent::MouseRelease(MouseButton::Right)]);
    assert_eq!(input.key_state(&Key::A), Some(ButtonState::Held));
    assert_eq!(input.mouse_button_state(MouseButton::Left), Some(ButtonState::Held));
    assert_eq!(input.key_state(&Key::C), None);
    input.update_from_events(&[ButtonEvent::KeyRelease(Key::A)]);
    input.update_from_events(&[ButtonEvent::KeyPress(Key::B)]);
    assert_eq!(input.key_state(&Key::A), Some(ButtonState::Released));
}

#[test]
fn frame_actions_come_from_the_frame_events() {
    let mut input = ButtonInput::new();
    input.update_from_events(&[ButtonEvent::KeyPress(Key::A), ButtonEvent::MousePress(MouseButton::Left)]);
    input.update_from_events(&[ButtonEvent::KeyRelease(Key::A)]);
    assert_eq!(names(input.get_frame_actions()), vec!["release A"]);
    input.update_from_events(&[]);
    assert!(input.get_frame_actions().is_empty());
}
