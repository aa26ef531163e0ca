use citybuilder_ecs::input::{Key, MouseButton};
use citybuilder_ecs::input_action::ButtonEvent;
use citybuilder_ecs::input_manager::{InputManager, InputManagerError};

#[test]
fn devices_are_registered_once_and_removed_in_place() {
    let mut manager = InputManager::new();
    assert_eq!(manager.device_count(), 0);
    assert_eq!(manager.add_device(7), Ok(7));
    assert_eq!(manager.add_device(3), Ok(3));
    assert_eq!(manager.add_device(9), Ok(9));
    assert_eq!(manager.add_device(3), Err(InputManagerError::DeviceExists(3)));
    assert_eq!(manager.device_count(), 3);
    assert_eq!(manager.device_index(9), Some(2));
    assert_eq!(manager.remove_device(3), Ok(1));
    assert_eq!(manager.device_index(9), Some(1));
    assert_eq!(manager.remove_device(3), Err(InputManagerError::DeviceNotFound(3)));
    assert_eq!(manager.device_count(), 2);
}

#[test]
fn error_messages() {
    assert_eq!(InputManagerError::DeviceExists(12).message(), "Device with ID 12 already exists");
    assert_eq!(InputManagerError::DeviceNotFound(0).message(), "Device with ID 0 not found");
}

#[test]
fn events_leave_keys_and_buttons_up_or_down() {
    let mut manager = InputManager::new();
    assert_eq!(manager.key_state(&Key::A), None);
    manager.update_state_from_event(&ButtonEvent::KeyPress(Key::A));
    manager.update_state_from_event(&ButtonEvent::MousePress(MouseButton::Left));
    assert_eq!(manager.key_state(&Key::A), Some(true));
    assert_eq!(manager.mouse_button_state(MouseButton::Left), Some(true));
    manager.update_state_from_event(&ButtonEvent::KeyRelease(Key::A));
    assert_eq!(manager.key_state(&Key::A), Some(false));
    assert_eq!(manager.key_state(&Key::B), None);
    manager.update_state_from_event(&ButtonEvent::KeyPress(Key::Unknown("x".to_string())));
    assert_eq!(manager.key_state(&Key::Unknown("x".to_string())), Some(true));
}

#[test]
fn shutdown_forgets_everything_once_initialized() {
    let mut manager = InputManager::new();
    manager.add_device(1).unwrap();
    manager.update_state_from_event(&ButtonEvent::KeyPress(Key::W));
    manager.shutdown();
    assert_eq!(manager.device_count(), 1);
    manager.mark_initialized();
    assert!(manager.is_initialized());
    manager.shutdown();
    assert!(!manager.is_initialized());
    assert_eq!(manager.device_count(), 0);
    assert_eq!(manager.key_state(&Key::W), None);
}
