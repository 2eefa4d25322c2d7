use alander::input::{ElementState, InputState};

#[test]
fn key_press_and_release() {
    let mut input = InputState::new();
    assert!(!input.key_pressed(17));
    input.handle_key(17, ElementState::Pressed);
    assert!(input.key_pressed(17));
    assert!(input.key_just_pressed(17));
    input.clear_frame_state();
    assert!(input.key_pressed(17));
    assert!(!input.key_just_pressed(17));
    // a repeated press of a held key is not a new press
    input.handle_key(17, ElementState::Pressed);
    assert!(!input.key_just_pressed(17));
    input.handle_key(17, ElementState::Released);
    assert!(!input.key_pressed(17));
    input.clear_frame_state();
    input.handle_key(17, ElementState::Pressed);
    assert!(input.key_just_pressed(17));
}

#[test]
fn mouse_buttons() {
    let mut input = InputState::new();
    assert!(!input.mouse_button_pressed(0));
    input.handle_mouse_button(0, ElementState::Pressed);
    assert!(input.mouse_button_pressed(0));
    assert!(!input.mouse_button_pressed(1));
    input.handle_mouse_button(0, ElementState::Released);
    assert!(!input.mouse_button_pressed(0));
    assert!(!input.key_pressed(0));
}
