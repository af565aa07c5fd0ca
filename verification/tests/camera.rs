use orrin_core::camera_controller::{HeldInput, Keys, MoveKey};

#[test]
fn only_the_movement_keys_move_the_camera() {
    assert!(!Keys::default().moving());
    assert!(!Keys { fast: true, ..Keys::default() }.moving());
    assert!(Keys { up: true, ..Keys::default() }.moving());
    assert!(Keys { back: true, fast: true, ..Keys::default() }.moving());
}

#[test]
fn presses_the_interface_wants_are_ignored_and_releases_never_are() {
    let mut input = HeldInput::default();
    input.key(MoveKey::W, true, true);
    assert_eq!(input, HeldInput::default());
    input.key(MoveKey::W, true, false);
    input.key(MoveKey::Shift, true, false);
    assert!(input.keys.forward && input.keys.fast);
    input.key(MoveKey::W, false, true);
    assert!(!input.keys.forward && input.keys.fast);
    input.key(MoveKey::Other, true, false);
    assert_eq!(input.keys, Keys { fast: true, ..Keys::default() });

    input.mouse_right(true, true);
    assert!(!input.looking);
    input.mouse_right(true, false);
    assert!(input.looking);
    input.mouse_right(false, true);
    assert!(!input.looking);
}

#[test]
fn an_idle_controller_does_nothing() {
    let mut input = HeldInput::default();
    assert!(!input.active(false));
    assert!(input.active(true));
    input.key(MoveKey::Shift, true, false);
    assert!(!input.active(false));
    input.key(MoveKey::Q, true, false);
    assert!(input.active(false));
    input.key(MoveKey::Q, false, false);
    input.mouse_right(true, false);
    assert!(input.active(false));
}
