use game_engine::keyboard::{Keyboard, KEY_SPACE, KEY_W};

#[test]
fn press_and_release() {
    let mut kb = Keyboard::new();
    assert!(!kb.is_pressed(KEY_W));
    kb.press(KEY_W.to_string());
    assert!(kb.is_pressed(KEY_W));
    assert!(kb.is_just_pressed(KEY_W));
    assert!(!kb.is_just_released(KEY_W));
    kb.release(KEY_W.to_string());
    assert!(!kb.is_pressed(KEY_W));
    assert!(kb.is_just_released(KEY_W));
    assert!(kb.is_just_pressed(KEY_W));
}

#[test]
fn holding_a_key_is_just_pressed_once() {
    let mut kb = Keyboard::new();
    kb.press(KEY_SPACE.to_string());
    kb.clear_frame_state();
    assert!(kb.is_pressed(KEY_SPACE));
    assert!(!kb.is_just_pressed(KEY_SPACE));
    kb.press(KEY_SPACE.to_string());
    assert!(!kb.is_just_pressed(KEY_SPACE));
}

#[test]
fn clear_frame_state_forgets_events_only() {
    let mut kb = Keyboard::new();
    kb.press("KeyA".to_string());
    kb.press("KeyB".to_string());
    kb.release("KeyB".to_string());
    kb.clear_frame_state();
    assert!(kb.is_pressed("KeyA"));
    assert!(!kb.is_pressed("KeyB"));
    assert!(!kb.is_just_pressed("KeyA"));
    assert!(!kb.is_just_released("KeyB"));
}

#[test]
fn keys_are_independent() {
    let mut kb = Keyboard::new();
    kb.press("KeyA".to_string());
    kb.press("KeyB".to_string());
    kb.release("KeyA".to_string());
    assert!(!kb.is_pressed("KeyA"));
    assert!(kb.is_pressed("KeyB"));
    kb.release("KeyZ".to_string());
    assert!(kb.is_just_released("KeyZ"));
    assert!(kb.is_pressed("KeyB"));
}

#[test]
fn cloned_keyboard_keeps_state() {
    let mut kb = Keyboard::new();
    kb.press("KeyA".to_string());
    let copy = kb.clone();
    assert!(copy.is_pressed("KeyA"));
}
