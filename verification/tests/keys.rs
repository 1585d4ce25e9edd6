use love_api::keys::{key_action, keycode_to_love_string, KeyAction, KeyCode, KeyKind, ModifierKey};

#[test]
fn keys_get_love_names() {
    assert_eq!(keycode_to_love_string(KeyCode::Char(' ')), "space");
    assert_eq!(keycode_to_love_string(KeyCode::Char('A')), "a");
    assert_eq!(keycode_to_love_string(KeyCode::Char('z')), "z");
    assert_eq!(keycode_to_love_string(KeyCode::Char('Ä')), "ä");
    assert_eq!(keycode_to_love_string(KeyCode::Enter), "return");
    assert_eq!(keycode_to_love_string(KeyCode::Esc), "escape");
    assert_eq!(keycode_to_love_string(KeyCode::PageDown), "pagedown");
    assert_eq!(keycode_to_love_string(KeyCode::F(12)), "f12");
    assert_eq!(keycode_to_love_string(KeyCode::F(3)), "f3");
    assert_eq!(keycode_to_love_string(KeyCode::F(0)), "f0");
    assert_eq!(keycode_to_love_string(KeyCode::F(105)), "f105");
    assert_eq!(keycode_to_love_string(KeyCode::F(255)), "f255");
    assert_eq!(keycode_to_love_string(KeyCode::Modifier(ModifierKey::RightAlt)), "ralt");
    assert_eq!(keycode_to_love_string(KeyCode::Modifier(ModifierKey::Other)), "unknown");
    assert_eq!(keycode_to_love_string(KeyCode::Other), "unknown");
}

#[test]
fn presses_type_characters_unless_control_is_held() {
    match key_action(KeyCode::Char('Q'), KeyKind::Press, false) {
        KeyAction::Press { key, text } => {
            assert_eq!(key, "q");
            assert_eq!(text, Some('Q'));
        }
        other => panic!("unexpected {other:?}"),
    }
    match key_action(KeyCode::Char('c'), KeyKind::Press, true) {
        KeyAction::Press { key, text } => {
            assert_eq!(key, "c");
            assert_eq!(text, None);
        }
        other => panic!("unexpected {other:?}"),
    }
    match key_action(KeyCode::Left, KeyKind::Press, false) {
        KeyAction::Press { key, text } => {
            assert_eq!(key, "left");
            assert_eq!(text, None);
        }
        other => panic!("unexpected {other:?}"),
    }
}

#[test]
fn releases_repeats_and_unknown_keys() {
    assert!(matches!(key_action(KeyCode::Up, KeyKind::Release, false), KeyAction::Release { key } if key == "up"));
    assert!(matches!(key_action(KeyCode::Up, KeyKind::Repeat, false), KeyAction::Ignore));
    assert!(matches!(key_action(KeyCode::Other, KeyKind::Press, false), KeyAction::Ignore));
}
