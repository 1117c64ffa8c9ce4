//! Shortcut specifications: modifier chains, key names, and the
//! constructed failures.
use copas_core::shortcut::{parse_shortcut, KeyCode, Shortcut, ShortcutError};

#[test]
fn control_shift_v_parses() {
    assert_eq!(
        parse_shortcut(b"Ctrl+Shift+V"),
        Ok(Shortcut { mods: 2 | 4, code: KeyCode::KeyV })
    );
}

#[test]
fn command_shift_b_parses() {
    assert_eq!(
        parse_shortcut(b"Cmd+Shift+B"),
        Ok(Shortcut { mods: 1 | 4, code: KeyCode::KeyB })
    );
}

#[test]
fn tokens_are_case_insensitive() {
    assert_eq!(
        parse_shortcut(b"CONTROL+ALT+delete"),
        Ok(Shortcut { mods: 2 | 8, code: KeyCode::Delete })
    );
}

#[test]
fn named_keys_parse() {
    assert_eq!(parse_shortcut(b"F5"), Ok(Shortcut { mods: 0, code: KeyCode::F5 }));
    assert_eq!(parse_shortcut(b"Super+Space"), Ok(Shortcut { mods: 1, code: KeyCode::Space }));
    assert_eq!(parse_shortcut(b"Ctrl+Up"), Ok(Shortcut { mods: 2, code: KeyCode::ArrowUp }));
    assert_eq!(parse_shortcut(b"Ctrl+9"), Ok(Shortcut { mods: 2, code: KeyCode::Digit9 }));
    assert_eq!(parse_shortcut(b"Option+Return"), Ok(Shortcut { mods: 8, code: KeyCode::Enter }));
}

#[test]
fn an_unknown_key_is_a_constructed_failure() {
    assert_eq!(parse_shortcut(b"Ctrl+Banana"), Err(ShortcutError::UnknownKey));
    assert_eq!(parse_shortcut(b""), Err(ShortcutError::UnknownKey));
}

#[test]
fn modifiers_alone_name_no_key() {
    assert_eq!(parse_shortcut(b"Ctrl+Shift"), Err(ShortcutError::NoKey));
}

#[test]
fn a_later_key_token_replaces_an_earlier_one() {
    assert_eq!(parse_shortcut(b"A+B"), Ok(Shortcut { mods: 0, code: KeyCode::KeyB }));
}
