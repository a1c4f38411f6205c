use url_launcher::shortcut::{normalize, validate_shortcut, ShortcutError};

#[test]
fn accepts_default() {
    assert!(validate_shortcut("Alt+Space").is_ok());
}

#[test]
fn rejects_ime_conflict() {
    assert_eq!(
        validate_shortcut("Ctrl+Space"),
        Err(ShortcutError::SystemReserved("Ctrl+Space".into()))
    );
}

#[test]
fn rejects_plain_key() {
    assert_eq!(validate_shortcut("A"), Err(ShortcutError::MissingModifier));
}

#[test]
fn rejects_unknown_mod() {
    assert!(matches!(validate_shortcut("Foo+K"), Err(ShortcutError::UnknownToken(_))));
}

#[test]
fn accepts_documented_examples() {
    assert!(validate_shortcut("Ctrl+Alt+Space").is_ok());
    assert!(validate_shortcut("Ctrl+Shift+K").is_ok());
    assert!(validate_shortcut("Alt+D").is_ok());
}

#[test]
fn blank_is_invalid_format() {
    assert_eq!(validate_shortcut("   "), Err(ShortcutError::InvalidFormat));
    assert_eq!(validate_shortcut(""), Err(ShortcutError::InvalidFormat));
}

#[test]
fn lone_win_is_reserved() {
    assert_eq!(validate_shortcut(" WIN "), Err(ShortcutError::SystemReserved("WIN".into())));
}

#[test]
fn lone_modifier_misses_key() {
    assert_eq!(validate_shortcut("Ctrl"), Err(ShortcutError::MissingKey));
    assert_eq!(validate_shortcut("Ctrl+Shift+Alt"), Err(ShortcutError::MissingKey));
}

#[test]
fn unknown_token_reports_first_unknown_as_typed() {
    assert_eq!(
        validate_shortcut("Ctrl + Hyper + Foo + K"),
        Err(ShortcutError::UnknownToken("Hyper".into()))
    );
}

#[test]
fn reserved_in_any_spelling() {
    assert_eq!(
        validate_shortcut("CONTROL + space"),
        Err(ShortcutError::SystemReserved("CONTROL + space".into()))
    );
    assert_eq!(validate_shortcut("space+CONTROL"), Err(ShortcutError::MissingKey));
    assert_eq!(
        validate_shortcut("Shift+Alt"),
        Err(ShortcutError::MissingKey)
    );
    assert_eq!(
        validate_shortcut("meta+l"),
        Err(ShortcutError::SystemReserved("meta+l".into()))
    );
    assert_eq!(
        validate_shortcut("Alt+Tab"),
        Err(ShortcutError::SystemReserved("Alt+Tab".into()))
    );
}

#[test]
fn canonical_form() {
    assert_eq!(normalize("space+ctrl+alt"), "Alt+Ctrl+space");
    assert_eq!(normalize("Win+CMD+e"), "Super+e");
}

#[test]
fn token_less_input_is_invalid_format() {
    assert_eq!(validate_shortcut("+"), Err(ShortcutError::InvalidFormat));
    assert_eq!(validate_shortcut(" + + "), Err(ShortcutError::InvalidFormat));
}

#[test]
fn messages() {
    assert_eq!(ShortcutError::MissingKey.message(), "快捷键缺少主键");
    assert_eq!(
        ShortcutError::UnknownToken("Foo".into()).message(),
        "无法识别的按键: Foo"
    );
}

#[test]
fn canonical_form_is_stable() {
    for c in ["space+ctrl+alt", " Win + cmd + E ", "Shift", "", "Ctrl+Alt+Page Up", "+ +"] {
        let once = normalize(c);
        assert_eq!(normalize(&once), once);
    }
}

#[test]
fn verdict_ignores_modifier_order_case_and_aliases() {
    assert_eq!(validate_shortcut("shift+CTRL+k"), Ok(()));
    assert_eq!(validate_shortcut("Control+Shift+K"), Ok(()));
    assert!(matches!(validate_shortcut("control+SPACE"), Err(ShortcutError::SystemReserved(_))));
    assert!(matches!(validate_shortcut("Ctrl+Space"), Err(ShortcutError::SystemReserved(_))));
    assert!(matches!(validate_shortcut("Foo+Alt+K"), Err(ShortcutError::UnknownToken(_))));
    assert!(matches!(validate_shortcut("alt+FOO+k"), Err(ShortcutError::UnknownToken(_))));
    assert_eq!(normalize("cmd+shift+X"), normalize("Shift+Super+x"));
}
