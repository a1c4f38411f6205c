use url_launcher::models::Settings;
use url_launcher::repo::{
    default_settings_values, like_pattern, new_category_record, new_link_record,
    reorder_assignments, settings_from_values, settings_to_values,
};

#[test]
fn like_patterns() {
    assert_eq!(like_pattern(None), "%");
    assert_eq!(like_pattern(Some("   ")), "%");
    assert_eq!(like_pattern(Some("git")), "%git%");
    assert_eq!(like_pattern(Some("50%_a\\b")), "%50\\%\\_a\\\\b%");
    assert_eq!(like_pattern(Some(" x ")), "% x %");
}

#[test]
fn settings_defaults_and_roundtrip() {
    let s = settings_from_values(None, None, None);
    assert_eq!(s.hotkey, "Ctrl+Alt+Space");
    assert_eq!(s.default_browser, "");
    assert!(!s.autostart);

    let s = settings_from_values(Some("Alt+K".into()), Some("firefox".into()), Some("yes".into()));
    assert!(!s.autostart);

    let original = Settings { hotkey: "Ctrl+Shift+K".into(), default_browser: "msedge".into(), autostart: true };
    let rows = settings_to_values(&original);
    assert_eq!(rows[0], ("hotkey".to_string(), "Ctrl+Shift+K".to_string()));
    assert_eq!(rows[2], ("autostart".to_string(), "true".to_string()));
    let back = settings_from_values(Some(rows[0].1.clone()), Some(rows[1].1.clone()), Some(rows[2].1.clone()));
    assert_eq!(back.hotkey, original.hotkey);
    assert_eq!(back.default_browser, original.default_browser);
    assert_eq!(back.autostart, original.autostart);

    let d = default_settings_values();
    assert_eq!(d[0].1, "Ctrl+Alt+Space");
    assert_eq!(d[1].1, "");
    assert_eq!(d[2].1, "false");
}

#[test]
fn new_records() {
    let (u, norm) = new_link_record("https://Example.com/", Some("T".into()), None, None);
    assert_eq!(u.url, "https://Example.com/");
    assert_eq!(norm, "https://example.com");
    assert_eq!(u.id.len(), 36);
    assert!(u.favicon_path.is_none());
    assert!(!u.created_at.is_empty());

    let c = new_category_record("Dev", Some("#fff".into()), None, 4);
    assert_eq!(c.sort, 5);
    assert_eq!(c.count, 0);
    assert_eq!(c.id.len(), 36);
    let other = new_category_record("Dev", None, None, 4);
    assert_ne!(c.id, other.id);
}

#[test]
fn reorder_weights() {
    let ids = vec!["b".to_string(), "a".to_string(), "c".to_string()];
    let r = reorder_assignments(&ids);
    assert_eq!(r, vec![("b".to_string(), 0), ("a".to_string(), 1), ("c".to_string(), 2)]);
}
