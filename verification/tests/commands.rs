use url_launcher::commands::{
    background_title, category_not_found, check_category_name, check_hotkey, check_new_link,
    duplicate_link_error, hotkey_changed, link_not_found, list_limit, trim_new_name,
};
use url_launcher::error::{ensure_safe_url, AppError};

#[test]
fn safe_urls_only() {
    assert!(ensure_safe_url("https://a.com").is_ok());
    assert!(ensure_safe_url("HTTP://a.com").is_ok());
    match ensure_safe_url("javascript:alert(1)") {
        Err(AppError::InvalidUrl(m)) => assert_eq!(m, "不允许的 scheme: javascript"),
        _ => panic!("expected a refusal"),
    }
    match ensure_safe_url("not a url") {
        Err(AppError::InvalidUrl(m)) => assert_eq!(m, "relative URL without a base"),
        _ => panic!("expected a refusal"),
    }
}

#[test]
fn new_link_checks() {
    assert_eq!(check_new_link("https://A.com/").unwrap(), "https://a.com");
    assert!(check_new_link("file:///etc/passwd").is_err());
    assert!(matches!(duplicate_link_error(), AppError::InvalidUrl(m) if m == "该链接已存在"));
    assert!(matches!(link_not_found("x1"), AppError::NotFound(m) if m == "链接不存在: x1"));
    assert!(matches!(category_not_found("c9"), AppError::NotFound(m) if m == "分类不存在: c9"));
}

#[test]
fn list_defaults() {
    assert_eq!(list_limit(None), 200);
    assert_eq!(list_limit(Some(5)), 5);
}

#[test]
fn titles_after_background_fetch() {
    assert_eq!(background_title(&None, "Fetched".into()).as_deref(), Some("Fetched"));
    assert_eq!(background_title(&Some("Mine".into()), "Fetched".into()), None);
}

#[test]
fn category_names() {
    assert_eq!(check_category_name("  Dev ").unwrap(), "Dev");
    assert!(matches!(check_category_name("   "), Err(AppError::InvalidUrl(m)) if m == "分类名不能为空"));
    assert_eq!(trim_new_name(Some(" x ".into())).as_deref(), Some("x"));
    assert_eq!(trim_new_name(None), None);
}

#[test]
fn hotkeys() {
    assert!(check_hotkey("Ctrl+Alt+Space").is_ok());
    match check_hotkey("Ctrl+Space") {
        Err(AppError::InvalidUrl(m)) => {
            assert_eq!(m, "系统保留组合，不可占用（IME/系统快捷键）: Ctrl+Space")
        }
        _ => panic!("expected a refusal"),
    }
    assert!(hotkey_changed("Alt+A", "Alt+B"));
    assert!(!hotkey_changed("Alt+A", "Alt+A"));
}

#[test]
fn error_messages() {
    assert_eq!(AppError::Sqlite("x".into()).message(), "数据库错误: x");
    assert_eq!(AppError::Io("x".into()).message(), "文件错误: x");
    assert_eq!(AppError::Network("x".into()).message(), "网络错误: x");
    assert_eq!(AppError::Parse("x".into()).message(), "解析错误: x");
    assert_eq!(AppError::NotFound("x".into()).message(), "未找到: x");
    assert_eq!(AppError::InvalidUrl("x".into()).message(), "非法链接: x");
    assert!(matches!(AppError::from_sqlite(true, "UNIQUE".into()), AppError::InvalidUrl(m) if m == "该链接已存在"));
    assert!(matches!(AppError::from_sqlite(false, "busy".into()), AppError::Sqlite(m) if m == "busy"));
}
