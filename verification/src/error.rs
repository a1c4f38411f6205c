//! The application's error type and the check that admits only web links.

use vstd::prelude::*;

use crate::models::{Category, ImportResult, Settings, Url, UrlDraft, UrlMeta};
use crate::text::{append_chars, chars_of, is_str, string_of};
use crate::weburl::{parse_url, url_parse_result};

verus! {

/// Application error; each variant carries a description for the user.
#[derive(Debug, Clone)]
pub enum AppError {
    /// Database read or write failure.
    Sqlite(String),
    /// File system failure.
    Io(String),
    /// Network failure.
    Network(String),
    /// Unparseable input (bookmark HTML, shortcut files, JSON backups).
    Parse(String),
    /// No record with the given id.
    NotFound(String),
    /// A link that is not a valid `http`/`https` URL, or another refused value.
    InvalidUrl(String),
}

/// Mathematical form of [`AppError`].
pub enum AppErrorView {
    Sqlite(Seq<char>),
    Io(Seq<char>),
    Network(Seq<char>),
    Parse(Seq<char>),
    NotFound(Seq<char>),
    InvalidUrl(Seq<char>),
}

impl View for AppError {
    type V = AppErrorView;

    open spec fn view(&self) -> AppErrorView {
        match self {
            AppError::Sqlite(m) => AppErrorView::Sqlite(m@),
            AppError::Io(m) => AppErrorView::Io(m@),
            AppError::Network(m) => AppErrorView::Network(m@),
            AppError::Parse(m) => AppErrorView::Parse(m@),
            AppError::NotFound(m) => AppErrorView::NotFound(m@),
            AppError::InvalidUrl(m) => AppErrorView::InvalidUrl(m@),
        }
    }
}

/// The text shown to the user for an error.
pub open spec fn error_message(e: AppErrorView) -> Seq<char> {
    match e {
        AppErrorView::Sqlite(m) => "数据库错误: "@ + m,
        AppErrorView::Io(m) => "文件错误: "@ + m,
        AppErrorView::Network(m) => "网络错误: "@ + m,
        AppErrorView::Parse(m) => "解析错误: "@ + m,
        AppErrorView::NotFound(m) => "未找到: "@ + m,
        AppErrorView::InvalidUrl(m) => "非法链接: "@ + m,
    }
}

/// `prefix` followed by `rest`.
pub fn prefixed(prefix: &str, rest: &str) -> (s: String)
    ensures
        s@ == prefix@ + rest@,
{
    let mut v = chars_of(prefix);
    let r = chars_of(rest);
    append_chars(&mut v, &r);
    string_of(&v)
}

/// The user-facing message of a database failure: a uniqueness violation
/// means the link is already stored.
pub open spec fn sqlite_error_view(constraint_violation: bool, text: Seq<char>) -> AppErrorView {
    if constraint_violation {
        AppErrorView::InvalidUrl("该链接已存在"@)
    } else {
        AppErrorView::Sqlite(text)
    }
}

impl AppError {
    /// The text shown to the user.
    pub fn message(&self) -> (s: String)
        ensures
            s@ == error_message(self@),
    {
        match self {
            AppError::Sqlite(m) => prefixed("数据库错误: ", m.as_str()),
            AppError::Io(m) => prefixed("文件错误: ", m.as_str()),
            AppError::Network(m) => prefixed("网络错误: ", m.as_str()),
            AppError::Parse(m) => prefixed("解析错误: ", m.as_str()),
            AppError::NotFound(m) => prefixed("未找到: ", m.as_str()),
            AppError::InvalidUrl(m) => prefixed("非法链接: ", m.as_str()),
        }
    }

    /// The error for a failed database call, given whether it was a
    /// constraint violation and the database's own description.
    pub fn from_sqlite(constraint_violation: bool, text: String) -> (e: AppError)
        ensures
            e@ == sqlite_error_view(constraint_violation, text@),
    {
        if constraint_violation {
            AppError::InvalidUrl(String::from_str("该链接已存在"))
        } else {
            AppError::Sqlite(text)
        }
    }
}

/// Whether `raw` may be stored or opened: it parses as a URL whose scheme is
/// `http` or `https`; otherwise the refusal and its reason.
pub open spec fn safe_url_check(raw: Seq<char>) -> Result<(), AppErrorView> {
    match url_parse_result(raw) {
        Ok(p) => if p.scheme == "http"@ || p.scheme == "https"@ {
            Ok(())
        } else {
            Err(AppErrorView::InvalidUrl("不允许的 scheme: "@ + p.scheme))
        },
        Err(e) => Err(AppErrorView::InvalidUrl(e)),
    }
}

pub open spec fn unit_result_view(r: Result<(), AppError>) -> Result<(), AppErrorView> {
    match r {
        Ok(()) => Ok(()),
        Err(e) => Err(e@),
    }
}

/// Admits only `http`/`https` URLs; every link passes this check before it is
/// stored or fetched.
pub fn ensure_safe_url(raw: &str) -> (r: Result<(), AppError>)
    ensures
        unit_result_view(r) == safe_url_check(raw@),
{
    match parse_url(raw) {
        Ok(u) => {
            let s = chars_of(u.scheme.as_str());
            if is_str(&s, "http") || is_str(&s, "https") {
                Ok(())
            } else {
                Err(AppError::InvalidUrl(prefixed("不允许的 scheme: ", u.scheme.as_str())))
            }
        },
        Err(e) => Err(AppError::InvalidUrl(e)),
    }
}

/// The commands the user interface invokes, with their parameters and results.
pub trait CommandContract {
    fn urls_list(
        &self,
        category_id: Option<String>,
        search: Option<String>,
        limit: Option<i64>,
    ) -> Result<Vec<Url>, AppError>;

    fn url_create(
        &self,
        url: String,
        title: Option<String>,
        category_id: Option<String>,
        note: Option<String>,
    ) -> Result<Url, AppError>;

    fn url_update(
        &self,
        id: String,
        title: Option<String>,
        category_id: Option<String>,
        note: Option<String>,
    ) -> Result<Url, AppError>;

    fn url_delete(&self, id: String) -> Result<(), AppError>;

    fn url_refresh_meta(&self, id: String) -> Result<Url, AppError>;

    fn categories_list(&self) -> Result<Vec<Category>, AppError>;

    fn category_create(
        &self,
        name: String,
        color: Option<String>,
        icon: Option<String>,
    ) -> Result<Category, AppError>;

    fn category_update(
        &self,
        id: String,
        name: Option<String>,
        color: Option<String>,
        icon: Option<String>,
        sort: Option<i64>,
    ) -> Result<Category, AppError>;

    /// Links of the deleted category become uncategorised.
    fn category_delete(&self, id: String) -> Result<(), AppError>;

    fn category_reorder(&self, ordered_ids: Vec<String>) -> Result<(), AppError>;

    fn bookmarks_import(&self, path: String) -> Result<ImportResult, AppError>;

    /// Falls back to the URL as title after a five-second timeout.
    fn fetch_meta(&self, url: String) -> Result<UrlMeta, AppError>;

    fn settings_get(&self) -> Result<Settings, AppError>;

    fn settings_set(&self, settings: Settings) -> Result<(), AppError>;

    fn autostart_enable(&self) -> Result<(), AppError>;

    fn autostart_disable(&self) -> Result<(), AppError>;

    fn autostart_is_enabled(&self) -> Result<bool, AppError>;

    fn panel_toggle(&self) -> Result<(), AppError>;

    fn drag_resolve(&self, items: Vec<String>) -> Result<Vec<UrlDraft>, AppError>;
}

} // verus!
