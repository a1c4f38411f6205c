//! Domain records: links, categories, settings and the results of imports.

use vstd::prelude::*;

verus! {

/// A stored link.
#[derive(Debug, Clone)]
pub struct Url {
    pub id: String,
    /// May be empty; the panel then shows the URL itself.
    pub title: Option<String>,
    /// Only `http` / `https`.
    pub url: String,
    /// `None` means uncategorised.
    pub category_id: Option<String>,
    pub note: Option<String>,
    pub favicon_path: Option<String>,
    pub created_at: String,
}

/// A category with the number of links in it.
#[derive(Debug, Clone)]
pub struct Category {
    pub id: String,
    pub name: String,
    pub sort: i64,
    pub color: Option<String>,
    pub icon: Option<String>,
    pub created_at: String,
    /// Links in this category (aggregated, not a stored column).
    pub count: i64,
}

/// User settings.
#[derive(Debug, Clone)]
pub struct Settings {
    /// Such as `"Ctrl+Alt+Space"`.
    pub hotkey: String,
    /// `chrome`, `msedge`, `firefox`, a path to an executable, or empty for the system default.
    pub default_browser: String,
    pub autostart: bool,
}

/// Counts reported by an import.
#[derive(Debug, Clone, Copy)]
pub struct ImportResult {
    pub imported: i64,
    pub skipped: i64,
}

/// Title and local favicon of a page.
#[derive(Debug, Clone)]
pub struct UrlMeta {
    pub title: String,
    pub favicon_path: Option<String>,
}

/// A link found in a drop or a bookmark file, waiting for the user to file it.
#[derive(Debug, Clone)]
pub struct UrlDraft {
    pub url: String,
    pub title: Option<String>,
    pub category_id: Option<String>,
}

/// One link of a Netscape bookmark file, with the folder it sits in.
#[derive(Debug, Clone)]
pub struct ParsedBookmark {
    pub url: String,
    pub title: Option<String>,
    pub folder: Option<String>,
}

} // verus!
