//! The decisions the user-facing commands take before and after touching the
//! store: argument checks, defaults, and the errors they report.

use vstd::prelude::*;

use crate::error::{ensure_safe_url, prefixed, safe_url_check, unit_result_view, AppError, AppErrorView};
use crate::normalize::{normalize_url, normalized};
use crate::shortcut::{
    shortcut_message, shortcut_verdict, validate_shortcut, verdict_of,
    ShortcutVerdict,
};
use crate::text::{chars_of, same_chars, string_of, trim, trim_vec};

verus! {

/// Default number of links listed.
pub open spec fn list_limit_of(limit: Option<i64>) -> i64 {
    match limit {
        Some(l) => l,
        None => 200,
    }
}

/// The number of links to list: the requested limit or 200.
pub fn list_limit(limit: Option<i64>) -> (l: i64)
    ensures
        l == list_limit_of(limit),
{
    match limit {
        Some(l) => l,
        None => 200,
    }
}

/// Checks a link before it is created: only `http`/`https` URLs are taken;
/// the result is the normal form under which duplicates are looked up.
pub fn check_new_link(url: &str) -> (r: Result<String, AppError>)
    ensures
        match r {
            Ok(n) => safe_url_check(url@) is Ok && n@ == normalized(url@),
            Err(e) => safe_url_check(url@) == Err::<(), AppErrorView>(e@),
        },
{
    match ensure_safe_url(url) {
        Ok(()) => Ok(normalize_url(url)),
        Err(e) => Err(e),
    }
}

/// The error for a link that is already stored.
pub fn duplicate_link_error() -> (e: AppError)
    ensures
        e@ == AppErrorView::InvalidUrl("该链接已存在"@),
{
    AppError::InvalidUrl(String::from_str("该链接已存在"))
}

/// The error for an unknown link id.
pub fn link_not_found(id: &str) -> (e: AppError)
    ensures
        e@ == AppErrorView::NotFound("链接不存在: "@ + id@),
{
    AppError::NotFound(prefixed("链接不存在: ", id))
}

/// The error for an unknown category id.
pub fn category_not_found(id: &str) -> (e: AppError)
    ensures
        e@ == AppErrorView::NotFound("分类不存在: "@ + id@),
{
    AppError::NotFound(prefixed("分类不存在: ", id))
}

pub open spec fn opt_view(o: Option<String>) -> Option<Seq<char>> {
    match o {
        Some(s) => Some(s@),
        None => None,
    }
}

/// The title written after a background fetch for a new link: the fetched
/// title when the user gave none, else nothing (the user's title stays).
pub fn background_title(user_title: &Option<String>, fetched: String) -> (t: Option<String>)
    ensures
        opt_view(t) == match user_title {
            Some(_) => None,
            None => Some(fetched@),
        },
{
    match user_title {
        Some(_) => None,
        None => Some(fetched),
    }
}

/// A new category's name: trimmed, and not blank.
pub fn check_category_name(name: &str) -> (r: Result<String, AppError>)
    ensures
        match r {
            Ok(n) => n@ == trim(name@) && n@.len() > 0,
            Err(e) => trim(name@).len() == 0 && e@ == AppErrorView::InvalidUrl("分类名不能为空"@),
        },
{
    let t = trim_vec(&chars_of(name));
    if t.len() == 0 {
        Err(AppError::InvalidUrl(String::from_str("分类名不能为空")))
    } else {
        Ok(string_of(&t))
    }
}

/// A category's new name, trimmed, when one is given.
pub fn trim_new_name(name: Option<String>) -> (r: Option<String>)
    ensures
        opt_view(r) == match name {
            Some(n) => Some(trim(n@)),
            None => None,
        },
{
    match name {
        Some(n) => Some(string_of(&trim_vec(&chars_of(n.as_str())))),
        None => None,
    }
}

/// Checks a hotkey before the settings are saved: a refused combination is
/// reported as an invalid value with the refusal's text.
pub fn check_hotkey(hotkey: &str) -> (r: Result<(), AppError>)
    ensures
        match r {
            Ok(()) => shortcut_verdict(hotkey@) == ShortcutVerdict::Accepted,
            Err(e) => shortcut_verdict(hotkey@) != ShortcutVerdict::Accepted && e@
                == AppErrorView::InvalidUrl(shortcut_message(shortcut_verdict(hotkey@))),
        },
{
    match validate_shortcut(hotkey) {
        Ok(()) => Ok(()),
        Err(e) => Err(AppError::InvalidUrl(e.message())),
    }
}

/// Whether a saved hotkey differs from the one registered before, so that the
/// old one has to be released and the new one registered.
pub fn hotkey_changed(old: &str, new: &str) -> (b: bool)
    ensures
        b == (old@ != new@),
{
    !same_chars(&chars_of(old), &chars_of(new))
}

} // verus!
