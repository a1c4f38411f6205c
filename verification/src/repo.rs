//! The computing side of the stores for links, categories and settings:
//! search patterns, record construction, sort orders and the key/value form
//! of the settings. The SQL statements themselves run outside this crate.

use vstd::prelude::*;

use crate::models::{Category, Settings, Url};
use crate::normalize::{normalize_url, normalized};
use crate::text::{append_chars, append_str, chars_of, is_str, string_of, trim, trim_vec};

verus! {

// ---------------------------------------------------------------------------
// Search pattern
// ---------------------------------------------------------------------------

/// `LIKE` escaping with `\`: `%`, `_` and `\` are preceded by `\`.
pub open spec fn like_escape(s: Seq<char>) -> Seq<char>
    decreases s.len(),
{
    if s.len() == 0 {
        Seq::<char>::empty()
    } else {
        let r = like_escape(s.drop_last());
        let c = s.last();
        if c == '%' || c == '_' || c == '\\' {
            r.push('\\').push(c)
        } else {
            r.push(c)
        }
    }
}

/// How `LIKE ... ESCAPE '\'` reads a pattern's literal text: `\` takes the
/// next character literally.
pub open spec fn like_unescape(p: Seq<char>) -> Seq<char>
    decreases p.len(),
{
    if p.len() == 0 {
        Seq::<char>::empty()
    } else if p[0] == '\\' && p.len() >= 2 {
        seq![p[1]] + like_unescape(p.subrange(2, p.len() as int))
    } else {
        seq![p[0]] + like_unescape(p.subrange(1, p.len() as int))
    }
}

/// The `LIKE` pattern for a search: the escaped text between `%` wildcards, or
/// `%` alone when there is no (non-blank) search text.
pub open spec fn like_pattern_of(search: Option<Seq<char>>) -> Seq<char> {
    match search {
        Some(s) => if trim(s).len() > 0 {
            "%"@ + like_escape(s) + "%"@
        } else {
            "%"@
        },
        None => "%"@,
    }
}

/// Builds the `LIKE` pattern used to search titles, URLs and category names.
pub fn like_pattern(search: Option<&str>) -> (p: String)
    ensures
        p@ == like_pattern_of(
            match search {
                Some(s) => Some(s@),
                None => None,
            },
        ),
{
    match search {
        Some(s) => {
            let v = chars_of(s);
            let t = trim_vec(&v);
            if t.len() == 0 {
                return String::from_str("%");
            }
            let mut out: Vec<char> = Vec::new();
            append_str(&mut out, "%");
            let ghost start = out@;
            let n = v.len();
            for i in 0..n
                invariant
                    n == v@.len(),
                    out@ == start + like_escape(v@.take(i as int)),
            {
                let c = v[i];
                proof {
                    assert(v@.take(i + 1).drop_last() == v@.take(i as int));
                    assert(v@.take(i + 1).last() == c);
                }
                if c == '%' || c == '_' || c == '\\' {
                    out.push('\\');
                }
                out.push(c);
            }
            assert(v@.take(n as int) == v@);
            append_str(&mut out, "%");
            string_of(&out)
        },
        None => String::from_str("%"),
    }
}

/// `like_escape(a + b)` is the escaped `a` followed by the escaped `b`.
proof fn lemma_like_escape_concat(a: Seq<char>, b: Seq<char>)
    ensures
        like_escape(a + b) == like_escape(a) + like_escape(b),
    decreases b.len(),
{
    if b.len() == 0 {
        assert(a + b == a);
    } else {
        lemma_like_escape_concat(a, b.drop_last());
        assert((a + b).drop_last() == a + b.drop_last());
        assert((a + b).last() == b.last());
    }
}

/// The search text is matched literally: reading the escaped text back as a
/// `LIKE ... ESCAPE '\'` pattern gives the search text itself, so `%`, `_`
/// and `\` typed by the user are not wildcards.
pub proof fn law_search_text_literal(s: Seq<char>)
    ensures
        like_unescape(like_escape(s)) == s,
    decreases s.len(),
{
    if s.len() > 0 {
        let c = s[0];
        let rest = s.subrange(1, s.len() as int);
        assert(s == seq![c] + rest);
        lemma_like_escape_concat(seq![c], rest);
        assert(seq![c].drop_last() == Seq::<char>::empty());
        let e = like_escape(rest);
        law_search_text_literal(rest);
        reveal_with_fuel(like_escape, 2);
        assert(seq![c].last() == c);
        if c == '%' || c == '_' || c == '\\' {
            assert(like_escape(seq![c]) == seq!['\\', c]);
            let p = seq!['\\', c] + e;
            assert(p.subrange(2, p.len() as int) == e);
        } else {
            assert(like_escape(seq![c]) == seq![c]);
            let p = seq![c] + e;
            assert(p.subrange(1, p.len() as int) == e);
        }
    }
}

// ---------------------------------------------------------------------------
// Settings as key/value rows
// ---------------------------------------------------------------------------

/// The hotkey used when none is stored.
pub open spec fn default_hotkey() -> Seq<char> {
    "Ctrl+Alt+Space"@
}

pub open spec fn bool_text(b: bool) -> Seq<char> {
    if b {
        "true"@
    } else {
        "false"@
    }
}

/// The settings read from the stored values of the keys `hotkey`,
/// `default_browser` and `autostart` (`None` for a missing key).
pub open spec fn settings_from(
    hotkey: Option<Seq<char>>,
    browser: Option<Seq<char>>,
    autostart: Option<Seq<char>>,
) -> (Seq<char>, Seq<char>, bool) {
    (
        match hotkey {
            Some(h) => h,
            None => default_hotkey(),
        },
        match browser {
            Some(b) => b,
            None => Seq::<char>::empty(),
        },
        match autostart {
            Some(a) => a == "true"@,
            None => false,
        },
    )
}

pub open spec fn settings_view(s: Settings) -> (Seq<char>, Seq<char>, bool) {
    (s.hotkey@, s.default_browser@, s.autostart)
}

pub open spec fn opt_view(o: Option<String>) -> Option<Seq<char>> {
    match o {
        Some(s) => Some(s@),
        None => None,
    }
}

/// Assembles the settings from stored values, with safe defaults for missing
/// keys.
pub fn settings_from_values(
    hotkey: Option<String>,
    default_browser: Option<String>,
    autostart: Option<String>,
) -> (s: Settings)
    ensures
        settings_view(s) == settings_from(
            opt_view(hotkey),
            opt_view(default_browser),
            opt_view(autostart),
        ),
{
    let h = match hotkey {
        Some(h) => h,
        None => String::from_str("Ctrl+Alt+Space"),
    };
    let b = match default_browser {
        Some(b) => b,
        None => String::new(),
    };
    let a = match &autostart {
        Some(a) => is_str(&chars_of(a.as_str()), "true"),
        None => false,
    };
    Settings { hotkey: h, default_browser: b, autostart: a }
}

/// The key/value rows that store `s`, in the order they are written.
pub open spec fn settings_rows(s: (Seq<char>, Seq<char>, bool)) -> Seq<(Seq<char>, Seq<char>)> {
    seq![("hotkey"@, s.0), ("default_browser"@, s.1), ("autostart"@, bool_text(s.2))]
}

pub open spec fn rows_view(v: Seq<(String, String)>) -> Seq<(Seq<char>, Seq<char>)> {
    v.map_values(|r: (String, String)| (r.0@, r.1@))
}

/// The key/value rows to write for the given settings.
pub fn settings_to_values(s: &Settings) -> (rows: Vec<(String, String)>)
    ensures
        rows_view(rows@) == settings_rows(settings_view(*s)),
{
    let mut rows: Vec<(String, String)> = Vec::new();
    rows.push((String::from_str("hotkey"), s.hotkey.clone()));
    rows.push((String::from_str("default_browser"), s.default_browser.clone()));
    let a = if s.autostart {
        String::from_str("true")
    } else {
        String::from_str("false")
    };
    rows.push((String::from_str("autostart"), a));
    assert(rows_view(rows@) =~= settings_rows(settings_view(*s)));
    rows
}

/// The rows written on first start, when no hotkey is stored yet.
pub open spec fn default_rows() -> Seq<(Seq<char>, Seq<char>)> {
    seq![("hotkey"@, default_hotkey()), ("default_browser"@, Seq::<char>::empty()), ("autostart"@, "false"@)]
}

/// The default rows, written on first start.
pub fn default_settings_values() -> (rows: Vec<(String, String)>)
    ensures
        rows_view(rows@) == default_rows(),
{
    let mut rows: Vec<(String, String)> = Vec::new();
    rows.push((String::from_str("hotkey"), String::from_str("Ctrl+Alt+Space")));
    rows.push((String::from_str("default_browser"), String::new()));
    rows.push((String::from_str("autostart"), String::from_str("false")));
    assert(rows_view(rows@) =~= default_rows());
    rows
}

/// Reading back what was written gives the same settings.
pub proof fn law_settings_roundtrip(s: (Seq<char>, Seq<char>, bool))
    ensures
        settings_from(
            Some(settings_rows(s)[0].1),
            Some(settings_rows(s)[1].1),
            Some(settings_rows(s)[2].1),
        ) == s,
{
    reveal_strlit("true");
    reveal_strlit("false");
    let r = settings_rows(s);
    assert(r[0].1 == s.0);
    assert(r[1].1 == s.1);
    assert(r[2].1 == bool_text(s.2));
    assert(("true"@ == "false"@) == false);
}

/// The defaults written on first start read back as the defaults that a
/// store without any settings row gives.
pub proof fn law_default_rows_match_missing_keys()
    ensures
        settings_from(Some(default_rows()[0].1), Some(default_rows()[1].1), Some(default_rows()[2].1))
            == settings_from(None, None, None),
{
    reveal_strlit("true");
    reveal_strlit("false");
    let r = default_rows();
    assert(r[0].1 == default_hotkey());
    assert(r[1].1 == Seq::<char>::empty());
    assert(r[2].1 == "false"@);
    assert(("true"@ == "false"@) == false);
}

// ---------------------------------------------------------------------------
// New records
// ---------------------------------------------------------------------------

/// Calls `uuid::Uuid::new_v4` and `to_string`. The identifier is random; the
/// claim is only its hyphenated length of 36 characters.
#[verifier::external_body]
fn new_uuid() -> (id: String)
    ensures
        id@.len() == 36,
{
    uuid::Uuid::new_v4().to_string()
}

/// Calls `chrono::Utc::now` and `to_rfc3339`. The value depends on the clock;
/// nothing is claimed about it.
#[verifier::external_body]
fn now_rfc3339() -> (t: String) {
    chrono::Utc::now().to_rfc3339()
}

/// A new link record and the normal form of its URL, with a fresh id and
/// creation time. The favicon is not known yet.
pub fn new_link_record(
    url: &str,
    title: Option<String>,
    category_id: Option<String>,
    note: Option<String>,
) -> (r: (Url, String))
    ensures
        r.0.url@ == url@,
        r.0.title == title,
        r.0.category_id == category_id,
        r.0.note == note,
        r.0.favicon_path is None,
        r.0.id@.len() == 36,
        r.1@ == normalized(url@),
{
    let id = new_uuid();
    let created_at = now_rfc3339();
    let norm = normalize_url(url);
    let rec = Url {
        id,
        title,
        url: String::from_str(url),
        category_id,
        note,
        favicon_path: None,
        created_at,
    };
    (rec, norm)
}

/// A new category record placed after all others (`sort` one above the
/// largest present), with a fresh id, creation time and no links.
pub fn new_category_record(
    name: &str,
    color: Option<String>,
    icon: Option<String>,
    max_sort: i64,
) -> (c: Category)
    requires
        max_sort < i64::MAX,
    ensures
        c.name@ == name@,
        c.sort == max_sort + 1,
        c.color == color,
        c.icon == icon,
        c.count == 0,
        c.id@.len() == 36,
{
    let id = new_uuid();
    let created_at = now_rfc3339();
    Category { id, name: String::from_str(name), sort: max_sort + 1, color, icon, created_at, count: 0 }
}

/// Sort weights for a drag-and-drop reordering: the `i`-th id gets weight `i`.
pub fn reorder_assignments(ordered_ids: &Vec<String>) -> (r: Vec<(String, i64)>)
    requires
        ordered_ids@.len() <= i64::MAX,
    ensures
        r@.len() == ordered_ids@.len(),
        forall|i: int|
            0 <= i < r@.len() ==> (#[trigger] r@[i]).0@ == ordered_ids@[i]@ && r@[i].1 == i,
{
    let mut r: Vec<(String, i64)> = Vec::new();
    let n = ordered_ids.len();
    for i in 0..n
        invariant
            n == ordered_ids@.len(),
            n <= i64::MAX,
            r@.len() == i,
            forall|k: int|
                0 <= k < i ==> (#[trigger] r@[k]).0@ == ordered_ids@[k]@ && r@[k].1 == k,
    {
        r.push((ordered_ids[i].clone(), i as i64));
    }
    r
}

} // verus!
