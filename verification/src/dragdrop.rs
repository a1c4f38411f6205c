//! Turning dropped items (file paths, links, `text/uri-list` text) into link drafts.
//!
//! Files are read by the caller; this module decides what an item is and what
//! links it yields. Items that are not `http`/`https` links are skipped.

use vstd::prelude::*;

use crate::error::AppError;
use crate::models::UrlDraft;
use crate::text::{
    chars_of, ends_with, has_char, has_prefix, has_suffix, slice_vec, split_char, split_vec,
    starts_with, string_of, trim, trim_vec,
};

verus! {

/// Only `http://` and `https://` links are taken.
pub open spec fn safe_web(s: Seq<char>) -> bool {
    starts_with(s, "http://"@) || starts_with(s, "https://"@)
}

pub fn is_safe_web_chars(v: &[char]) -> (b: bool)
    ensures
        b == safe_web(v@),
{
    let a = chars_of("http://");
    let b = chars_of("https://");
    has_prefix(v, &a) || has_prefix(v, &b)
}

/// Whether `s` starts with `http://` or `https://`.
pub fn is_safe_web(s: &str) -> (b: bool)
    ensures
        b == safe_web(s@),
{
    let v = chars_of(s);
    is_safe_web_chars(&v)
}

/// What the anchor regular expression
/// `(?i)<a\b[^>]*\bhref\s*=\s*["'](?P<url>[^"']+)["'][^>]*>(?P<title>.*?)</a>`
/// captures in `html`: the `url` and `title` groups of each match, in order.
pub uninterp spec fn anchor_captures(html: Seq<char>) -> Seq<(Seq<char>, Seq<char>)>;

/// Builds the anchor regular expression with `regex::Regex::new` and collects
/// the `url` and `title` groups of `captures_iter` over `html`. The claim is
/// only that the outcome is the one named by `anchor_captures`. The pattern is
/// a valid constant, so `expect` does not fire; both groups take part in every
/// match, so indexing them does not fire either.
#[verifier::external_body]
fn regex_anchor_captures(html: &str) -> (r: Vec<(String, String)>)
    ensures
        r@.len() == anchor_captures(html@).len(),
        forall|i: int|
            0 <= i < r@.len() ==> (#[trigger] r@[i]).0@ == anchor_captures(html@)[i].0 && r@[i].1@
                == anchor_captures(html@)[i].1,
{
    let re = regex::Regex::new(
        r#"(?i)<a\b[^>]*\bhref\s*=\s*["'](?P<url>[^"']+)["'][^>]*>(?P<title>.*?)</a>"#,
    ).expect("static regex");
    re.captures_iter(html).map(|c| (c["url"].to_string(), c["title"].to_string())).collect()
}

/// `Some(t)` for a non-empty `t`, else `None`.
pub open spec fn nonempty(t: Seq<char>) -> Option<Seq<char>> {
    if t.len() > 0 {
        Some(t)
    } else {
        None
    }
}

/// The safe links among the anchor captures, with trimmed titles.
pub open spec fn safe_anchor_links(caps: Seq<(Seq<char>, Seq<char>)>) -> Seq<
    (Seq<char>, Option<Seq<char>>),
>
    decreases caps.len(),
{
    if caps.len() == 0 {
        Seq::empty()
    } else {
        let r = safe_anchor_links(caps.drop_last());
        let u = trim(caps.last().0);
        if safe_web(u) {
            r.push((u, nonempty(trim(caps.last().1))))
        } else {
            r
        }
    }
}

/// The `(url, title)` pairs of the safe anchors in `html`.
pub open spec fn bookmark_links(html: Seq<char>) -> Seq<(Seq<char>, Option<Seq<char>>)> {
    safe_anchor_links(anchor_captures(html))
}

pub open spec fn opt_str_view(o: Option<String>) -> Option<Seq<char>> {
    match o {
        Some(s) => Some(s@),
        None => None,
    }
}

pub open spec fn link_pairs_view(v: Seq<(String, Option<String>)>) -> Seq<
    (Seq<char>, Option<Seq<char>>),
> {
    v.map_values(|p: (String, Option<String>)| (p.0@, opt_str_view(p.1)))
}

pub open spec fn captures_view(v: Seq<(String, String)>) -> Seq<(Seq<char>, Seq<char>)> {
    v.map_values(|p: (String, String)| (p.0@, p.1@))
}

/// The `(url, title)` pairs among anchor captures `(href, text)`: the trimmed
/// URL of each capture that is a web link, with its trimmed text as title
/// (absent when empty).
pub fn links_from_captures(caps: &Vec<(String, String)>) -> (out: Vec<(String, Option<String>)>)
    ensures
        link_pairs_view(out@) == safe_anchor_links(captures_view(caps@)),
{
    let ghost cs = captures_view(caps@);
    let mut out: Vec<(String, Option<String>)> = Vec::new();
    let n = caps.len();
    for i in 0..n
        invariant
            n == cs.len(),
            cs == captures_view(caps@),
            link_pairs_view(out@) == safe_anchor_links(cs.take(i as int)),
    {
        proof {
            assert(cs.take(i + 1).drop_last() == cs.take(i as int));
            assert(cs.take(i + 1).last() == cs[i as int]);
            assert(cs[i as int] == (caps@[i as int].0@, caps@[i as int].1@));
        }
        let u = trim_vec(&chars_of(caps[i].0.as_str()));
        if is_safe_web_chars(&u) {
            let t = trim_vec(&chars_of(caps[i].1.as_str()));
            let title = if t.len() > 0 {
                Some(string_of(&t))
            } else {
                None
            };
            let ghost before = out@;
            let pair = (string_of(&u), title);
            let ghost pv = (pair.0@, opt_str_view(pair.1));
            out.push(pair);
            assert(link_pairs_view(out@) =~= link_pairs_view(before).push(pv));
        }
    }
    assert(cs.take(n as int) == cs);
    out
}

/// Minimal Netscape-bookmark link extraction: `(url, title)` of every
/// `<a href=...>...</a>` whose URL is a web link.
pub fn parse_bookmark_urls(html: &str) -> (out: Vec<(String, Option<String>)>)
    ensures
        link_pairs_view(out@) == bookmark_links(html@),
{
    let caps = regex_anchor_captures(html);
    assert(captures_view(caps@) =~= anchor_captures(html@));
    links_from_captures(&caps)
}

/// The URL of a Windows `.url` shortcut's contents: the first line that reads
/// `URL=<link>` or `url=<link>` (trimmed) with a web link.
///
/// Lines are taken between `\n`; since every line is trimmed, a `\r` before
/// the `\n` and a last empty line change nothing, as with `str::lines`.
pub open spec fn shortcut_url_in(lines: Seq<Seq<char>>) -> Option<Seq<char>>
    decreases lines.len(),
{
    if lines.len() == 0 {
        None
    } else {
        let t = trim(lines[0]);
        let rest = if starts_with(t, "URL="@) || starts_with(t, "url="@) {
            Some(trim(t.subrange(4, t.len() as int)))
        } else {
            None
        };
        if rest is Some && safe_web(rest->0) {
            rest
        } else {
            shortcut_url_in(lines.subrange(1, lines.len() as int))
        }
    }
}

pub open spec fn shortcut_url(contents: Seq<char>) -> Option<Seq<char>> {
    shortcut_url_in(split_char(contents, '\n'))
}

/// Reads the link out of the contents of a Windows `.url` shortcut file.
pub fn internet_shortcut_url(contents: &str) -> (r: Option<String>)
    ensures
        opt_str_view(r) == shortcut_url(contents@),
{
    let v = chars_of(contents);
    let lines = split_vec(&v, '\n');
    let ghost ls = split_char(contents@, '\n');
    let n = lines.len();
    let up = chars_of("URL=");
    let lo = chars_of("url=");
    proof {
        reveal_strlit("URL=");
        reveal_strlit("url=");
    }
    assert(ls.subrange(0, n as int) == ls);
    for i in 0..n
        invariant
            n == ls.len(),
            lines@.len() == n,
            forall|k: int| 0 <= k < n ==> #[trigger] lines@[k]@ == ls[k],
            up@ == "URL="@,
            lo@ == "url="@,
            up@.len() == 4,
            lo@.len() == 4,
            shortcut_url(contents@) == shortcut_url_in(ls.subrange(i as int, n as int)),
    {
        let t = trim_vec(&lines[i]);
        proof {
            assert(ls.subrange(i as int, n as int)[0] == ls[i as int]);
            assert(ls.subrange(i as int, n as int).subrange(1, (n - i) as int) == ls.subrange(
                i + 1,
                n as int,
            ));
        }
        if has_prefix(&t, &up) || has_prefix(&t, &lo) {
            let rest = trim_vec(&slice_vec(&t, 4, t.len()));
            if is_safe_web_chars(&rest) {
                return Some(string_of(&rest));
            }
        }
    }
    None
}

/// Kinds of dropped items.
pub enum DropKind {
    /// Blank text; skipped.
    Blank,
    /// A path ending in `.html` or `.htm` that is not itself a web link: a
    /// bookmark file to read.
    BookmarkFile,
    /// A path ending in `.url` that is not itself a web link: a Windows
    /// shortcut file to read.
    ShortcutFile,
    /// Several lines of text (`text/uri-list`).
    Lines,
    /// A single line: a direct web link, or something else that is skipped.
    Single,
}

/// What a dropped item is. Text of several lines is split into lines; a
/// single line that is an `http`/`https` link is a direct link, whatever it
/// ends with; only other single lines are taken as file paths by their
/// ending.
pub open spec fn drop_kind(item: Seq<char>) -> DropKind {
    let t = trim(item);
    if t.len() == 0 {
        DropKind::Blank
    } else if t.contains('\n') || t.contains('\r') {
        DropKind::Lines
    } else if safe_web(t) {
        DropKind::Single
    } else if ends_with(t, ".html"@) || ends_with(t, ".htm"@) {
        DropKind::BookmarkFile
    } else if ends_with(t, ".url"@) {
        DropKind::ShortcutFile
    } else {
        DropKind::Single
    }
}

/// Decides what a dropped item is (whether a file has to be read for it).
pub fn classify_drop(item: &str) -> (k: DropKind)
    ensures
        k == drop_kind(item@),
{
    let t = trim_vec(&chars_of(item));
    if t.len() == 0 {
        DropKind::Blank
    } else if has_char(&t, '\n') || has_char(&t, '\r') {
        DropKind::Lines
    } else if is_safe_web_chars(&t) {
        DropKind::Single
    } else if has_suffix(&t, &chars_of(".html")) || has_suffix(&t, &chars_of(".htm")) {
        DropKind::BookmarkFile
    } else if has_suffix(&t, &chars_of(".url")) {
        DropKind::ShortcutFile
    } else {
        DropKind::Single
    }
}

/// A dropped item with the contents of the file it names, when it names a
/// bookmark or shortcut file that could be read.
pub struct DroppedItem {
    pub item: String,
    pub contents: Option<String>,
}

/// Mathematical form of a draft: `(url, title, category_id)`.
pub open spec fn draft_view(d: UrlDraft) -> (Seq<char>, Option<Seq<char>>, Option<Seq<char>>) {
    (d.url@, opt_str_view(d.title), opt_str_view(d.category_id))
}

pub open spec fn drafts_view(v: Seq<UrlDraft>) -> Seq<(Seq<char>, Option<Seq<char>>, Option<Seq<char>>)> {
    v.map_values(|d: UrlDraft| draft_view(d))
}

pub open spec fn link_draft(u: Seq<char>, t: Option<Seq<char>>) -> (Seq<char>, Option<Seq<char>>, Option<Seq<char>>) {
    (u, t, None)
}

/// Drafts for each web link among trimmed lines.
pub open spec fn line_drafts(lines: Seq<Seq<char>>) -> Seq<(Seq<char>, Option<Seq<char>>, Option<Seq<char>>)>
    decreases lines.len(),
{
    if lines.len() == 0 {
        Seq::empty()
    } else {
        let r = line_drafts(lines.drop_last());
        let t = trim(lines.last());
        if safe_web(t) {
            r.push(link_draft(t, None))
        } else {
            r
        }
    }
}

pub open spec fn pair_drafts(p: Seq<(Seq<char>, Option<Seq<char>>)>) -> Seq<(Seq<char>, Option<Seq<char>>, Option<Seq<char>>)> {
    p.map_values(|x: (Seq<char>, Option<Seq<char>>)| link_draft(x.0, x.1))
}

/// The drafts one dropped item yields.
pub open spec fn item_drafts(item: Seq<char>, contents: Option<Seq<char>>) -> Seq<(Seq<char>, Option<Seq<char>>, Option<Seq<char>>)> {
    let t = trim(item);
    match drop_kind(item) {
        DropKind::Blank => Seq::empty(),
        DropKind::BookmarkFile => match contents {
            Some(c) => pair_drafts(bookmark_links(c)),
            None => Seq::empty(),
        },
        DropKind::ShortcutFile => match contents {
            Some(c) => match shortcut_url(c) {
                Some(u) => seq![link_draft(u, None)],
                None => Seq::empty(),
            },
            None => Seq::empty(),
        },
        DropKind::Lines => line_drafts(split_char(t, '\n')),
        DropKind::Single => if safe_web(t) {
            seq![link_draft(t, None)]
        } else {
            Seq::empty()
        },
    }
}

pub open spec fn dropped_view(d: DroppedItem) -> (Seq<char>, Option<Seq<char>>) {
    (d.item@, opt_str_view(d.contents))
}

/// The drafts of all items, in order.
pub open spec fn all_drafts(items: Seq<(Seq<char>, Option<Seq<char>>)>) -> Seq<(Seq<char>, Option<Seq<char>>, Option<Seq<char>>)>
    decreases items.len(),
{
    if items.len() == 0 {
        Seq::empty()
    } else {
        all_drafts(items.drop_last()) + item_drafts(items.last().0, items.last().1)
    }
}

fn new_draft(url: String, title: Option<String>) -> (d: UrlDraft)
    ensures
        draft_view(d) == link_draft(url@, opt_str_view(title)),
{
    UrlDraft { url, title, category_id: None }
}

fn push_drafts_of_item(out: &mut Vec<UrlDraft>, it: &DroppedItem)
    ensures
        drafts_view(final(out)@) == drafts_view(old(out)@) + item_drafts(
            it.item@,
            opt_str_view(it.contents),
        ),
{
    let ghost start = drafts_view(out@);
    let t = trim_vec(&chars_of(it.item.as_str()));
    match classify_drop(it.item.as_str()) {
        DropKind::Blank => {
            assert(drafts_view(out@) =~= start + Seq::empty());
        },
        DropKind::BookmarkFile => {
            match &it.contents {
                Some(c) => {
                    let pairs = parse_bookmark_urls(c.as_str());
                    let ghost ps = bookmark_links(c@);
                    let m = pairs.len();
                    for j in 0..m
                        invariant
                            m == pairs@.len(),
                            link_pairs_view(pairs@) == ps,
                            drafts_view(out@) == start + pair_drafts(ps.take(j as int)),
                    {
                        let d = new_draft(pairs[j].0.clone(), pairs[j].1.clone());
                        let ghost before = out@;
                        assert(pair_drafts(ps.take(j + 1)) =~= pair_drafts(ps.take(j as int)).push(
                            link_draft(ps[j as int].0, ps[j as int].1),
                        ));
                        out.push(d);
                        assert(drafts_view(out@) =~= drafts_view(before).push(draft_view(d)));
                    }
                    assert(ps.take(m as int) == ps);
                },
                None => {
                    assert(drafts_view(out@) =~= start + Seq::empty());
                },
            }
        },
        DropKind::ShortcutFile => {
            match &it.contents {
                Some(c) => {
                    match internet_shortcut_url(c.as_str()) {
                        Some(u) => {
                            let d = new_draft(u, None);
                            out.push(d);
                            assert(drafts_view(out@) =~= start + seq![draft_view(d)]);
                        },
                        None => {
                            assert(drafts_view(out@) =~= start + Seq::empty());
                        },
                    }
                },
                None => {
                    assert(drafts_view(out@) =~= start + Seq::empty());
                },
            }
        },
        DropKind::Lines => {
            let lines = split_vec(&t, '\n');
            let ghost ls = split_char(t@, '\n');
            let m = lines.len();
            for j in 0..m
                invariant
                    m == ls.len(),
                    lines@.len() == m,
                    forall|k: int| 0 <= k < m ==> #[trigger] lines@[k]@ == ls[k],
                    drafts_view(out@) == start + line_drafts(ls.take(j as int)),
            {
                proof {
                    assert(ls.take(j + 1).drop_last() == ls.take(j as int));
                    assert(ls.take(j + 1).last() == ls[j as int]);
                }
                let l = trim_vec(&lines[j]);
                if is_safe_web_chars(&l) {
                    let d = new_draft(string_of(&l), None);
                    let ghost before = out@;
                    out.push(d);
                    assert(drafts_view(out@) =~= drafts_view(before).push(draft_view(d)));
                }
            }
            assert(ls.take(m as int) == ls);
        },
        DropKind::Single => {
            if is_safe_web_chars(&t) {
                let d = new_draft(string_of(&t), None);
                out.push(d);
                assert(drafts_view(out@) =~= start + seq![draft_view(d)]);
            } else {
                assert(drafts_view(out@) =~= start + Seq::empty());
            }
        },
    }
}

/// Resolves dropped items into link drafts; never fails. Invalid or unsafe
/// items are skipped.
pub fn resolve_dropped(items: Vec<DroppedItem>) -> (r: Result<Vec<UrlDraft>, AppError>)
    ensures
        r is Ok,
        drafts_view(r->Ok_0@) == all_drafts(items@.map_values(|d: DroppedItem| dropped_view(d))),
{
    let ghost iv = items@.map_values(|d: DroppedItem| dropped_view(d));
    let mut out: Vec<UrlDraft> = Vec::new();
    let n = items.len();
    for i in 0..n
        invariant
            n == items@.len(),
            iv == items@.map_values(|d: DroppedItem| dropped_view(d)),
            drafts_view(out@) == all_drafts(iv.take(i as int)),
    {
        proof {
            assert(iv.take(i + 1).drop_last() == iv.take(i as int));
            assert(iv.take(i + 1).last() == dropped_view(items@[i as int]));
        }
        push_drafts_of_item(&mut out, &items[i]);
    }
    assert(iv.take(n as int) == iv);
    Ok(out)
}

} // verus!

verus! {

/// Every draft is a web link and carries no category.
pub open spec fn web_drafts(ds: Seq<(Seq<char>, Option<Seq<char>>, Option<Seq<char>>)>) -> bool {
    forall|i: int| 0 <= i < ds.len() ==> safe_web(#[trigger] ds[i].0) && ds[i].2 is None
}

proof fn lemma_anchor_links_web(caps: Seq<(Seq<char>, Seq<char>)>)
    ensures
        forall|i: int|
            0 <= i < safe_anchor_links(caps).len() ==> safe_web(#[trigger] safe_anchor_links(caps)[i].0),
    decreases caps.len(),
{
    if caps.len() > 0 {
        lemma_anchor_links_web(caps.drop_last());
        let r = safe_anchor_links(caps.drop_last());
        let u = trim(caps.last().0);
        if safe_web(u) {
            let s = r.push((u, nonempty(trim(caps.last().1))));
            assert forall|i: int| 0 <= i < s.len() implies safe_web(#[trigger] s[i].0) by {
                if i < r.len() {
                    assert(s[i] == r[i]);
                }
            }
        }
    }
}

proof fn lemma_line_drafts_web(lines: Seq<Seq<char>>)
    ensures
        web_drafts(line_drafts(lines)),
    decreases lines.len(),
{
    if lines.len() > 0 {
        lemma_line_drafts_web(lines.drop_last());
    }
}

proof fn lemma_shortcut_url_web(lines: Seq<Seq<char>>)
    ensures
        shortcut_url_in(lines) is Some ==> safe_web(shortcut_url_in(lines)->0),
    decreases lines.len(),
{
    if lines.len() > 0 {
        lemma_shortcut_url_web(lines.subrange(1, lines.len() as int));
    }
}

proof fn lemma_item_drafts_web(item: Seq<char>, contents: Option<Seq<char>>)
    ensures
        web_drafts(item_drafts(item, contents)),
{
    match drop_kind(item) {
        DropKind::BookmarkFile => {
            if let Some(c) = contents {
                let p = bookmark_links(c);
                lemma_anchor_links_web(anchor_captures(c));
                assert forall|i: int| 0 <= i < pair_drafts(p).len() implies safe_web(
                    #[trigger] pair_drafts(p)[i].0,
                ) && pair_drafts(p)[i].2 is None by {
                    assert(pair_drafts(p)[i] == link_draft(p[i].0, p[i].1));
                }
            }
        },
        DropKind::ShortcutFile => {
            if let Some(c) = contents {
                lemma_shortcut_url_web(split_char(c, '\n'));
            }
        },
        DropKind::Lines => {
            lemma_line_drafts_web(split_char(trim(item), '\n'));
        },
        _ => {},
    }
}

/// Only `http`/`https` links come out of a drop, none of them filed under a
/// category yet, whatever was dropped.
pub proof fn law_drafts_are_web_links(items: Seq<(Seq<char>, Option<Seq<char>>)>)
    ensures
        forall|i: int|
            0 <= i < all_drafts(items).len() ==> safe_web(#[trigger] all_drafts(items)[i].0)
                && all_drafts(items)[i].2 is None,
    decreases items.len(),
{
    if items.len() > 0 {
        law_drafts_are_web_links(items.drop_last());
        lemma_item_drafts_web(items.last().0, items.last().1);
        let a = all_drafts(items.drop_last());
        let b = item_drafts(items.last().0, items.last().1);
        assert forall|i: int| 0 <= i < (a + b).len() implies safe_web(#[trigger] (a + b)[i].0) && (a
            + b)[i].2 is None by {
            if i < a.len() {
                assert((a + b)[i] == a[i]);
            } else {
                assert((a + b)[i] == b[i - a.len()]);
            }
        }
    }
}

} // verus!
