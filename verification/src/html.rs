//! HTML documents as a flat list of nodes, and what the library reads from
//! them: the links of a Netscape bookmark file with their folders, and the
//! title and icon link of a web page.

use vstd::prelude::*;

use crate::dragdrop::{nonempty, opt_str_view, safe_web};
use crate::models::ParsedBookmark;
use crate::text::{
    append_chars, chars_of, is_str, lower, lower_vec, same_chars, string_of, trim, trim_vec,
};

verus! {

/// What a node of a parsed HTML document is.
pub enum DomKind {
    /// An element: its local name and `href` attribute.
    Element { name: String, href: Option<String> },
    /// A text node.
    Text(String),
    /// Any other node (document, doctype, comment, ...).
    Other,
}

/// A node with its depth (number of ancestors); nodes come in document order.
pub struct DomNode {
    pub depth: usize,
    pub kind: DomKind,
}

pub enum DomKindView {
    Element {
        name: Seq<char>,
        href: Option<Seq<char>>,
    },
    Text(Seq<char>),
    Other,
}

pub struct DomNodeView {
    pub depth: nat,
    pub kind: DomKindView,
}

impl View for DomNode {
    type V = DomNodeView;

    open spec fn view(&self) -> DomNodeView {
        DomNodeView {
            depth: self.depth as nat,
            kind: match self.kind {
                DomKind::Element { name, href } => DomKindView::Element {
                    name: name@,
                    href: opt_str_view(href),
                },
                DomKind::Text(t) => DomKindView::Text(t@),
                DomKind::Other => DomKindView::Other,
            },
        }
    }
}

pub open spec fn nodes_view(v: Seq<DomNode>) -> Seq<DomNodeView> {
    v.map_values(|n: DomNode| n@)
}

/// The nodes of the document `scraper::Html::parse_document` builds from
/// `html`, in document order, each with its depth.
pub uninterp spec fn html_document_nodes(html: Seq<char>) -> Seq<DomNodeView>;

/// Parses `html` with `scraper::Html::parse_document` and lists the
/// document's nodes in document order (`descendants` of the tree's root), each
/// with `ancestors().count()` as depth and, for elements, `name()` and the
/// `href` attribute (`attr`), for text nodes their text. The claim is only that the list is the one named by
/// `html_document_nodes`; HTML parsing is not restated.
#[verifier::external_body]
pub(crate) fn html_nodes(html: &str) -> (r: Vec<DomNode>)
    ensures
        nodes_view(r@) == html_document_nodes(html@),
{
    let doc = scraper::Html::parse_document(html);
    doc.tree.root().descendants().map(|n| DomNode {
        depth: n.ancestors().count(),
        kind: match n.value() {
            scraper::Node::Element(e) => DomKind::Element {
                name: e.name().to_string(),
                href: e.attr("href").map(|h| h.to_string()),
            },
            scraper::Node::Text(t) => DomKind::Text(t.to_string()),
            _ => DomKind::Other,
        },
    }).collect()
}

/// Text of a node: the characters of a text node, nothing for others.
pub open spec fn node_text(n: DomNodeView) -> Seq<char> {
    match n.kind {
        DomKindView::Text(t) => t,
        _ => Seq::<char>::empty(),
    }
}

/// Whether a node is an element with the given local name.
pub open spec fn is_element_named(n: DomNodeView, name: Seq<char>) -> bool {
    match n.kind {
        DomKindView::Element { name: m, .. } => m == name,
        _ => false,
    }
}

/// End of the subtree of node `i`: the first node from `j` on that is not
/// deeper than `i`.
pub open spec fn subtree_end(ns: Seq<DomNodeView>, i: int, j: int) -> int
    decreases ns.len() - j,
{
    if j < 0 || j >= ns.len() {
        ns.len() as int
    } else if ns[j].depth <= ns[i].depth {
        j
    } else {
        subtree_end(ns, i, j + 1)
    }
}

/// The texts of the nodes in `[lo, hi)`, concatenated.
pub open spec fn texts_between(ns: Seq<DomNodeView>, lo: int, hi: int) -> Seq<char>
    decreases hi - lo,
{
    if hi <= lo {
        Seq::<char>::empty()
    } else {
        texts_between(ns, lo, hi - 1) + node_text(ns[hi - 1])
    }
}

/// The text content of node `i`: the texts of its descendants, in order.
pub open spec fn element_text(ns: Seq<DomNodeView>, i: int) -> Seq<char> {
    texts_between(ns, i + 1, subtree_end(ns, i, i + 1))
}

/// The text content of node `i`.
pub fn element_text_of(ns: &Vec<DomNode>, i: usize) -> (t: Vec<char>)
    requires
        i < ns@.len(),
    ensures
        t@ == element_text(nodes_view(ns@), i as int),
{
    let ghost nv = nodes_view(ns@);
    let mut out: Vec<char> = Vec::new();
    let n = ns.len();
    let mut j = i + 1;
    let d = ns[i].depth;
    while j < n && ns[j].depth > d
        invariant
            n == ns@.len(),
            nv == nodes_view(ns@),
            i < j <= ns@.len(),
            d == ns@[i as int].depth,
            out@ == texts_between(nv, i + 1, j as int),
            subtree_end(nv, i as int, i + 1) == subtree_end(nv, i as int, j as int),
        decreases ns@.len() - j,
    {
        assert(nv[j as int] == ns@[j as int]@);
        match &ns[j].kind {
            DomKind::Text(s) => {
                let c = chars_of(s.as_str());
                append_chars(&mut out, &c);
            },
            _ => {},
        }
        j = j + 1;
    }
    out
}

/// The heading that names a list at depth `d`, scanning backwards from `k`:
/// the nearest earlier sibling element (nodes inside earlier siblings, and
/// text or comment nodes, are passed over), when it is an `h3` whose trimmed
/// text is not empty.
pub open spec fn heading_scan(ns: Seq<DomNodeView>, k: int, d: nat) -> Option<Seq<char>>
    decreases k + 1,
{
    if k < 0 || k >= ns.len() {
        None
    } else if ns[k].depth < d {
        None
    } else if ns[k].depth > d || !(ns[k].kind is Element) {
        heading_scan(ns, k - 1, d)
    } else if is_element_named(ns[k], "h3"@) && trim(element_text(ns, k)).len() > 0 {
        Some(trim(element_text(ns, k)))
    } else {
        None
    }
}

/// The folder of a node: walking up its ancestors, the first `dl` list that
/// comes right after an `h3` heading names the folder. In a Netscape bookmark
/// file a folder is `<DT><H3>name</H3><DL>...links...</DL>`, the heading being
/// the list's previous sibling. `k` scans backwards; a node shallower than `d`
/// (the depth of the last ancestor met) is the next ancestor.
pub open spec fn folder_scan(ns: Seq<DomNodeView>, k: int, d: nat) -> Option<Seq<char>>
    decreases k + 1,
{
    if k < 0 || k >= ns.len() {
        None
    } else if ns[k].depth < d {
        if is_element_named(ns[k], "dl"@) && heading_scan(ns, k - 1, ns[k].depth) is Some {
            heading_scan(ns, k - 1, ns[k].depth)
        } else {
            folder_scan(ns, k - 1, ns[k].depth)
        }
    } else {
        folder_scan(ns, k - 1, d)
    }
}

/// The folder name of node `i`.
pub open spec fn folder_of(ns: Seq<DomNodeView>, i: int) -> Option<Seq<char>> {
    folder_scan(ns, i - 1, ns[i].depth)
}

fn is_named(n: &DomNode, name: &str) -> (b: bool)
    ensures
        b == is_element_named(n@, name@),
{
    match &n.kind {
        DomKind::Element { name: m, .. } => is_str(&chars_of(m.as_str()), name),
        _ => false,
    }
}

/// The heading naming the list at depth `d` whose position is `k`.
fn heading_before(ns: &Vec<DomNode>, k: usize, d: usize) -> (r: Option<String>)
    requires
        k < ns@.len(),
    ensures
        opt_str_view(r) == heading_scan(nodes_view(ns@), k - 1, d as nat),
{
    let ghost nv = nodes_view(ns@);
    let mut m = k;
    while m > 0
        invariant
            nv == nodes_view(ns@),
            m <= k < ns@.len(),
            heading_scan(nv, k - 1, d as nat) == heading_scan(nv, m - 1, d as nat),
        decreases m,
    {
        let j = m - 1;
        assert(nv[j as int] == ns@[j as int]@);
        if ns[j].depth < d {
            return None;
        }
        let is_elem = match &ns[j].kind {
            DomKind::Element { .. } => true,
            _ => false,
        };
        if ns[j].depth == d && is_elem {
            if is_named(&ns[j], "h3") {
                let t = trim_vec(&element_text_of(ns, j));
                if t.len() > 0 {
                    return Some(string_of(&t));
                }
            }
            return None;
        }
        m = j;
    }
    None
}

/// The name of the folder holding node `i`: the heading of the nearest
/// enclosing list that follows an `<h3>` heading.
pub fn find_folder_name(ns: &Vec<DomNode>, i: usize) -> (r: Option<String>)
    requires
        i < ns@.len(),
    ensures
        opt_str_view(r) == folder_of(nodes_view(ns@), i as int),
{
    let ghost nv = nodes_view(ns@);
    let mut d = ns[i].depth;
    let mut k = i;
    while k > 0
        invariant
            nv == nodes_view(ns@),
            k <= i < ns@.len(),
            folder_of(nv, i as int) == folder_scan(nv, k - 1, d as nat),
        decreases k,
    {
        let j = k - 1;
        assert(nv[j as int] == ns@[j as int]@);
        if ns[j].depth < d {
            if is_named(&ns[j], "dl") {
                let h = heading_before(ns, j, ns[j].depth);
                if h.is_some() {
                    return h;
                }
            }
            d = ns[j].depth;
        }
        k = j;
    }
    None
}

pub open spec fn bookmark_view(b: ParsedBookmark) -> (Seq<char>, Option<Seq<char>>, Option<Seq<char>>) {
    (b.url@, opt_str_view(b.title), opt_str_view(b.folder))
}

pub open spec fn bookmarks_view(v: Seq<ParsedBookmark>) -> Seq<(Seq<char>, Option<Seq<char>>, Option<Seq<char>>)> {
    v.map_values(|b: ParsedBookmark| bookmark_view(b))
}

/// The bookmark node `i` stands for, if any: an `<a>` element with an `href`
/// that, trimmed, is a web link; its title is its trimmed text (absent when
/// empty) and its folder the one found by `folder_of`.
pub open spec fn bookmark_at(ns: Seq<DomNodeView>, i: int) -> Option<(Seq<char>, Option<Seq<char>>, Option<Seq<char>>)> {
    match ns[i].kind {
        DomKindView::Element { name, href, .. } => if name == "a"@ && href is Some && safe_web(
            trim(href->0),
        ) {
            Some((trim(href->0), nonempty(trim(element_text(ns, i))), folder_of(ns, i)))
        } else {
            None
        },
        _ => None,
    }
}

/// The bookmarks among the first `n` nodes, in order.
pub open spec fn bookmarks_upto(ns: Seq<DomNodeView>, n: int) -> Seq<(Seq<char>, Option<Seq<char>>, Option<Seq<char>>)>
    decreases n,
{
    if n <= 0 {
        Seq::empty()
    } else {
        let r = bookmarks_upto(ns, n - 1);
        match bookmark_at(ns, n - 1) {
            Some(b) => r.push(b),
            None => r,
        }
    }
}

/// The bookmarks of a Netscape bookmark file.
pub open spec fn bookmarks_in(html: Seq<char>) -> Seq<(Seq<char>, Option<Seq<char>>, Option<Seq<char>>)> {
    let ns = html_document_nodes(html);
    bookmarks_upto(ns, ns.len() as int)
}

/// Parses a Netscape bookmark file: every `http`/`https` link with its title
/// and the folder it sits in.
pub fn parse_bookmarks(html: &str) -> (out: Vec<ParsedBookmark>)
    ensures
        bookmarks_view(out@) == bookmarks_in(html@),
{
    let ns = html_nodes(html);
    bookmarks_from_nodes(&ns)
}

/// The bookmarks among the nodes of a parsed document, in order.
pub fn bookmarks_from_nodes(ns: &Vec<DomNode>) -> (out: Vec<ParsedBookmark>)
    ensures
        bookmarks_view(out@) == bookmarks_upto(nodes_view(ns@), ns@.len() as int),
{
    let ghost nv = nodes_view(ns@);
    let mut out: Vec<ParsedBookmark> = Vec::new();
    let n = ns.len();
    for i in 0..n
        invariant
            n == ns@.len(),
            nv == nodes_view(ns@),
            bookmarks_view(out@) == bookmarks_upto(nv, i as int),
    {
        assert(nv[i as int] == ns@[i as int]@);
        let found: Option<Vec<char>> = match &ns[i].kind {
            DomKind::Element { name, href: Some(h), .. } => {
                if is_str(&chars_of(name.as_str()), "a") {
                    let u = trim_vec(&chars_of(h.as_str()));
                    if crate::dragdrop::is_safe_web_chars(&u) {
                        Some(u)
                    } else {
                        None
                    }
                } else {
                    None
                }
            },
            _ => None,
        };
        match found {
            Some(u) => {
                let t = trim_vec(&element_text_of(ns, i));
                let title = if t.len() > 0 {
                    Some(string_of(&t))
                } else {
                    None
                };
                let folder = find_folder_name(ns, i);
                let b = ParsedBookmark { url: string_of(&u), title, folder };
                let ghost before = out@;
                out.push(b);
                assert(bookmarks_view(out@) =~= bookmarks_view(before).push(bookmark_view(b)));
            },
            None => {},
        }
    }
    out
}


/// Among the bookmarks of any node list (its first `n` nodes), every title
/// that is present is trimmed and not empty.
pub proof fn law_node_bookmark_titles_trimmed(ns: Seq<DomNodeView>, n: int)
    ensures
        forall|i: int|
            0 <= i < bookmarks_upto(ns, n).len() && (#[trigger] bookmarks_upto(ns, n)[i]).1 is Some
                ==> trim(bookmarks_upto(ns, n)[i].1->0) == bookmarks_upto(ns, n)[i].1->0
                && bookmarks_upto(ns, n)[i].1->0.len() > 0,
    decreases n,
{
    if n > 0 {
        law_node_bookmark_titles_trimmed(ns, n - 1);
        let r = bookmarks_upto(ns, n - 1);
        if let Some(b) = bookmark_at(ns, n - 1) {
            crate::text::lemma_trim_idempotent(element_text(ns, n - 1));
            let s = r.push(b);
            assert forall|i: int| 0 <= i < s.len() && (#[trigger] s[i]).1 is Some implies trim(
                s[i].1->0,
            ) == s[i].1->0 && s[i].1->0.len() > 0 by {
                if i < r.len() {
                    assert(s[i] == r[i]);
                }
            }
        }
    }
}

/// A bookmark's title, when it has one, is free of surrounding white space
/// and not empty: white-space-only link texts give no title.
pub proof fn law_bookmark_titles_trimmed(html: Seq<char>)
    ensures
        forall|i: int|
            0 <= i < bookmarks_in(html).len() && (#[trigger] bookmarks_in(html)[i]).1 is Some
                ==> trim(bookmarks_in(html)[i].1->0) == bookmarks_in(html)[i].1->0
                && bookmarks_in(html)[i].1->0.len() > 0,
{
    let ns = html_document_nodes(html);
    law_node_bookmark_titles_trimmed(ns, ns.len() as int);
}

proof fn lemma_bookmarks_upto_web(ns: Seq<DomNodeView>, n: int)
    ensures
        forall|i: int|
            0 <= i < bookmarks_upto(ns, n).len() ==> safe_web(#[trigger] bookmarks_upto(ns, n)[i].0),
    decreases n,
{
    if n > 0 {
        lemma_bookmarks_upto_web(ns, n - 1);
        let r = bookmarks_upto(ns, n - 1);
        if let Some(b) = bookmark_at(ns, n - 1) {
            let s = r.push(b);
            assert forall|i: int| 0 <= i < s.len() implies safe_web(#[trigger] s[i].0) by {
                if i < r.len() {
                    assert(s[i] == r[i]);
                }
            }
        }
    }
}

/// Every bookmark read from a file is an `http`/`https` link: other links
/// (`file:`, `place:`, `javascript:`, ...) are left out.
pub proof fn law_bookmarks_are_web_links(html: Seq<char>)
    ensures
        forall|i: int| 0 <= i < bookmarks_in(html).len() ==> safe_web(#[trigger] bookmarks_in(html)[i].0),
{
    let ns = html_document_nodes(html);
    lemma_bookmarks_upto_web(ns, ns.len() as int);
}

} // verus!

verus! {

/// What `scraper` selects in a page (`Html::parse_document`): the text
/// contents of the elements matching `title`, and the `href` attributes of the
/// elements matching `link[rel~="icon"]`, each in the order `select` yields them.
pub uninterp spec fn page_selections(html: Seq<char>) -> (Seq<Seq<char>>, Seq<Option<Seq<char>>>);

pub open spec fn strings_view(v: Seq<String>) -> Seq<Seq<char>> {
    v.map_values(|s: String| s@)
}

pub open spec fn opt_strings_view(v: Seq<Option<String>>) -> Seq<Option<Seq<char>>> {
    v.map_values(|s: Option<String>| opt_str_view(s))
}

/// Parses `html` with `scraper::Html::parse_document` and runs `select` with
/// the selectors `title` and `link[rel~="icon"]`, collecting each title's
/// `text()` and each icon link's `attr("href")`. The claim is only that the
/// outcome is the one named by `page_selections`; HTML parsing and selector
/// matching are not restated. Both selectors are valid constants, so
/// `expect` does not fire.
#[verifier::external_body]
fn select_page_elements(html: &str) -> (r: (Vec<String>, Vec<Option<String>>))
    ensures
        strings_view(r.0@) == page_selections(html@).0,
        opt_strings_view(r.1@) == page_selections(html@).1,
{
    let doc = scraper::Html::parse_document(html);
    let title = scraper::Selector::parse("title").expect("constant selector");
    let icon = scraper::Selector::parse(r#"link[rel~="icon"]"#).expect("constant selector");
    let titles = doc.select(&title).map(|e| e.text().collect::<String>()).collect();
    let hrefs = doc.select(&icon).map(|e| e.attr("href").map(|h| h.to_string())).collect();
    (titles, hrefs)
}

/// The first present link among `hrefs`.
pub open spec fn first_href(hrefs: Seq<Option<Seq<char>>>) -> Option<Seq<char>>
    decreases hrefs.len(),
{
    if hrefs.len() == 0 {
        None
    } else if hrefs[0] is Some {
        hrefs[0]
    } else {
        first_href(hrefs.subrange(1, hrefs.len() as int))
    }
}

/// Title (the trimmed text of the first title, empty when there is none) and
/// icon link (the first icon link element that has an `href`).
pub open spec fn meta_from(titles: Seq<Seq<char>>, hrefs: Seq<Option<Seq<char>>>) -> (Seq<char>, Option<Seq<char>>) {
    (
        if titles.len() > 0 {
            trim(titles[0])
        } else {
            Seq::<char>::empty()
        },
        first_href(hrefs),
    )
}

/// Title and icon link of a page.
pub open spec fn page_meta(body: Seq<char>) -> (Seq<char>, Option<Seq<char>>) {
    meta_from(page_selections(body).0, page_selections(body).1)
}

/// Title and icon link from the selected title texts and icon-link `href`s.
pub fn meta_from_selections(titles: &Vec<String>, hrefs: &Vec<Option<String>>) -> (r: (
    String,
    Option<String>,
))
    ensures
        r.0@ == meta_from(strings_view(titles@), opt_strings_view(hrefs@)).0,
        opt_str_view(r.1) == meta_from(strings_view(titles@), opt_strings_view(hrefs@)).1,
{
    let ghost tv = strings_view(titles@);
    let ghost hv = opt_strings_view(hrefs@);
    let title = if titles.len() > 0 {
        assert(tv[0] == titles@[0]@);
        crate::text::trim_str(titles[0].as_str())
    } else {
        String::new()
    };
    let n = hrefs.len();
    let mut k: usize = 0;
    assert(hv.subrange(0, n as int) == hv);
    while k < n
        invariant
            n == hrefs@.len(),
            hv == opt_strings_view(hrefs@),
            title@ == meta_from(strings_view(titles@), hv).0,
            k <= n,
            first_href(hv) == first_href(hv.subrange(k as int, n as int)),
        decreases n - k,
    {
        let ghost rest = hv.subrange(k as int, n as int);
        assert(rest[0] == opt_str_view(hrefs@[k as int]));
        assert(rest.subrange(1, rest.len() as int) == hv.subrange(k + 1, n as int));
        match &hrefs[k] {
            Some(h) => {
                return (title, Some(h.clone()));
            },
            None => {},
        }
        k = k + 1;
    }
    (title, None)
}

/// Reads the `<title>` and the favicon link of a page (best effort: a single
/// page application may have neither in its first response).
pub fn extract_meta(body: &str) -> (r: (String, Option<String>))
    ensures
        r.0@ == page_meta(body@).0,
        opt_str_view(r.1) == page_meta(body@).1,
{
    let (titles, hrefs) = select_page_elements(body);
    meta_from_selections(&titles, &hrefs)
}

} // verus!
