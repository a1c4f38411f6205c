use url_launcher::dragdrop::{
    classify_drop, internet_shortcut_url, is_safe_web, links_from_captures, parse_bookmark_urls,
    resolve_dropped,
    DropKind, DroppedItem,
};

fn item(s: &str, contents: Option<&str>) -> DroppedItem {
    DroppedItem { item: s.to_string(), contents: contents.map(|c| c.to_string()) }
}

#[test]
fn safe_web_prefixes() {
    assert!(is_safe_web("http://a"));
    assert!(is_safe_web("https://a"));
    assert!(!is_safe_web("file:///c:/x"));
    assert!(!is_safe_web(" https://a"));
    assert!(!is_safe_web("HTTPS://a"));
}

#[test]
fn bookmark_urls_from_anchors() {
    let html = r#"<DL><DT><A HREF="https://a.com/" ADD_DATE="1"> A site </A>
<DT><a href='http://b.org'></a>
<DT><A HREF="javascript:alert(1)">bad</A>
<DT><a href=" https://c.net ">C</a></DL>"#;
    let links = parse_bookmark_urls(html);
    assert_eq!(
        links,
        vec![
            ("https://a.com/".to_string(), Some("A site".to_string())),
            ("http://b.org".to_string(), None),
            ("https://c.net".to_string(), Some("C".to_string())),
        ]
    );
}

#[test]
fn shortcut_file_url() {
    let c = "[InternetShortcut]\r\nIconIndex=0\r\nURL=https://example.com/x\r\n";
    assert_eq!(internet_shortcut_url(c).as_deref(), Some("https://example.com/x"));
    assert_eq!(internet_shortcut_url("url= http://a.b \n").as_deref(), Some("http://a.b"));
    assert_eq!(internet_shortcut_url("URL=file:///c:/x\nURL=https://y.z").as_deref(), Some("https://y.z"));
    assert!(internet_shortcut_url("[InternetShortcut]\nUrl=https://q").is_none());
}

#[test]
fn classifies_items() {
    assert!(matches!(classify_drop("  "), DropKind::Blank));
    assert!(matches!(classify_drop("C:\\b\\Bookmarks.html"), DropKind::BookmarkFile));
    assert!(matches!(classify_drop("C:\\b\\x.htm "), DropKind::BookmarkFile));
    assert!(matches!(classify_drop("C:\\x.url"), DropKind::ShortcutFile));
    assert!(matches!(classify_drop("https://a\nhttps://b"), DropKind::Lines));
    assert!(matches!(classify_drop("https://a"), DropKind::Single));
}

#[test]
fn resolves_mixed_items() {
    let items = vec![
        item("   ", None),
        item(" https://a.com ", None),
        item("file:///c:/doc.txt", None),
        item("https://b.com\r\n# comment\r\nhttp://c.com\r\n", None),
        item("C:\\x.url", Some("[InternetShortcut]\nURL=https://d.com\n")),
        item("C:\\missing.url", None),
        item("C:\\b.html", Some(r#"<a href="https://e.com">E</a>"#)),
    ];
    let drafts = resolve_dropped(items).unwrap();
    let urls: Vec<&str> = drafts.iter().map(|d| d.url.as_str()).collect();
    assert_eq!(
        urls,
        vec!["https://a.com", "https://b.com", "http://c.com", "https://d.com", "https://e.com"]
    );
    assert_eq!(drafts[4].title.as_deref(), Some("E"));
    assert!(drafts.iter().all(|d| d.category_id.is_none()));
}

#[test]
fn web_links_are_direct_whatever_they_end_with() {
    let items: Vec<DroppedItem> = vec![
        "https://a.com",
        "file:///C:/notes.txt",
        "https://b.com\r\nftp://c.net\r\n http://d.org ",
        "   ",
        "javascript:alert(1)",
        "https://e.com/index.html",
        "http://f.com/go.url",
    ]
    .into_iter()
    .map(|s| item(s, None))
    .collect();
    let drafts = resolve_dropped(items).unwrap();
    let urls: Vec<&str> = drafts.iter().map(|d| d.url.as_str()).collect();
    assert_eq!(
        urls,
        vec!["https://a.com", "https://b.com", "http://d.org", "https://e.com/index.html", "http://f.com/go.url"]
    );
    assert!(drafts.iter().all(|d| d.title.is_none() && d.category_id.is_none()));
    assert!(matches!(classify_drop(" https://e.com/index.html "), DropKind::Single));
}

#[test]
fn links_from_anchor_captures() {
    let caps = vec![
        (" https://a.com ".to_string(), "  A ".to_string()),
        ("javascript:x".to_string(), "bad".to_string()),
        ("http://b.org".to_string(), "   ".to_string()),
    ];
    let links = links_from_captures(&caps);
    assert_eq!(
        links,
        vec![("https://a.com".to_string(), Some("A".to_string())), ("http://b.org".to_string(), None)]
    );
}
