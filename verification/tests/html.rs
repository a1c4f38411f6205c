use url_launcher::html::{
    bookmarks_from_nodes, extract_meta, meta_from_selections, parse_bookmarks, DomKind, DomNode,
};

const NETSCAPE: &str = r#"<!DOCTYPE NETSCAPE-Bookmark-file-1>
<META HTTP-EQUIV="Content-Type" CONTENT="text/html; charset=UTF-8">
<TITLE>Bookmarks</TITLE>
<H1>Bookmarks</H1>
<DL><p>
    <DT><H3 ADD_DATE="1">Work</H3>
    <DL><p>
        <DT><A HREF="https://work.example.com/">Work site</A>
        <DT><A HREF="place:sort=8">Recent</A>
    </DL><p>
    <DT><A HREF=" http://top.example.org ">  </A>
</DL><p>
"#;

#[test]
fn netscape_file_links() {
    let b = parse_bookmarks(NETSCAPE);
    assert_eq!(b.len(), 2);
    assert_eq!(b[0].url, "https://work.example.com/");
    assert_eq!(b[0].title.as_deref(), Some("Work site"));
    assert_eq!(b[0].folder.as_deref(), Some("Work"));
    assert_eq!(b[1].url, "http://top.example.org");
    assert!(b[1].title.is_none());
    assert!(b[1].folder.is_none());
}

#[test]
fn folder_from_heading_before_list() {
    let html = "<DL><p><DT><H3>Dev</H3><DL><p><DT><A HREF='https://a.com'>A</A></DL></DL>";
    let r = parse_bookmarks(html);
    assert_eq!(r.len(), 1);
    assert_eq!(r[0].url, "https://a.com");
    assert_eq!(r[0].title.as_deref(), Some("A"));
    assert_eq!(r[0].folder.as_deref(), Some("Dev"));
}

#[test]
fn nested_folders_take_the_innermost_heading() {
    let html = r#"<DL><p>
<DT><H3>Outer</H3>
<DL><p>
  <DT><A HREF="https://o.com">O</A>
  <DT><H3>  Inner  </H3>
  <DL><p>
    <DT><A HREF="https://i.com">I</A>
  </DL><p>
  <DT><A HREF="https://o2.com">O2</A>
</DL><p>
<DT><H3>   </H3>
<DL><p><DT><A HREF="https://blank.com">B</A></DL>
</DL>"#;
    let r = parse_bookmarks(html);
    let got: Vec<(&str, Option<&str>)> = r.iter().map(|b| (b.url.as_str(), b.folder.as_deref())).collect();
    assert_eq!(
        got,
        vec![
            ("https://o.com", Some("Outer")),
            ("https://i.com", Some("Inner")),
            ("https://o2.com", Some("Outer")),
            ("https://blank.com", None),
        ]
    );
}

#[test]
fn page_title_and_icon() {
    let page = r#"<html><head><title>  Hello  </title>
<link rel="stylesheet" href="/s.css"><link rel="ICON shortcut"><link rel="Shortcut Icon" href="/fav.ico">
</head><body><title>late</title></body></html>"#;
    let (title, icon) = extract_meta(page);
    assert_eq!(title, "Hello");
    assert_eq!(icon.as_deref(), Some("/fav.ico"));
}

#[test]
fn page_without_title_or_icon() {
    let (title, icon) = extract_meta("<p>nothing</p>");
    assert_eq!(title, "");
    assert!(icon.is_none());
}

fn el(depth: usize, name: &str, href: Option<&str>) -> DomNode {
    DomNode { depth, kind: DomKind::Element { name: name.to_string(), href: href.map(|h| h.to_string()) } }
}

fn text(depth: usize, t: &str) -> DomNode {
    DomNode { depth, kind: DomKind::Text(t.to_string()) }
}

#[test]
fn bookmarks_and_meta_from_nodes() {
    // <dt><h3>Dev</h3>\n<dl><dt><a href=" https://a.com ">A</a></dl></dt><a href="ftp://x">x</a>
    let ns = vec![
        el(0, "dt", None),
        el(1, "h3", None),
        text(2, " Dev "),
        text(1, "\n"),
        el(1, "dl", None),
        el(2, "dt", None),
        el(3, "a", Some(" https://a.com ")),
        text(4, "A"),
        el(0, "a", Some("ftp://x")),
        text(1, "x"),
    ];
    let b = bookmarks_from_nodes(&ns);
    assert_eq!(b.len(), 1);
    assert_eq!(b[0].url, "https://a.com");
    assert_eq!(b[0].title.as_deref(), Some("A"));
    assert_eq!(b[0].folder.as_deref(), Some("Dev"));
}

#[test]
fn meta_from_selected_elements() {
    let titles = vec!["  T  ".to_string(), "late".to_string()];
    let hrefs = vec![None, Some("/i.png".to_string()), Some("/j.png".to_string())];
    let (title, icon) = meta_from_selections(&titles, &hrefs);
    assert_eq!(title, "T");
    assert_eq!(icon.as_deref(), Some("/i.png"));
    let (title, icon) = meta_from_selections(&vec![], &vec![None]);
    assert_eq!(title, "");
    assert!(icon.is_none());
}

