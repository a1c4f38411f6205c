use url_launcher::fetch::{
    data_icon_header_of, decode_data_icon, hex_string, icon_from_bytes, ext_for_content_type, favicon_file_name, favicon_href, favicon_source,
    fallback_meta, is_image_content_type, page_title, remote_favicon_file, sha1_hex, take_chars,
    FaviconSource,
};

#[test]
fn maps_content_type_to_extension() {
    assert_eq!(ext_for_content_type("image/svg+xml"), "svg");
    assert_eq!(ext_for_content_type("image/x-icon"), "ico");
    assert_eq!(ext_for_content_type("image/vnd.microsoft.icon"), "ico");
    assert_eq!(ext_for_content_type("image/png"), "png");
    assert_eq!(ext_for_content_type("image/jpeg; charset=utf-8"), "jpg");
    assert_eq!(ext_for_content_type("application/octet-stream"), "png");
}

#[test]
fn content_type_is_case_and_space_insensitive() {
    assert_eq!(ext_for_content_type("  IMAGE/WEBP ;q=1"), "webp");
    assert_eq!(ext_for_content_type("image/gif"), "gif");
    assert_eq!(ext_for_content_type("image/avif"), "avif");
    assert_eq!(ext_for_content_type("image/bmp"), "bmp");
}

#[test]
fn decodes_base64_data_icon() {
    let (ext, bytes) = decode_data_icon("data:image/png;base64,aGVsbG8=").expect("decode");
    assert_eq!(ext, "png");
    assert_eq!(bytes, b"hello");
}

#[test]
fn decodes_svg_data_icon() {
    let (ext, bytes) =
        decode_data_icon("data:image/svg+xml;base64,PHN2Zz48L3N2Zz4=").expect("decode");
    assert_eq!(ext, "svg");
    assert_eq!(bytes, b"<svg></svg>");
}

#[test]
fn rejects_non_image_or_bad_data_uri() {
    assert!(decode_data_icon("data:text/plain;base64,aGk=").is_none());
    assert!(decode_data_icon("not-a-data-uri").is_none());
}

#[test]
fn decodes_percent_encoded_icon() {
    let (ext, bytes) = decode_data_icon("data:image/SVG+xml,%3Csvg%3E%zz").expect("decode");
    assert_eq!(ext, "svg");
    assert_eq!(bytes, b"<svg>%zz");
}

#[test]
fn rejects_bad_base64_and_empty_icons() {
    assert!(decode_data_icon("data:image/png;base64,@@@").is_none());
    assert!(decode_data_icon("data:image/png,").is_none());
    assert!(decode_data_icon("data:image/p-g,abc").is_none());
    assert!(decode_data_icon("data:image/png").is_none());
}

#[test]
fn sha1_of_known_value() {
    assert_eq!(sha1_hex("abc"), "a9993e364706816aba3e25717850c26c9cd0d89d");
    assert_eq!(
        favicon_file_name("abc", "png"),
        "a9993e364706816aba3e25717850c26c9cd0d89d.png"
    );
}

#[test]
fn favicon_sources() {
    match favicon_source("https://a.com/x/y", "/favicon.ico") {
        FaviconSource::Remote { url } => assert_eq!(url, "https://a.com/favicon.ico"),
        _ => panic!("expected a remote icon"),
    }
    match favicon_source("abc", "data:image/png;base64,aGVsbG8=") {
        FaviconSource::Inline { file_name, bytes } => {
            assert_eq!(file_name, "a9993e364706816aba3e25717850c26c9cd0d89d.png");
            assert_eq!(bytes, b"hello");
        }
        _ => panic!("expected an inline icon"),
    }
    assert!(matches!(favicon_source("not a url", "x.ico"), FaviconSource::Unavailable));
}

#[test]
fn remote_favicon_checks() {
    assert_eq!(
        remote_favicon_file("abc", "image/svg+xml", 10).as_deref(),
        Some("a9993e364706816aba3e25717850c26c9cd0d89d.svg")
    );
    assert!(remote_favicon_file("abc", "text/html", 10).is_none());
    assert!(remote_favicon_file("abc", "image/png", 2 * 1024 * 1024 + 1).is_none());
    assert!(remote_favicon_file("abc", "image/png", 2 * 1024 * 1024).is_some());
    assert!(is_image_content_type("image/png"));
    assert!(!is_image_content_type("Image/png"));
}

#[test]
fn meta_fallbacks() {
    assert_eq!(page_title(String::new(), "https://f.com/".into()), "https://f.com/");
    assert_eq!(page_title("T".into(), "https://f.com/".into()), "T");
    assert_eq!(favicon_href(None), "/favicon.ico");
    assert_eq!(favicon_href(Some("/i.png".into())), "/i.png");
    let m = fallback_meta("https://x.org");
    assert_eq!(m.title, "https://x.org");
    assert!(m.favicon_path.is_none());
    assert_eq!(take_chars("héllo", 2), "hé");
    assert_eq!(take_chars("ab", 10), "ab");
}

#[test]
fn data_icon_header_and_bytes() {
    assert_eq!(
        data_icon_header_of("data:image/SVG+xml;base64,PHN2Zz4="),
        Some(("svg".to_string(), true, "PHN2Zz4=".to_string()))
    );
    assert_eq!(
        data_icon_header_of("data:image/png,%41"),
        Some(("png".to_string(), false, "%41".to_string()))
    );
    assert_eq!(data_icon_header_of("data:image/;base64,AA=="), None);
    assert_eq!(data_icon_header_of("data:text/plain,x"), None);
    assert_eq!(icon_from_bytes("png".to_string(), Some(vec![1, 2])), Some(("png".to_string(), vec![1, 2])));
    assert_eq!(icon_from_bytes("png".to_string(), Some(vec![])), None);
    assert_eq!(icon_from_bytes("png".to_string(), None), None);
}

#[test]
fn hex_spelling() {
    assert_eq!(hex_string(&vec![0x00, 0x0f, 0xa0, 0xff]), "000fa0ff");
    assert_eq!(hex_string(&vec![]), "");
}
