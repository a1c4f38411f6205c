use url_launcher::normalize::{assemble_normal_form, normalize_url};
use url_launcher::weburl::UrlParts;

#[test]
fn lowercases_scheme_and_host() {
    assert_eq!(normalize_url("HTTPS://Example.COM"), "https://example.com");
}

#[test]
fn strips_default_ports() {
    assert_eq!(normalize_url("https://example.com:443/a"), "https://example.com/a");
    assert_eq!(normalize_url("http://example.com:80/a"), "http://example.com/a");
}

#[test]
fn keeps_non_default_port() {
    assert_eq!(normalize_url("http://example.com:8080/a"), "http://example.com:8080/a");
}

#[test]
fn strips_trailing_slash_and_fragment() {
    assert_eq!(normalize_url("https://example.com/a/"), "https://example.com/a");
    assert_eq!(normalize_url("https://example.com/a#frag"), "https://example.com/a");
}

#[test]
fn root_and_query() {
    assert_eq!(normalize_url("https://example.com/"), "https://example.com");
    assert_eq!(normalize_url("https://example.com"), "https://example.com");
    assert_eq!(normalize_url("https://example.com/?q=1"), "https://example.com?q=1");
}

#[test]
fn falls_back_to_trimmed_input() {
    assert_eq!(normalize_url("  不是网址  "), "不是网址");
}

#[test]
fn keeps_path_and_query_case() {
    assert_eq!(normalize_url("https://EXAMPLE.com/A/B?X=Y"), "https://example.com/A/B?X=Y");
    assert_ne!(normalize_url("https://example.com/A"), normalize_url("https://example.com/a"));
}

#[test]
fn drops_empty_query_and_many_trailing_slashes() {
    assert_eq!(normalize_url("https://example.com/a///?"), "https://example.com/a");
}

#[test]
fn surrounding_whitespace_ignored() {
    assert_eq!(normalize_url("\t https://Example.com/x/ \n"), "https://example.com/x");
}

#[test]
fn other_schemes_keep_their_port() {
    assert_eq!(normalize_url("ftp://Host.org:2121/f"), "ftp://host.org:2121/f");
}

#[test]
fn assembles_from_parts() {
    let p = UrlParts {
        scheme: "HTTPS".to_string(),
        host: Some("Example.COM".to_string()),
        port: Some(443),
        path: "/A/b//".to_string(),
        query: Some(String::new()),
    };
    assert_eq!(assemble_normal_form(&p), "https://example.com/A/b");
    let q = UrlParts {
        scheme: "http".to_string(),
        host: Some("h".to_string()),
        port: Some(8080),
        path: "/".to_string(),
        query: Some("x=1".to_string()),
    };
    assert_eq!(assemble_normal_form(&q), "http://h:8080?x=1");
}
