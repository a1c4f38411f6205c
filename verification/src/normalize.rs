//! URL normalisation, used to compare and de-duplicate links.
//!
//! Scheme and host are lower-cased, default ports, the fragment and trailing
//! slashes are dropped; path and query keep their case. Input that does not
//! parse as a URL is returned trimmed.

use vstd::prelude::*;

use crate::text::{
    append_chars, append_str, chars_of, is_str, lower, lower_char, lower_vec, string_of, trim,
    trim_end, trim_start, trim_vec, is_ws,
};
use crate::weburl::{parse_url, url_parse_result, UrlParts, UrlPartsView};

verus! {

pub open spec fn digit_char(d: nat) -> char {
    ((d + 48) as u8) as char
}

/// Decimal notation of `n`, as `format!("{n}")` writes it.
pub open spec fn decimal(n: nat) -> Seq<char>
    decreases n,
{
    if n < 10 {
        seq![digit_char(n)]
    } else {
        decimal(n / 10).push(digit_char(n % 10))
    }
}

/// `trim_end_matches(c)`: strips every trailing `c`.
pub open spec fn strip_trailing(s: Seq<char>, c: char) -> Seq<char>
    decreases s.len(),
{
    if s.len() > 0 && s.last() == c {
        strip_trailing(s.drop_last(), c)
    } else {
        s
    }
}

/// The default port of a (lower-cased) scheme.
pub open spec fn default_port(scheme: Seq<char>) -> Option<u16> {
    if scheme == "http"@ {
        Some(80u16)
    } else if scheme == "https"@ {
        Some(443u16)
    } else {
        None
    }
}

pub open spec fn host_part(h: Option<Seq<char>>) -> Seq<char> {
    match h {
        Some(h) => lower(h),
        None => Seq::<char>::empty(),
    }
}

pub open spec fn port_part(scheme: Seq<char>, port: Option<u16>) -> Seq<char> {
    match port {
        Some(n) => if Some(n) == default_port(lower(scheme)) {
            Seq::<char>::empty()
        } else {
            ":"@ + decimal(n as nat)
        },
        None => Seq::<char>::empty(),
    }
}

pub open spec fn path_part(path: Seq<char>) -> Seq<char> {
    if path.len() > 1 {
        strip_trailing(path, '/')
    } else {
        Seq::<char>::empty()
    }
}

pub open spec fn query_part(q: Option<Seq<char>>) -> Seq<char> {
    match q {
        Some(q) => if q.len() > 0 {
            "?"@ + q
        } else {
            Seq::<char>::empty()
        },
        None => Seq::<char>::empty(),
    }
}

/// The normal form assembled from the parts of a parsed URL.
pub open spec fn assemble(p: UrlPartsView) -> Seq<char> {
    lower(p.scheme) + "://"@ + host_part(p.host) + port_part(p.scheme, p.port) + path_part(p.path)
        + query_part(p.query)
}

/// The normal form of user input.
pub open spec fn normalized(input: Seq<char>) -> Seq<char> {
    let t = trim(input);
    match url_parse_result(t) {
        Ok(p) => assemble(p),
        Err(_) => t,
    }
}

fn push_decimal(out: &mut Vec<char>, n: u16)
    ensures
        final(out)@ == old(out)@ + decimal(n as nat),
    decreases n,
{
    if n >= 10 {
        push_decimal(out, n / 10);
    }
    let d: u8 = (n % 10) as u8;
    out.push((d + 48) as char);
    assert(final(out)@ =~= old(out)@ + decimal(n as nat));
}

fn strip_trailing_vec(v: &[char], c: char) -> (r: Vec<char>)
    ensures
        r@ == strip_trailing(v@, c),
{
    let mut hi = v.len();
    assert(v@.subrange(0, hi as int) == v@);
    while hi > 0 && v[hi - 1] == c
        invariant
            hi <= v@.len(),
            strip_trailing(v@, c) == strip_trailing(v@.subrange(0, hi as int), c),
        decreases hi,
    {
        assert(v@.subrange(0, hi as int).drop_last() == v@.subrange(0, hi - 1));
        hi = hi - 1;
    }
    crate::text::slice_vec(v, 0, hi)
}

/// The normal form assembled from the parts of a parsed URL: lower-cased
/// scheme and host, no default port, no trailing slashes, no empty query, no
/// fragment.
pub fn assemble_normal_form(parsed: &UrlParts) -> (out: String)
    ensures
        out@ == assemble(parsed@),
{
    let ghost p = parsed@;
    let mut out: Vec<char> = Vec::new();
    let scheme = lower_vec(&chars_of(parsed.scheme.as_str()));
    append_chars(&mut out, &scheme);
    append_str(&mut out, "://");
    match &parsed.host {
        Some(h) => {
            let hl = lower_vec(&chars_of(h.as_str()));
            append_chars(&mut out, &hl);
        },
        None => {},
    }
    assert(out@ =~= lower(p.scheme) + "://"@ + host_part(p.host));
    let ghost before_port = out@;
    let is_http = is_str(&scheme, "http");
    let is_https = is_str(&scheme, "https");
    match parsed.port {
        Some(n) => {
            let is_default = (is_http && n == 80) || (!is_http && is_https && n == 443);
            if !is_default {
                append_str(&mut out, ":");
                push_decimal(&mut out, n);
            }
        },
        None => {},
    }
    assert(out@ =~= before_port + port_part(p.scheme, p.port));
    let ghost before_path = out@;
    let path = chars_of(parsed.path.as_str());
    if path.len() > 1 {
        let stripped = strip_trailing_vec(&path, '/');
        append_chars(&mut out, &stripped);
    }
    assert(out@ =~= before_path + path_part(p.path));
    let ghost before_query = out@;
    match &parsed.query {
        Some(q) => {
            if q.as_str().unicode_len() > 0 {
                append_str(&mut out, "?");
                append_chars(&mut out, &chars_of(q.as_str()));
            }
        },
        None => {},
    }
    assert(out@ =~= before_query + query_part(p.query));
    assert(out@ =~= assemble(p));
    string_of(&out)
}

/// Normalises a URL so that equivalent spellings compare equal.
///
/// Input that does not parse is returned trimmed, so a string always comes back.
pub fn normalize_url(input: &str) -> (out: String)
    ensures
        out@ == normalized(input@),
{
    let trimmed = trim_str_owned(input);
    match parse_url(trimmed.as_str()) {
        Err(_) => trimmed,
        Ok(parsed) => assemble_normal_form(&parsed),
    }
}

fn trim_str_owned(s: &str) -> (r: String)
    ensures
        r@ == trim(s@),
{
    crate::text::trim_str(s)
}

} // verus!

verus! {

/// Surrounding white space does not change the normal form.
pub proof fn law_whitespace_ignored(input: Seq<char>)
    ensures
        normalized(trim(input)) == normalized(input),
{
    crate::text::lemma_trim_idempotent(input);
}

/// Input that does not parse as a URL comes back exactly as given, only with
/// surrounding white space removed: letter case and every other character
/// are kept.
pub proof fn law_unparsable_input_kept(input: Seq<char>)
    requires
        url_parse_result(trim(input)) is Err,
    ensures
        normalized(input) == trim(input),
{
}

/// An explicit default port (80 for http, 443 for https) does not show in the
/// normal form: such a URL normalises as if it had no port.
pub proof fn law_default_port_dropped(p: UrlPartsView)
    requires
        (lower(p.scheme) == "http"@ && p.port == Some(80u16)) || (lower(p.scheme) == "https"@
            && p.port == Some(443u16)),
    ensures
        assemble(p) == assemble(
            UrlPartsView { scheme: p.scheme, host: p.host, port: None, path: p.path, query: p.query },
        ),
{
    reveal_strlit("http");
    reveal_strlit("https");
}

/// The root path `/` normalises like an empty path, so `https://a.com/` and
/// `https://a.com` compare equal.
pub proof fn law_root_path_dropped(p: UrlPartsView)
    requires
        p.path == "/"@,
    ensures
        assemble(p) == assemble(
            UrlPartsView {
                scheme: p.scheme,
                host: p.host,
                port: p.port,
                path: Seq::<char>::empty(),
                query: p.query,
            },
        ),
{
    reveal_strlit("/");
}

/// A trailing slash after a non-root path does not change the normal form.
pub proof fn law_trailing_slash_dropped(p: UrlPartsView)
    requires
        p.path.len() >= 2,
    ensures
        assemble(
            UrlPartsView {
                scheme: p.scheme,
                host: p.host,
                port: p.port,
                path: p.path.push('/'),
                query: p.query,
            },
        ) == assemble(p),
{
    assert(p.path.push('/').drop_last() == p.path);
}

/// Scheme and host are compared without regard to ASCII case.
pub proof fn law_scheme_host_case_ignored(p: UrlPartsView)
    ensures
        assemble(
            UrlPartsView {
                scheme: lower(p.scheme),
                host: match p.host {
                    Some(h) => Some(lower(h)),
                    None => None,
                },
                port: p.port,
                path: p.path,
                query: p.query,
            },
        ) == assemble(p),
{
    crate::text::lemma_lower_idempotent(p.scheme);
    match p.host {
        Some(h) => crate::text::lemma_lower_idempotent(h),
        None => {},
    }
}

/// An empty query (`?` with nothing after it) is dropped.
pub proof fn law_empty_query_dropped(p: UrlPartsView)
    requires
        p.query == Some(Seq::<char>::empty()),
    ensures
        assemble(p) == assemble(
            UrlPartsView { scheme: p.scheme, host: p.host, port: p.port, path: p.path, query: None },
        ),
{
}

/// Path and query keep their case: two URLs whose paths differ only in case
/// do not get the same normal form.
pub proof fn law_path_case_kept(p: UrlPartsView, q: UrlPartsView)
    requires
        p.scheme == q.scheme,
        p.host == q.host,
        p.port == q.port,
        p.query == q.query,
        path_part(p.path) != path_part(q.path),
    ensures
        assemble(p) != assemble(q),
{
    let pre = lower(p.scheme) + "://"@ + host_part(p.host) + port_part(p.scheme, p.port);
    let a = assemble(p);
    let b = assemble(q);
    let x = path_part(p.path);
    let y = path_part(q.path);
    let z = query_part(p.query);
    assert(a == pre + x + z);
    assert(b == pre + y + z);
    if a == b {
        if x.len() == y.len() {
            assert forall|i: int| 0 <= i < x.len() implies x[i] == y[i] by {
                assert(a[pre.len() + i] == x[i]);
                assert(b[pre.len() + i] == y[i]);
            }
            assert(x =~= y);
        } else {
            assert(a.len() != b.len());
        }
    }
}

} // verus!
