//! Helpers for fetching page titles and favicons: content-type mapping, inline
//! `data:` icons, cache file names and the fall-backs used when a fetch fails.

use base64::Engine;
use sha1::Digest;
use vstd::prelude::*;

use crate::models::UrlMeta;
use crate::text::{
    append_chars, append_str, chars_of, has_prefix, is_str, lower, lower_vec, slice_vec, split_char,
    split_vec, starts_with, string_of, trim, trim_vec, views,
};

verus! {

/// Lower-cased media type of a `Content-Type` header: the part before the
/// first `;`, trimmed.
pub open spec fn media_type(ct: Seq<char>) -> Seq<char> {
    lower(trim(split_char(ct, ';')[0]))
}

/// File extension for a media type; unknown image types fall back to `png`.
pub open spec fn ext_for_media_type(m: Seq<char>) -> Seq<char> {
    if m == "image/svg+xml"@ {
        "svg"@
    } else if m == "image/x-icon"@ || m == "image/vnd.microsoft.icon"@ {
        "ico"@
    } else if m == "image/webp"@ {
        "webp"@
    } else if m == "image/jpeg"@ {
        "jpg"@
    } else if m == "image/gif"@ {
        "gif"@
    } else if m == "image/avif"@ {
        "avif"@
    } else if m == "image/bmp"@ {
        "bmp"@
    } else {
        "png"@
    }
}

/// Infers a file extension from a `Content-Type` header.
pub fn ext_for_content_type(ct: &str) -> (ext: &'static str)
    ensures
        ext@ == ext_for_media_type(media_type(ct@)),
{
    let v = chars_of(ct);
    let pieces = split_vec(&v, ';');
    proof {
        crate::text::lemma_split_nonempty(v@, ';');
        assert(pieces@[0]@ == split_char(ct@, ';')[0]);
    }
    let m = lower_vec(&trim_vec(&pieces[0]));
    if is_str(&m, "image/svg+xml") {
        "svg"
    } else if is_str(&m, "image/x-icon") || is_str(&m, "image/vnd.microsoft.icon") {
        "ico"
    } else if is_str(&m, "image/webp") {
        "webp"
    } else if is_str(&m, "image/jpeg") {
        "jpg"
    } else if is_str(&m, "image/gif") {
        "gif"
    } else if is_str(&m, "image/avif") {
        "avif"
    } else if is_str(&m, "image/bmp") {
        "bmp"
    } else {
        "png"
    }
}

} // verus!

verus! {

/// Value of an ASCII hexadecimal digit.
pub open spec fn hex_value(b: u8) -> Option<u8> {
    if 48 <= b && b <= 57 {
        Some((b - 48) as u8)
    } else if 97 <= b && b <= 102 {
        Some((b - 87) as u8)
    } else if 65 <= b && b <= 70 {
        Some((b - 55) as u8)
    } else {
        None
    }
}

/// Percent-decoding: every `%` followed by two hexadecimal digits becomes the
/// byte they spell; all other bytes are kept.
pub open spec fn percent_decoded(s: Seq<u8>) -> Seq<u8>
    decreases s.len(),
{
    if s.len() == 0 {
        Seq::<u8>::empty()
    } else if s[0] == 37 && s.len() >= 3 && hex_value(s[1]) is Some && hex_value(s[2]) is Some {
        seq![((hex_value(s[1])->0 as int) * 16 + (hex_value(s[2])->0 as int)) as u8]
            + percent_decoded(s.subrange(3, s.len() as int))
    } else {
        seq![s[0]] + percent_decoded(s.subrange(1, s.len() as int))
    }
}

/// What the standard-alphabet, padded base64 engine of the `base64` crate
/// decodes from the given bytes (`None` when it reports an error).
pub uninterp spec fn base64_standard_decoded(input: Seq<u8>) -> Option<Seq<u8>>;

/// SHA-1 digest of the given bytes.
pub uninterp spec fn sha1_of(data: Seq<u8>) -> Seq<u8>;

/// Calls `percent_encoding::percent_decode_str` and collects the bytes. The
/// claim: `%` followed by two hex digits becomes that byte, every other byte
/// stays, as the crate's `after_percent_sign` shows.
#[verifier::external_body]
fn percent_decode_bytes(data: &str) -> (r: Vec<u8>)
    ensures
        r@ == percent_decoded(vstd::utf8::encode_utf8(data@)),
{
    percent_encoding::percent_decode_str(data).collect::<Vec<u8>>()
}

/// Calls `decode` of `base64::engine::general_purpose::STANDARD` on the UTF-8
/// bytes of `data`. The claim is only that the outcome is the one named by
/// `base64_standard_decoded` for those bytes; the alphabet and padding rules
/// are not restated.
#[verifier::external_body]
fn base64_decode(data: &str) -> (r: Option<Vec<u8>>)
    ensures
        match r {
            Some(b) => base64_standard_decoded(vstd::utf8::encode_utf8(data@)) == Some(b@),
            None => base64_standard_decoded(vstd::utf8::encode_utf8(data@)) is None,
        },
{
    base64::engine::general_purpose::STANDARD.decode(data).ok()
}

/// Computes `sha1::Sha1` over `data` (`new`, `update`, `finalize`). The claim:
/// the digest named by `sha1_of`, which has 20 bytes (the output array type
/// is `GenericArray<u8, U20>`).
#[verifier::external_body]
fn sha1_digest(data: &[u8]) -> (r: Vec<u8>)
    ensures
        r@ == sha1_of(data@),
        r@.len() == 20,
{
    let mut hasher = sha1::Sha1::new();
    hasher.update(data);
    hasher.finalize().to_vec()
}

/// The header of an inline icon `data:image/<subtype>[;base64],<data>`: the
/// file extension (the lower-cased subtype up to a `+`, which must be
/// non-empty and alphanumeric), whether the data is base64, and the data.
pub open spec fn data_icon_header(href: Seq<char>) -> Option<(Seq<char>, bool, Seq<char>)> {
    let pre = "data:image/"@;
    if !starts_with(href, pre) {
        None
    } else {
        let rest = href.subrange(pre.len() as int, href.len() as int);
        match crate::text::first_index(rest, ',') {
            None => None,
            Some(i) => {
                let meta = rest.subrange(0, i);
                let data = rest.subrange(i + 1, rest.len() as int);
                let sc = crate::text::last_index(meta, ';');
                let is_b64 = match sc {
                    Some(j) => meta.subrange(j + 1, meta.len() as int) == "base64"@,
                    None => false,
                };
                let subtype = if is_b64 {
                    meta.subrange(0, sc->0)
                } else {
                    meta
                };
                let ext = lower(split_char(subtype, '+')[0]);
                if ext.len() == 0 || !crate::text::all_alnum(ext) {
                    None
                } else {
                    Some((ext, is_b64, data))
                }
            },
        }
    }
}

/// An icon from its extension and decoded bytes: none when decoding failed or
/// gave no bytes.
pub open spec fn icon_result(ext: Seq<char>, bytes: Option<Seq<u8>>) -> Option<(Seq<char>, Seq<u8>)> {
    match bytes {
        Some(b) => if b.len() > 0 {
            Some((ext, b))
        } else {
            None
        },
        None => None,
    }
}

/// `(extension, bytes)` of an inline icon `data:image/<subtype>[;base64],<data>`.
pub open spec fn data_icon(href: Seq<char>) -> Option<(Seq<char>, Seq<u8>)> {
    match data_icon_header(href) {
        None => None,
        Some((ext, is_b64, data)) => icon_result(
            ext,
            if is_b64 {
                base64_standard_decoded(vstd::utf8::encode_utf8(data))
            } else {
                Some(percent_decoded(vstd::utf8::encode_utf8(data)))
            },
        ),
    }
}

/// Reads the header of an inline icon `data:image/<subtype>[;base64],<data>`:
/// `(extension, is base64, data)`.
pub fn data_icon_header_of(href: &str) -> (r: Option<(String, bool, String)>)
    ensures
        match r {
            Some((ext, b, data)) => data_icon_header(href@) == Some((ext@, b, data@)),
            None => data_icon_header(href@) is None,
        },
{
    let h = chars_of(href);
    let pre = chars_of("data:image/");
    if !has_prefix(&h, &pre) {
        return None;
    }
    let rest = slice_vec(&h, pre.len(), h.len());
    let comma = match crate::text::find_first(&rest, ',') {
        Some(i) => i,
        None => return None,
    };
    let meta = slice_vec(&rest, 0, comma);
    let data = slice_vec(&rest, comma + 1, rest.len());
    let mut is_b64 = false;
    let mut subtype = slice_vec(&meta, 0, meta.len());
    match crate::text::find_last(&meta, ';') {
        Some(j) => {
            let after = slice_vec(&meta, j + 1, meta.len());
            if is_str(&after, "base64") {
                is_b64 = true;
                subtype = slice_vec(&meta, 0, j);
            }
        },
        None => {},
    }
    let pieces = split_vec(&subtype, '+');
    proof {
        crate::text::lemma_split_nonempty(subtype@, '+');
        assert(pieces@[0]@ == split_char(subtype@, '+')[0]);
        let pre_s = "data:image/"@;
        assert(rest@ == href@.subrange(pre_s.len() as int, href@.len() as int));
        assert(is_b64 ==> subtype@ == meta@.subrange(0, crate::text::last_index(meta@, ';')->0));
        assert(!is_b64 ==> subtype@ == meta@);
    }
    let ext = lower_vec(&pieces[0]);
    if ext.len() == 0 || !crate::text::all_ascii_alnum(&ext) {
        return None;
    }
    Some((string_of(&ext), is_b64, string_of(&data)))
}

pub open spec fn opt_bytes_view(b: Option<Vec<u8>>) -> Option<Seq<u8>> {
    match b {
        Some(v) => Some(v@),
        None => None,
    }
}

/// The icon made from an extension and the decoded bytes (`None` when
/// decoding failed): kept only when there is at least one byte.
pub fn icon_from_bytes(ext: String, bytes: Option<Vec<u8>>) -> (r: Option<(String, Vec<u8>)>)
    ensures
        match r {
            Some((e, b)) => icon_result(ext@, opt_bytes_view(bytes)) == Some((e@, b@)),
            None => icon_result(ext@, opt_bytes_view(bytes)) is None,
        },
{
    match bytes {
        Some(b) => if b.len() > 0 {
            Some((ext, b))
        } else {
            None
        },
        None => None,
    }
}

/// Decodes an inline icon `data:image/<subtype>[;base64],<data>` into its file
/// extension and bytes.
pub fn decode_data_icon(href: &str) -> (r: Option<(String, Vec<u8>)>)
    ensures
        match r {
            Some((ext, bytes)) => data_icon(href@) == Some((ext@, bytes@)),
            None => data_icon(href@) is None,
        },
{
    match data_icon_header_of(href) {
        None => None,
        Some((ext, is_b64, data)) => {
            let bytes = if is_b64 {
                base64_decode(data.as_str())
            } else {
                Some(percent_decode_bytes(data.as_str()))
            };
            icon_from_bytes(ext, bytes)
        },
    }
}

pub open spec fn hex_digit(n: int) -> char {
    if n < 10 {
        ((n + 48) as u8) as char
    } else {
        ((n + 87) as u8) as char
    }
}

/// Lower-case hexadecimal spelling of bytes, two digits per byte.
pub open spec fn hex_lower(b: Seq<u8>) -> Seq<char>
    decreases b.len(),
{
    if b.len() == 0 {
        Seq::<char>::empty()
    } else {
        hex_lower(b.drop_last()).push(hex_digit(b.last() as int / 16)).push(
            hex_digit(b.last() as int % 16),
        )
    }
}

fn hex_digit_exec(n: u8) -> (c: char)
    requires
        n < 16,
    ensures
        c == hex_digit(n as int),
{
    if n < 10 {
        (n + 48) as char
    } else {
        (n + 87) as char
    }
}

/// Lower-case hexadecimal SHA-1 of the UTF-8 bytes of `s`.
pub open spec fn sha1_hex_of(s: Seq<char>) -> Seq<char> {
    hex_lower(sha1_of(vstd::utf8::encode_utf8(s)))
}

/// Hexadecimal SHA-1 of a string, used to name cached favicons.
pub fn sha1_hex(s: &str) -> (r: String)
    ensures
        r@ == sha1_hex_of(s@),
        r@.len() == 40,
{
    let digest = sha1_digest(s.as_bytes());
    hex_string(&digest)
}

/// Lower-case hexadecimal spelling of bytes, two digits per byte.
pub fn hex_string(bytes: &Vec<u8>) -> (r: String)
    ensures
        r@ == hex_lower(bytes@),
        r@.len() == 2 * bytes@.len(),
{
    let mut out: Vec<char> = Vec::new();
    let n = bytes.len();
    for i in 0..n
        invariant
            n == bytes@.len(),
            out@ == hex_lower(bytes@.take(i as int)),
            out@.len() == 2 * i,
    {
        let b = bytes[i];
        out.push(hex_digit_exec(b / 16));
        out.push(hex_digit_exec(b % 16));
        assert(bytes@.take(i + 1).drop_last() == bytes@.take(i as int));
    }
    assert(bytes@.take(n as int) == bytes@);
    string_of(&out)
}

} // verus!

verus! {

/// Favicons larger than this are not kept.
pub const FAVICON_MAX_BYTES: usize = 2097152;

/// Page bodies are read up to this many characters; title and icon links sit
/// at the start of the document.
pub const BODY_CHAR_LIMIT: usize = 200000;

/// Whether a `Content-Type` header announces an image.
pub fn is_image_content_type(ct: &str) -> (b: bool)
    ensures
        b == starts_with(ct@, "image/"@),
{
    has_prefix(&chars_of(ct), &chars_of("image/"))
}

/// Cache file name of a page's favicon: `<sha1 of the page URL>.<ext>`.
pub open spec fn favicon_file_name_of(base_url: Seq<char>, ext: Seq<char>) -> Seq<char> {
    sha1_hex_of(base_url) + "."@ + ext
}

pub fn favicon_file_name(base_url: &str, ext: &str) -> (name: String)
    ensures
        name@ == favicon_file_name_of(base_url@, ext@),
{
    let h = sha1_hex(base_url);
    let mut v = chars_of(h.as_str());
    append_str(&mut v, ".");
    append_str(&mut v, ext);
    string_of(&v)
}

/// Where a page's favicon comes from.
pub enum FaviconSource {
    /// An inline `data:` icon: the bytes to store under the file name.
    Inline { file_name: String, bytes: Vec<u8> },
    /// An icon to download from this URL.
    Remote { url: String },
    /// The icon reference cannot be resolved against the page URL.
    Unavailable,
}

/// Decides where the favicon referenced by `href` on the page `base_url` comes from.
pub fn favicon_source(base_url: &str, href: &str) -> (r: FaviconSource)
    ensures
        match data_icon(href@) {
            Some((ext, bytes)) => r matches FaviconSource::Inline { file_name, bytes: b }
                && file_name@ == favicon_file_name_of(base_url@, ext) && b@ == bytes,
            None => match crate::weburl::url_join_result(base_url@, href@) {
                Some(u) => r matches FaviconSource::Remote { url } && url@ == u,
                None => r is Unavailable,
            },
        },
{
    match decode_data_icon(href) {
        Some((ext, bytes)) => {
            let file_name = favicon_file_name(base_url, ext.as_str());
            FaviconSource::Inline { file_name, bytes }
        },
        None => match crate::weburl::join_url(base_url, href) {
            Some(url) => FaviconSource::Remote { url },
            None => FaviconSource::Unavailable,
        },
    }
}

/// For a downloaded favicon: the cache file name when the response is an
/// image of at most 2 MiB, else `None`.
pub fn remote_favicon_file(base_url: &str, content_type: &str, len: usize) -> (r: Option<String>)
    ensures
        match r {
            Some(name) => starts_with(content_type@, "image/"@) && len <= FAVICON_MAX_BYTES
                && name@ == favicon_file_name_of(
                base_url@,
                ext_for_media_type(media_type(content_type@)),
            ),
            None => !starts_with(content_type@, "image/"@) || len > FAVICON_MAX_BYTES,
        },
{
    if !is_image_content_type(content_type) || len > FAVICON_MAX_BYTES {
        return None;
    }
    let ext = ext_for_content_type(content_type);
    Some(favicon_file_name(base_url, ext))
}

/// The first `n` characters of `s`.
pub fn take_chars(s: &str, n: usize) -> (r: String)
    ensures
        r@ == s@.take(if n < s@.len() { n as int } else { s@.len() as int }),
{
    let v = chars_of(s);
    let k = if n < v.len() {
        n
    } else {
        v.len()
    };
    let t = slice_vec(&v, 0, k);
    assert(v@.subrange(0, k as int) == v@.take(k as int));
    string_of(&t)
}

/// The title of a fetched page: its `<title>` text, or the final URL when that is empty.
pub fn page_title(title: String, final_url: String) -> (t: String)
    ensures
        t@ == if title@.len() == 0 {
            final_url@
        } else {
            title@
        },
{
    if title.as_str().unicode_len() == 0 {
        final_url
    } else {
        title
    }
}

/// The icon reference of a page: its icon link, or `/favicon.ico`.
pub fn favicon_href(link: Option<String>) -> (h: String)
    ensures
        h@ == match link {
            Some(l) => l@,
            None => "/favicon.ico"@,
        },
{
    match link {
        Some(l) => l,
        None => String::from_str("/favicon.ico"),
    }
}

/// What a failed, timed-out or offline fetch yields: the URL as title and no icon.
pub fn fallback_meta(url: &str) -> (m: UrlMeta)
    ensures
        m.title@ == url@,
        m.favicon_path is None,
{
    UrlMeta { title: String::from_str(url), favicon_path: None }
}

} // verus!

verus! {

proof fn lemma_first_index_at(s: Seq<char>, c: char, i: int, k: int)
    requires
        0 <= i <= k < s.len(),
        s[k] == c,
        forall|q: int| i <= q < k ==> s[q] != c,
    ensures
        crate::text::first_index_from(s, c, i) == Some(k),
    decreases k - i,
{
    if i < k {
        lemma_first_index_at(s, c, i + 1, k);
    }
}

proof fn lemma_last_index_at(s: Seq<char>, c: char, i: int, k: int)
    requires
        0 <= k < i <= s.len(),
        s[k] == c,
        forall|q: int| k < q < i ==> s[q] != c,
    ensures
        crate::text::last_index_below(s, c, i) == Some(k),
    decreases i,
{
    if i - 1 > k {
        lemma_last_index_at(s, c, i - 1, k);
    }
}

/// An inline icon whose media-type parameters end in `;base64` is read as
/// base64, whatever parameters come before: for
/// `data:image/<m>;base64,<d>` (with no comma in `m`) the data is `d`, the
/// base64 flag is set, and the extension comes from the subtype `m` without
/// its last parameter (its lower-cased part before any `+`).
pub proof fn law_base64_marker_is_last_parameter(m: Seq<char>, d: Seq<char>)
    requires
        forall|q: int| 0 <= q < m.len() ==> m[q] != ',',
    ensures
        ({
            let ext = lower(split_char(m, '+')[0]);
            data_icon_header("data:image/"@ + m + ";base64,"@ + d) == if ext.len() > 0
                && crate::text::all_alnum(ext) {
                Some((ext, true, d))
            } else {
                None::<(Seq<char>, bool, Seq<char>)>
            }
        }),
{
    reveal_strlit("data:image/");
    reveal_strlit(";base64,");
    reveal_strlit("base64");
    reveal_strlit(";base64");
    crate::text::lemma_split_nonempty(m, '+');
    let pre = "data:image/"@;
    let mark = ";base64,"@;
    let href = pre + m + mark + d;
    assert(pre.len() == 11);
    assert(mark.len() == 8);
    assert(href.subrange(0, pre.len() as int) =~= pre);
    let rest = href.subrange(pre.len() as int, href.len() as int);
    assert(rest =~= m + mark + d);
    let ci: int = m.len() as int + 7;
    assert(rest[ci] == ',');
    assert forall|q: int| 0 <= q < ci implies rest[q] != ',' by {
        if q < m.len() {
            assert(rest[q] == m[q]);
        } else {
            assert(rest[q] == mark[q - m.len()]);
        }
    }
    lemma_first_index_at(rest, ',', 0, ci);
    let meta = rest.subrange(0, ci);
    let data = rest.subrange(ci + 1, rest.len() as int);
    assert(data =~= d);
    assert(meta =~= m + ";base64"@);
    let si = m.len() as int;
    assert(meta[si] == ';');
    assert forall|q: int| si < q < meta.len() implies meta[q] != ';' by {
        assert(meta[q] == mark[q - m.len()]);
    }
    lemma_last_index_at(meta, ';', meta.len() as int, si);
    assert(meta.subrange(si + 1, meta.len() as int) =~= "base64"@);
    assert(meta.subrange(0, si) =~= m);
}

} // verus!
