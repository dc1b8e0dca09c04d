//! Content negotiation: whether a request's `Accept` header asks for HTML.

use vstd::prelude::*;
use hyper::header::{HeaderMap, HeaderValue};

verus! {

#[verifier::external_type_specification]
#[verifier::external_body]
#[verifier::reject_recursive_types(T)]
pub struct ExHeaderMap<T>(HeaderMap<T>);

#[verifier::external_type_specification]
#[verifier::external_body]
pub struct ExHeaderValue(HeaderValue);

/// The raw bytes of the values of the `Accept` headers of a header map, in
/// the order the map keeps them.
pub uninterp spec fn accept_header_values(headers: HeaderMap) -> Seq<Seq<u8>>;

/// Calls `HeaderMap::get_all` for `ACCEPT` and hands back the bytes of each
/// value (`HeaderValue::as_bytes`). Claimed: the result is, value for value,
/// the raw `Accept` values of the map in its order.
#[verifier::external_body]
fn accept_values(headers: &HeaderMap) -> (r: Vec<Vec<u8>>)
    ensures
        r@.map_values(|v: Vec<u8>| v@) == accept_header_values(*headers),
{
    headers.get_all(hyper::header::ACCEPT).iter().map(|v| v.as_bytes().to_vec()).collect()
}

/// A header value can be read as text: every byte is visible ASCII or a tab.
pub open spec fn visible_ascii(s: Seq<u8>) -> bool {
    forall|i: int| 0 <= i < s.len() ==> (32 <= #[trigger] s[i] && s[i] < 127) || s[i] == 9
}

/// `[a, b)` is one of the comma-separated items of `s`.
pub open spec fn is_item(s: Seq<u8>, a: int, b: int) -> bool {
    &&& 0 <= a <= b <= s.len()
    &&& (a == 0 || s[a - 1] == 44)
    &&& (b == s.len() || s[b] == 44)
    &&& forall|k: int| a <= k < b ==> #[trigger] s[k] != 44
}

/// The first position in `[a, b)` holding `c`, or `b`.
pub open spec fn scan_to(s: Seq<u8>, c: u8, a: int, b: int) -> int
    decreases b - a,
{
    if a >= b {
        b
    } else if s[a] == c {
        a
    } else {
        scan_to(s, c, a + 1, b)
    }
}

/// Whitespace as `str::trim` removes it, among ASCII bytes.
pub open spec fn is_blank(c: u8) -> bool {
    c == 32 || (9 <= c && c <= 13)
}

/// The first position in `[a, b)` that is not blank, or `b`.
pub open spec fn skip_blanks(s: Seq<u8>, a: int, b: int) -> int
    decreases b - a,
{
    if a < b && is_blank(s[a]) {
        skip_blanks(s, a + 1, b)
    } else {
        a
    }
}

/// The end of `[a, b)` once blanks at its end are dropped.
pub open spec fn drop_trailing_blanks(s: Seq<u8>, a: int, b: int) -> int
    decreases b - a,
{
    if a < b && is_blank(s[b - 1]) {
        drop_trailing_blanks(s, a, b - 1)
    } else {
        b
    }
}

/// The media type named by the item `[a, b)`: the part before the first
/// `;`, without surrounding blanks.
pub open spec fn media_type(s: Seq<u8>, a: int, b: int) -> Seq<u8> {
    let e = scan_to(s, 59, a, b);
    let l = skip_blanks(s, a, e);
    s.subrange(l, drop_trailing_blanks(s, l, e))
}

pub open spec fn ascii_lower(c: u8) -> u8 {
    if 65 <= c && c <= 90 { (c + 32) as u8 } else { c }
}

pub open spec fn eq_ignore_ascii_case(x: Seq<u8>, y: Seq<u8>) -> bool {
    x.len() == y.len() && forall|i: int| 0 <= i < x.len() ==> ascii_lower(#[trigger] x[i]) == ascii_lower(y[i])
}

/// `text/html`
pub open spec fn text_html() -> Seq<u8> {
    seq![116u8, 101, 120, 116, 47, 104, 116, 109, 108]
}

/// `html`
pub open spec fn html() -> Seq<u8> {
    seq![104u8, 116, 109, 108]
}

/// One `Accept` value asks for HTML: it is text, and one of its items names
/// `text/html` (ignoring parameters, surrounding blanks and ASCII case).
pub open spec fn value_accepts_html(s: Seq<u8>) -> bool {
    &&& visible_ascii(s)
    &&& exists|a: int, b: int| is_item(s, a, b) && eq_ignore_ascii_case(media_type(s, a, b), text_html())
}

/// Some `Accept` value asks for HTML.
pub open spec fn accepts_html(values: Seq<Seq<u8>>) -> bool {
    exists|i: int| 0 <= i < values.len() && value_accepts_html(#[trigger] values[i])
}

/// One item of an `Accept` value is exactly `text/html` or `html`.
pub open spec fn value_lists_html_exactly(s: Seq<u8>) -> bool {
    exists|a: int, b: int| is_item(s, a, b) && (s.subrange(a, b) == text_html() || s.subrange(a, b) == html())
}

fn is_visible_ascii(s: &Vec<u8>) -> (b: bool)
    ensures
        b == visible_ascii(s@),
{
    let n = s.len();
    let mut i: usize = 0;
    while i < n
        invariant
            n == s@.len(),
            0 <= i <= n,
            forall|k: int| 0 <= k < i ==> (32 <= #[trigger] s@[k] && s@[k] < 127) || s@[k] == 9,
        decreases n - i,
    {
        let c = s[i];
        if !((32 <= c && c < 127) || c == 9) {
            return false;
        }
        i = i + 1;
    }
    true
}

fn lower(c: u8) -> (r: u8)
    ensures
        r == ascii_lower(c),
{
    if 65 <= c && c <= 90 { c + 32 } else { c }
}

fn blank(c: u8) -> (r: bool)
    ensures
        r == is_blank(c),
{
    c == 32 || (9 <= c && c <= 13)
}

fn text_html_bytes() -> (v: Vec<u8>)
    ensures
        v@ == text_html(),
{
    let v: Vec<u8> = vec![116u8, 101, 120, 116, 47, 104, 116, 109, 108];
    assert(v@ =~= text_html());
    v
}

fn html_bytes() -> (v: Vec<u8>)
    ensures
        v@ == html(),
{
    let v: Vec<u8> = vec![104u8, 116, 109, 108];
    assert(v@ =~= html());
    v
}

/// The bytes `s[a..b]`, compared with `t` (ignoring ASCII case where asked).
fn range_equals(s: &Vec<u8>, a: usize, b: usize, t: &Vec<u8>, ignore_case: bool) -> (r: bool)
    requires
        a <= b <= s@.len(),
    ensures
        ignore_case ==> r == eq_ignore_ascii_case(s@.subrange(a as int, b as int), t@),
        !ignore_case ==> r == (s@.subrange(a as int, b as int) == t@),
{
    if b - a != t.len() {
        return false;
    }
    let mut i: usize = 0;
    while i < t.len()
        invariant
            a <= b <= s@.len(),
            b - a == t@.len(),
            0 <= i <= t@.len(),
            forall|k: int| 0 <= k < i ==>
                if ignore_case { ascii_lower(s@[a + k]) == ascii_lower(t@[k]) } else { s@[a + k] == t@[k] },
        decreases t@.len() - i,
    {
        let x = s[a + i];
        let y = t[i];
        if ignore_case {
            if lower(x) != lower(y) {
                assert(s@.subrange(a as int, b as int)[i as int] == x);
                return false;
            }
        } else if x != y {
            assert(s@.subrange(a as int, b as int)[i as int] == x);
            return false;
        }
        i = i + 1;
    }
    assert(!ignore_case ==> s@.subrange(a as int, b as int) =~= t@);
    true
}

/// Whether the media type of the item `[a, b)` is `text/html`, ignoring case.
fn item_names_html(s: &Vec<u8>, a: usize, b: usize, target: &Vec<u8>) -> (r: bool)
    requires
        a <= b <= s@.len(),
        target@ == text_html(),
    ensures
        r == eq_ignore_ascii_case(media_type(s@, a as int, b as int), text_html()),
{
    let mut e = a;
    while e < b && s[e] != 59
        invariant
            a <= e <= b <= s@.len(),
            scan_to(s@, 59, a as int, b as int) == scan_to(s@, 59, e as int, b as int),
        decreases b - e,
    {
        e = e + 1;
    }
    let mut l = a;
    while l < e && blank(s[l])
        invariant
            a <= l <= e <= b <= s@.len(),
            skip_blanks(s@, a as int, e as int) == skip_blanks(s@, l as int, e as int),
        decreases e - l,
    {
        l = l + 1;
    }
    let mut r = e;
    while l < r && blank(s[r - 1])
        invariant
            l <= r <= e <= b <= s@.len(),
            drop_trailing_blanks(s@, l as int, e as int) == drop_trailing_blanks(s@, l as int, r as int),
        decreases r - l,
    {
        r = r - 1;
    }
    range_equals(s, l, r, target, true)
}

/// Where the item `[a, b)` ends, the item that ends at `b` starts at `a`.
proof fn lemma_item_start_unique(s: Seq<u8>, a: int, a2: int, b: int)
    requires
        is_item(s, a, b),
        is_item(s, a2, b),
    ensures
        a == a2,
{
    if a2 < a {
        assert(s[a - 1] != 44);
    } else if a < a2 {
        assert(s[a2 - 1] != 44);
    }
}

/// Whether some item of `s` satisfies the test: its media type is
/// `text/html` ignoring case (`loose`), or it is exactly `text/html` or
/// `html` (otherwise).
fn some_item_matches(s: &Vec<u8>, loose: bool) -> (r: bool)
    ensures
        loose ==> r == exists|a: int, b: int| is_item(s@, a, b)
            && eq_ignore_ascii_case(media_type(s@, a, b), text_html()),
        !loose ==> r == value_lists_html_exactly(s@),
{
    let target = text_html_bytes();
    let short = html_bytes();
    let n = s.len();
    let mut a: usize = 0;
    let mut i: usize = 0;
    loop
        invariant
            n == s@.len(),
            target@ == text_html(),
            short@ == html(),
            0 <= a <= i <= n,
            a == 0 || s@[a - 1] == 44,
            forall|k: int| a <= k < i ==> #[trigger] s@[k] != 44,
            forall|a2: int, b2: int| is_item(s@, a2, b2) && b2 < a ==> if loose {
                !eq_ignore_ascii_case(media_type(s@, a2, b2), text_html())
            } else {
                !(s@.subrange(a2, b2) == text_html() || s@.subrange(a2, b2) == html())
            },
        decreases n + 1 - i,
    {
        if i == n || s[i] == 44 {
            assert(is_item(s@, a as int, i as int));
            let hit = if loose {
                item_names_html(s, a, i, &target)
            } else {
                range_equals(s, a, i, &target, false) || range_equals(s, a, i, &short, false)
            };
            if hit {
                return true;
            }
            assert forall|a2: int, b2: int| is_item(s@, a2, b2) && b2 < i + 1 implies if loose {
                !eq_ignore_ascii_case(media_type(s@, a2, b2), text_html())
            } else {
                !(s@.subrange(a2, b2) == text_html() || s@.subrange(a2, b2) == html())
            } by {
                if b2 == i {
                    lemma_item_start_unique(s@, a as int, a2, i as int);
                } else if b2 >= a {
                    assert(s@[b2] == 44);
                }
            }
            if i == n {
                assert forall|a2: int, b2: int| is_item(s@, a2, b2) implies if loose {
                    !eq_ignore_ascii_case(media_type(s@, a2, b2), text_html())
                } else {
                    !(s@.subrange(a2, b2) == text_html() || s@.subrange(a2, b2) == html())
                } by {
                }
                return false;
            }
            a = i + 1;
        }
        i = i + 1;
    }
}

/// Whether one `Accept` value asks for HTML.
pub fn accept_value_contains_text_html(value: &Vec<u8>) -> (r: bool)
    ensures
        r == value_accepts_html(value@),
{
    is_visible_ascii(value) && some_item_matches(value, true)
}

/// Whether the request headers ask for HTML: some `Accept` value, read as
/// text, has a comma-separated item whose media type (before any `;`
/// parameters, without surrounding blanks) is `text/html` in any ASCII case.
pub fn accept_header_contains_text_html(headers: &HeaderMap) -> (r: bool)
    ensures
        r == accepts_html(accept_header_values(*headers)),
{
    let values = accept_values(headers);
    let ghost vs = values@.map_values(|v: Vec<u8>| v@);
    let n = values.len();
    let mut i: usize = 0;
    while i < n
        invariant
            n == values@.len(),
            vs == values@.map_values(|v: Vec<u8>| v@),
            vs == accept_header_values(*headers),
            0 <= i <= n,
            forall|k: int| 0 <= k < i ==> !value_accepts_html(#[trigger] vs[k]),
        decreases n - i,
    {
        if accept_value_contains_text_html(&values[i]) {
            assert(vs[i as int] == values@[i as int]@);
            return true;
        }
        assert(vs[i as int] == values@[i as int]@);
        i = i + 1;
    }
    false
}

/// Whether the `Accept` value, which must be UTF-8, lists exactly
/// `text/html` or `html` among its comma-separated items.
pub fn accept_value_lists_html(value: &Vec<u8>) -> (r: bool)
    requires
        vstd::utf8::valid_utf8(value@),
    ensures
        r == value_lists_html_exactly(value@),
{
    some_item_matches(value, false)
}

/// Calls `HeaderMap::get` for `ACCEPT` and hands back the bytes of the value
/// (`HeaderValue::as_bytes`). Claimed: the first of the map's `Accept`
/// values, in the order that `get_all` walks them, or none when there is none.
#[verifier::external_body]
fn first_accept_value(headers: &HeaderMap) -> (r: Option<Vec<u8>>)
    ensures
        match r {
            Some(v) => accept_header_values(*headers).len() > 0 && v@ == accept_header_values(*headers)[0],
            None => accept_header_values(*headers).len() == 0,
        },
{
    match headers.get(hyper::header::ACCEPT) {
        Some(value) => Some(value.as_bytes().to_vec()),
        None => None,
    }
}

/// Calls `std::str::from_utf8`. Claimed: it succeeds exactly on the byte
/// strings that are valid UTF-8.
#[verifier::external_body]
fn is_utf8(bytes: &Vec<u8>) -> (r: bool)
    ensures
        r == vstd::utf8::valid_utf8(bytes@),
{
    std::str::from_utf8(bytes.as_slice()).is_ok()
}

/// Whether a request asks for HTML the way the JSON pages read it: its first
/// `Accept` value lists exactly `text/html` or `html`; no `Accept` header
/// asks for none. `None` where that first value is not UTF-8, which the page
/// server refuses.
pub fn first_accept_lists_html(headers: &HeaderMap) -> (r: Option<bool>)
    ensures
        accept_header_values(*headers).len() == 0 ==> r == Some(false),
        accept_header_values(*headers).len() > 0 ==> r == (if vstd::utf8::valid_utf8(accept_header_values(*headers)[0]) {
            Some(value_lists_html_exactly(accept_header_values(*headers)[0]))
        } else {
            None
        }),
{
    match first_accept_value(headers) {
        Some(value) => {
            if is_utf8(&value) {
                Some(accept_value_lists_html(&value))
            } else {
                None
            }
        },
        None => Some(false),
    }
}

/// What the HTML page that shows a JSON document is filled with.
pub struct DataHtmlTemplate<'a> {
    pub raw_json_as_string: &'a str,
}

/// What the HTML page of the WebSocket client is filled with.
pub struct WsHtmlTemplate<'a> {
    pub ws_address: &'a str,
}

/// How a JSON document is answered.
pub enum JsonOrHtml<'a> {
    /// As an HTML page showing the document.
    Html(DataHtmlTemplate<'a>),
    /// As the document itself, under this content type.
    Json { content_type: &'static str, body: String },
}

/// Answers a JSON document as an HTML page when the request asks for HTML,
/// and as `application/json` otherwise.
pub fn json_or_html<'a>(headers: &HeaderMap, raw_json_as_string: &'a str) -> (r: JsonOrHtml<'a>)
    ensures
        accepts_html(accept_header_values(*headers)) ==>
            (r matches JsonOrHtml::Html(t) && t.raw_json_as_string@ == raw_json_as_string@),
        !accepts_html(accept_header_values(*headers)) ==>
            (r matches JsonOrHtml::Json { content_type, body }
                && content_type@ == "application/json"@ && body@ == raw_json_as_string@),
{
    if accept_header_contains_text_html(headers) {
        JsonOrHtml::Html(DataHtmlTemplate { raw_json_as_string })
    } else {
        JsonOrHtml::Json { content_type: "application/json", body: String::from_str(raw_json_as_string) }
    }
}

} // verus!
