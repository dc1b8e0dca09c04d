use hyper::header::{self, HeaderMap, HeaderValue};
use maroon::http::{
    accept_header_contains_text_html, accept_value_contains_text_html, accept_value_lists_html, first_accept_lists_html, json_or_html,
    JsonOrHtml,
};

#[test]
fn test_accept_header_contains_text_html() {
    let mut headers = HeaderMap::new();
    headers.insert(header::ACCEPT, "text/html".parse().unwrap());
    assert!(accept_header_contains_text_html(&headers));

    headers.insert(header::ACCEPT, "application/json, Text/Html; q=0.5".parse().unwrap());
    assert!(accept_header_contains_text_html(&headers));

    headers.clear();
    headers.insert(header::ACCEPT, "application/xml".parse().unwrap());
    assert!(!accept_header_contains_text_html(&headers));
}

#[test]
fn no_accept_header_means_no_html() {
    let headers = HeaderMap::new();
    assert!(!accept_header_contains_text_html(&headers));
}

#[test]
fn any_of_several_accept_headers_may_ask_for_html() {
    let mut headers = HeaderMap::new();
    headers.append(header::ACCEPT, "application/json".parse().unwrap());
    headers.append(header::ACCEPT, " TEXT/HTML ;q=1".parse().unwrap());
    assert!(accept_header_contains_text_html(&headers));
}

#[test]
fn a_value_with_bytes_beyond_ascii_is_not_read() {
    let mut headers = HeaderMap::new();
    headers.insert(header::ACCEPT, HeaderValue::from_bytes(b"text/html, \xe9").unwrap());
    assert!(!accept_header_contains_text_html(&headers));
}

#[test]
fn single_accept_values() {
    assert!(accept_value_contains_text_html(&b"text/html".to_vec()));
    assert!(accept_value_contains_text_html(&b"a/b,\ttext/html\t".to_vec()));
    assert!(!accept_value_contains_text_html(&b"text/htmlx".to_vec()));
    assert!(!accept_value_contains_text_html(&b"text/plain; x=text/html".to_vec()));
    assert!(!accept_value_contains_text_html(&b"".to_vec()));
}

#[test]
fn listing_html_needs_an_exact_item() {
    assert!(accept_value_lists_html(&b"text/html".to_vec()));
    assert!(accept_value_lists_html(&b"application/json,html".to_vec()));
    assert!(!accept_value_lists_html(&b"application/json, text/html".to_vec()));
    assert!(!accept_value_lists_html(&b"TEXT/HTML".to_vec()));
    assert!(!accept_value_lists_html(&b"text/html;q=1".to_vec()));
}

#[test]
fn test_getting_json() {
    let mut headers = HeaderMap::new();
    headers.insert(header::ACCEPT, "application/json".parse().unwrap());
    match json_or_html(&headers, r#"{"test":"data"}"#) {
        JsonOrHtml::Json { content_type, body } => {
            assert_eq!(content_type, "application/json");
            assert_eq!(body, r#"{"test":"data"}"#);
        }
        JsonOrHtml::Html(_) => panic!("expected JSON"),
    }
}

#[test]
fn test_getting_html() {
    let mut headers = HeaderMap::new();
    headers.insert(header::ACCEPT, "text/html".parse().unwrap());
    match json_or_html(&headers, r#"{"test":"data"}"#) {
        JsonOrHtml::Html(t) => assert_eq!(t.raw_json_as_string, r#"{"test":"data"}"#),
        JsonOrHtml::Json { .. } => panic!("expected HTML"),
    }
}

#[test]
fn the_first_accept_value_decides_the_page() {
    let mut headers = HeaderMap::new();
    assert_eq!(first_accept_lists_html(&headers), Some(false));
    headers.append(header::ACCEPT, "application/json,html".parse().unwrap());
    headers.append(header::ACCEPT, "application/json".parse().unwrap());
    assert_eq!(first_accept_lists_html(&headers), Some(true));
    let mut later = HeaderMap::new();
    later.append(header::ACCEPT, "application/json".parse().unwrap());
    later.append(header::ACCEPT, "text/html".parse().unwrap());
    assert_eq!(first_accept_lists_html(&later), Some(false));
    let mut loose = HeaderMap::new();
    loose.insert(header::ACCEPT, "text/html; q=1".parse().unwrap());
    assert_eq!(first_accept_lists_html(&loose), Some(false));
}

#[test]
fn an_accept_value_that_is_not_utf8_is_refused() {
    let mut headers = HeaderMap::new();
    headers.insert(header::ACCEPT, HeaderValue::from_bytes(b"text/html, \xff").unwrap());
    assert_eq!(first_accept_lists_html(&headers), None);
}
