use webview_proxy::headers::{filter_response_headers, merge_headers, sanitize_headers};

fn v(s: &str) -> Vec<u8> {
    s.as_bytes().to_vec()
}

fn pair(n: &str, val: &str) -> (Vec<u8>, Vec<u8>) {
    (v(n), v(val))
}

#[test]
fn declared_header_wins_over_native() {
    let declared = vec![pair("X-Foo", "A")];
    let native = vec![pair("X-Foo", "B")];
    let merged = merge_headers(&declared, &native);
    assert_eq!(merged, vec![pair("X-Foo", "A")]);
}

#[test]
fn declared_wins_case_insensitively() {
    let declared = vec![pair("x-foo", "A")];
    let native = vec![pair("X-FOO", "B"), pair("X-Bar", "C")];
    let merged = merge_headers(&declared, &native);
    assert_eq!(merged, vec![pair("x-foo", "A"), pair("X-Bar", "C")]);
}

#[test]
fn excluded_names_never_copied_from_native() {
    let declared: Vec<(Vec<u8>, Vec<u8>)> = Vec::new();
    let native = vec![
        pair("Host", "127.0.0.1:1430"),
        pair("Referer", "http://127.0.0.1:1430/"),
        pair("Origin", "http://127.0.0.1:1430"),
        pair("Accept", "text/html"),
    ];
    let merged = merge_headers(&declared, &native);
    assert_eq!(merged, vec![pair("Accept", "text/html")]);
}

#[test]
fn first_native_occurrence_wins() {
    let declared: Vec<(Vec<u8>, Vec<u8>)> = Vec::new();
    let native = vec![pair("X-A", "1"), pair("x-a", "2"), pair("X-B", "3")];
    let merged = merge_headers(&declared, &native);
    assert_eq!(merged, vec![pair("X-A", "1"), pair("X-B", "3")]);
}

#[test]
fn invalid_declared_pairs_are_dropped() {
    let declared = vec![
        pair("Good-Name", "ok"),
        pair("bad name", "space in name"),
        pair("Bad-Value", "line\nbreak"),
    ];
    let kept = sanitize_headers(&declared);
    assert_eq!(kept, vec![pair("Good-Name", "ok")]);
}

#[test]
fn connection_header_is_stripped_from_responses() {
    let upstream = vec![
        pair("Connection", "keep-alive"),
        pair("Content-Type", "text/html"),
        pair("CONNECTION", "close"),
    ];
    let kept = filter_response_headers(&upstream);
    assert_eq!(kept, vec![pair("Content-Type", "text/html")]);
}

#[test]
fn unparsable_response_header_is_dropped_alone() {
    let upstream = vec![pair("bad header", "x"), pair("Content-Length", "2")];
    let kept = filter_response_headers(&upstream);
    assert_eq!(kept, vec![pair("Content-Length", "2")]);
}
