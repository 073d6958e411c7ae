use webview_proxy::codec::{percent_decode, percent_encode};
use webview_proxy::proxy::ProxyError;
use webview_proxy::token::{decode_token, encode_token, DecodeError};

fn v(s: &str) -> Vec<u8> {
    s.as_bytes().to_vec()
}

fn pair(n: &str, val: &str) -> (Vec<u8>, Vec<u8>) {
    (v(n), v(val))
}

#[test]
fn round_trip_url_and_headers() {
    let url = v("https://example.com/a?b=1");
    let headers = vec![pair("X-Test", "v")];
    let token = encode_token(url.as_slice(), Some(&headers));
    let decoded = decode_token(
        token.headers_segment.as_slice(),
        token.url_segment.as_slice(),
    )
    .unwrap();
    assert_eq!(decoded.0, url);
    assert_eq!(decoded.1, headers);
}

#[test]
fn round_trip_many_headers() {
    let url = v("http://host.example:8080/path/x%20y?q=a&r=b#frag");
    let headers = vec![pair("X-A", "1"), pair("X-B", ""), pair("Accept", "text/html")];
    let token = encode_token(url.as_slice(), Some(&headers));
    let decoded = decode_token(
        token.headers_segment.as_slice(),
        token.url_segment.as_slice(),
    )
    .unwrap();
    assert_eq!(decoded.0, url);
    assert_eq!(decoded.1, headers);
}

#[test]
fn encode_matches_outside_encoder() {
    for s in [
        "https://example.com/a?b=1",
        "plain-text_~.ok",
        "space and +plus/slash:colon,comma",
        "unicode \u{00e9}\u{4e16}\u{754c}",
        "",
    ] {
        let mine = percent_encode(s.as_bytes());
        let theirs = urlencoding::encode(s);
        assert_eq!(mine, theirs.as_bytes().to_vec(), "encoding of {:?}", s);
    }
}

#[test]
fn decode_matches_outside_decoder() {
    for s in [
        "abc%20def",
        "%",
        "a%",
        "a%4",
        "a%4g",
        "%zz",
        "%2fx%2Fy",
        "100%25",
        "%e4%b8%96",
    ] {
        let mine = percent_decode(s.as_bytes());
        let theirs = urlencoding::decode_binary(s.as_bytes());
        assert_eq!(mine, theirs.to_vec(), "decoding of {:?}", s);
    }
}

#[test]
fn empty_headers_become_sentinel() {
    let url = v("https://example.com/");
    let none = encode_token(url.as_slice(), None);
    assert_eq!(none.headers_segment, v("_"));
    let empty: Vec<(Vec<u8>, Vec<u8>)> = Vec::new();
    let some = encode_token(url.as_slice(), Some(&empty));
    assert_eq!(some.headers_segment, v("_"));
}

#[test]
fn sentinel_decodes_to_no_headers() {
    let url = v("https://example.com/");
    let token = encode_token(url.as_slice(), None);
    let decoded = decode_token(
        token.headers_segment.as_slice(),
        token.url_segment.as_slice(),
    )
    .unwrap();
    assert_eq!(decoded.0, url);
    assert!(decoded.1.is_empty());
}

#[test]
fn pieces_without_colon_are_ignored() {
    let url = v("https://example.com/");
    let useg = percent_encode(url.as_slice());
    let hseg = percent_encode(b"abc,x:1,,also-no-colon");
    let decoded = decode_token(hseg.as_slice(), useg.as_slice()).unwrap();
    assert_eq!(decoded.1, vec![pair("x", "1")]);
}

#[test]
fn url_segment_failing_decoding_is_rejected() {
    // %FF decodes to a lone 0xFF byte, which is not UTF-8
    let r = decode_token(b"_", b"%FF");
    assert_eq!(r.unwrap_err(), DecodeError::InvalidUrlEncoding);
    assert_eq!(ProxyError::InvalidUrlEncoding.status(), 400);
}

#[test]
fn unparsable_target_url_is_rejected() {
    let useg = percent_encode(b"http://[");
    let r = decode_token(b"_", useg.as_slice());
    assert_eq!(r.unwrap_err(), DecodeError::InvalidTargetUrl);
    assert_eq!(ProxyError::InvalidTargetUrl.status(), 400);
}

#[test]
fn undecodable_headers_segment_degrades_to_no_headers() {
    let url = v("https://example.com/");
    let useg = percent_encode(url.as_slice());
    // %FF is not UTF-8: declared headers are best effort, the request goes on
    let decoded = decode_token(b"%FF", useg.as_slice()).unwrap();
    assert_eq!(decoded.0, url);
    assert!(decoded.1.is_empty());
}

#[test]
fn value_may_hold_colon_name_splits_at_first() {
    let url = v("https://example.com/");
    let headers = vec![pair("X-Time", "12:34:56")];
    let token = encode_token(url.as_slice(), Some(&headers));
    let decoded = decode_token(
        token.headers_segment.as_slice(),
        token.url_segment.as_slice(),
    )
    .unwrap();
    assert_eq!(decoded.1, headers);
}
