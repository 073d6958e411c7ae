use webview_proxy::codec::percent_encode;
use webview_proxy::port::{find_available_port, DEFAULT_START_PORT, PROBE_SPAN};
use webview_proxy::proxy::{passthrough_status, plan_request, EndpointState, ProxyError};

fn v(s: &str) -> Vec<u8> {
    s.as_bytes().to_vec()
}

fn pair(n: &str, val: &str) -> (Vec<u8>, Vec<u8>) {
    (v(n), v(val))
}

#[test]
fn status_codes_pass_through() {
    for code in [100u16, 200, 204, 301, 404, 500, 502, 599] {
        assert_eq!(passthrough_status(code), code);
    }
}

#[test]
fn unrepresentable_status_degrades_to_500() {
    assert_eq!(passthrough_status(0), 500);
    assert_eq!(passthrough_status(99), 500);
    assert_eq!(passthrough_status(1000), 500);
}

#[test]
fn port_is_stable_across_calls() {
    let mut state = EndpointState::new();
    assert_eq!(state.get_proxy_port(), 0);
    state.set_port(1430);
    let first = state.get_proxy_port();
    let second = state.get_proxy_port();
    assert_eq!(first, 1430);
    assert_eq!(first, second);
}

#[test]
fn proxy_url_has_expected_shape() {
    let mut state = EndpointState::new();
    state.set_port(1430);
    let headers = vec![pair("X-Test", "v")];
    let url = state.get_proxy_url(b"https://example.com/a?b=1", Some(&headers));
    assert_eq!(
        String::from_utf8(url).unwrap(),
        "http://127.0.0.1:1430/proxy/X-Test%3Av/https%3A%2F%2Fexample.com%2Fa%3Fb%3D1"
    );
}

#[test]
fn proxy_url_before_binding_embeds_port_zero() {
    let state = EndpointState::new();
    let url = state.get_proxy_url(b"https://example.com/", None);
    assert_eq!(
        String::from_utf8(url).unwrap(),
        "http://127.0.0.1:0/proxy/_/https%3A%2F%2Fexample.com%2F"
    );
}

#[test]
fn first_free_port_is_taken() {
    let mut free = vec![false; (PROBE_SPAN as usize) + 1];
    free[3] = true;
    free[7] = true;
    assert_eq!(
        find_available_port(DEFAULT_START_PORT, &free),
        Some(DEFAULT_START_PORT + 3)
    );
}

#[test]
fn no_free_port_reports_none() {
    let free = vec![false; (PROBE_SPAN as usize) + 1];
    assert_eq!(find_available_port(DEFAULT_START_PORT, &free), None);
}

#[test]
fn plan_merges_declared_and_native_headers() {
    let url = v("https://example.com/a");
    let useg = percent_encode(url.as_slice());
    let hseg = percent_encode(b"X-Foo:A");
    let native = vec![pair("Host", "127.0.0.1:1430"), pair("X-Foo", "B"), pair("Accept", "x")];
    let plan = plan_request(hseg.as_slice(), useg.as_slice(), None, &native).unwrap();
    assert_eq!(plan.url, url);
    assert_eq!(plan.headers, vec![pair("X-Foo", "A"), pair("Accept", "x")]);
}

#[test]
fn plan_appends_query_string() {
    let useg = percent_encode(b"https://example.com/a");
    let query = v("b=1&c=2");
    let native: Vec<(Vec<u8>, Vec<u8>)> = Vec::new();
    let plan = plan_request(b"_", useg.as_slice(), Some(&query), &native).unwrap();
    assert_eq!(plan.url, v("https://example.com/a?b=1&c=2"));
    assert!(plan.headers.is_empty());
}

#[test]
fn plan_rejects_undecodable_url_segment() {
    let native: Vec<(Vec<u8>, Vec<u8>)> = Vec::new();
    let e = plan_request(b"_", b"%FF", None, &native).unwrap_err();
    assert_eq!(e, ProxyError::InvalidUrlEncoding);
    assert_eq!(e.status(), 400);
    assert_eq!(e.message(), "Invalid URL encoding");
}

#[test]
fn error_taxonomy_statuses() {
    assert_eq!(ProxyError::InvalidUrlEncoding.status(), 400);
    assert_eq!(ProxyError::InvalidTargetUrl.status(), 400);
    assert_eq!(ProxyError::RequestBuildFailure.status(), 500);
    assert_eq!(ProxyError::UpstreamRequestFailure.status(), 502);
    assert_eq!(ProxyError::UpstreamRequestFailure.message(), "Request failed: ");
    assert_eq!(ProxyError::RequestBuildFailure.message(), "Failed to build request");
    assert_eq!(ProxyError::InvalidTargetUrl.message(), "Invalid target URL");
}
