//! Per-request decisions of the forwarding proxy and the endpoint state.
//!
//! `plan_request` turns an inbound request's token segments, query string
//! and native headers into either a forwarding plan (target URL and
//! outbound header set) or the error to answer with. The response side
//! passes the upstream status through and filters the upstream headers.
//! `EndpointState` is the write-once cell holding the bound port.

use crate::headers::{merge_headers, merge_spec, sanitize_headers, sanitize_spec};
use crate::token::{
    decode_headers_spec, decode_token, decode_url_spec, encode_token, encoded_headers,
    opt_headers_view, DecodeError,
};
use vstd::prelude::*;

verus! {

// ---------------------------------------------------------------------
// error taxonomy
// ---------------------------------------------------------------------

/// Everything that can go wrong with one proxied request.
#[derive(Debug, Clone, Copy, PartialEq, Eq, Structural)]
pub enum ProxyError {
    /// The URL segment did not percent-decode to a UTF-8 string (caller error).
    InvalidUrlEncoding,
    /// The decoded string does not parse as a URI (caller error).
    InvalidTargetUrl,
    /// The outbound request could not be built locally.
    RequestBuildFailure,
    /// The upstream request was sent and failed in transport.
    UpstreamRequestFailure,
}

/// The HTTP status answered for each failure: 400 for caller errors, 500
/// for local build failures, 502 for upstream transport failures.
pub open spec fn error_status_spec(e: ProxyError) -> u16 {
    match e {
        ProxyError::InvalidUrlEncoding => 400,
        ProxyError::InvalidTargetUrl => 400,
        ProxyError::RequestBuildFailure => 500,
        ProxyError::UpstreamRequestFailure => 502,
    }
}

impl ProxyError {
    /// The HTTP status code this failure is answered with.
    pub fn status(&self) -> (r: u16)
        ensures
            r == error_status_spec(*self),
    {
        match self {
            ProxyError::InvalidUrlEncoding => 400,
            ProxyError::InvalidTargetUrl => 400,
            ProxyError::RequestBuildFailure => 500,
            ProxyError::UpstreamRequestFailure => 502,
        }
    }

    /// The fixed part of the plain-text body this failure is answered
    /// with; an upstream failure appends the transport error's text.
    pub fn message(&self) -> (r: &'static str)
        ensures
            *self is InvalidUrlEncoding ==> r@ == "Invalid URL encoding"@,
            *self is InvalidTargetUrl ==> r@ == "Invalid target URL"@,
            *self is RequestBuildFailure ==> r@ == "Failed to build request"@,
            *self is UpstreamRequestFailure ==> r@ == "Request failed: "@,
    {
        match self {
            ProxyError::InvalidUrlEncoding => "Invalid URL encoding",
            ProxyError::InvalidTargetUrl => "Invalid target URL",
            ProxyError::RequestBuildFailure => "Failed to build request",
            ProxyError::UpstreamRequestFailure => "Request failed: ",
        }
    }
}

pub open spec fn decode_error_to_proxy(e: DecodeError) -> ProxyError {
    match e {
        DecodeError::InvalidUrlEncoding => ProxyError::InvalidUrlEncoding,
        DecodeError::InvalidTargetUrl => ProxyError::InvalidTargetUrl,
    }
}

impl From<DecodeError> for ProxyError {
    fn from(e: DecodeError) -> (r: ProxyError) {
        match e {
            DecodeError::InvalidUrlEncoding => ProxyError::InvalidUrlEncoding,
            DecodeError::InvalidTargetUrl => ProxyError::InvalidTargetUrl,
        }
    }
}

impl vstd::std_specs::convert::FromSpecImpl<DecodeError> for ProxyError {
    open spec fn obeys_from_spec() -> bool {
        true
    }

    open spec fn from_spec(e: DecodeError) -> ProxyError {
        decode_error_to_proxy(e)
    }
}

// ---------------------------------------------------------------------
// request planning
// ---------------------------------------------------------------------

/// Everything the outbound leg needs: the target URL (query appended)
/// and the outbound header set.
#[derive(Debug)]
pub struct ForwardPlan {
    pub url: Vec<u8>,
    pub headers: Vec<(Vec<u8>, Vec<u8>)>,
}

/// The target URL with the inbound query string appended, when there is
/// one.
pub open spec fn target_url_spec(decoded: Seq<u8>, query: Option<Seq<u8>>) -> Seq<u8> {
    match query {
        Some(q) => decoded + seq![63u8] + q,  // '?'
        None => decoded,
    }
}

pub open spec fn opt_query_view(query: Option<&Vec<u8>>) -> Option<Seq<u8>> {
    match query {
        Some(q) => Some(q@),
        None => None,
    }
}

/// The outbound header set for a request: the declared headers decoded
/// from the token, with invalid pairs dropped, merged with the native
/// headers under the exclusion list and declared-wins precedence.
pub open spec fn outbound_headers_spec(
    hseg: Seq<u8>,
    native: Seq<(Seq<u8>, Seq<u8>)>,
) -> Seq<(Seq<u8>, Seq<u8>)> {
    merge_spec(sanitize_spec(decode_headers_spec(hseg)), native)
}

/// Decide one inbound request: decode the token, build the target URL and
/// the outbound header set, or name the error to answer with.
pub fn plan_request(
    headers_segment: &[u8],
    url_segment: &[u8],
    query: Option<&Vec<u8>>,
    native: &Vec<(Vec<u8>, Vec<u8>)>,
) -> (r: Result<ForwardPlan, ProxyError>)
    ensures
        match r {
            Ok(plan) => {
                &&& decode_url_spec(url_segment@) is Ok
                &&& plan.url@ == target_url_spec(
                    decode_url_spec(url_segment@)->Ok_0,
                    opt_query_view(query),
                )
                &&& plan.headers.deep_view() == outbound_headers_spec(
                    headers_segment@,
                    native.deep_view(),
                )
            },
            Err(e) => decode_url_spec(url_segment@) matches Err(d) && e == decode_error_to_proxy(
                d,
            ),
        },
{
    let decoded = match decode_token(headers_segment, url_segment) {
        Ok(p) => p,
        Err(e) => {
            return Err(ProxyError::from(e));
        },
    };
    let (mut url, declared) = decoded;
    if let Some(q) = query {
        let ghost base = url@;
        url.push(63);
        crate::token::push_bytes(&mut url, q.as_slice());
        proof {
            assert(url@ =~= base + seq![63u8] + q@);
        }
    }
    let valid_declared = sanitize_headers(&declared);
    let outbound = merge_headers(&valid_declared, native);
    Ok(ForwardPlan { url, headers: outbound })
}

// ---------------------------------------------------------------------
// response envelope
// ---------------------------------------------------------------------

/// The status the caller sees: the upstream code itself whenever it is a
/// representable HTTP status, 500 otherwise.
pub open spec fn passthrough_status_spec(upstream: u16) -> u16 {
    if 100 <= upstream && upstream <= 999 {
        upstream
    } else {
        500
    }
}

/// Pass the upstream status through unchanged; an unrepresentable code
/// degrades to 500.
pub fn passthrough_status(upstream: u16) -> (r: u16)
    ensures
        r == passthrough_status_spec(upstream),
        100 <= upstream <= 999 ==> r == upstream,
{
    if 100 <= upstream && upstream <= 999 {
        upstream
    } else {
        500
    }
}

// ---------------------------------------------------------------------
// endpoint state
// ---------------------------------------------------------------------

/// The write-once cell holding the proxy's bound port: 0 until the
/// listener binds, then the port for the rest of the process lifetime.
pub struct EndpointState {
    pub port: u16,
}

impl EndpointState {
    /// A fresh state: no port bound yet.
    pub fn new() -> (s: Self)
        ensures
            s.port == 0,
    {
        EndpointState { port: 0 }
    }

    /// Record the bound port. Write-once: only an unset state accepts a
    /// port, so the value can never change afterwards.
    pub fn set_port(&mut self, p: u16)
        requires
            old(self).port == 0,
            p > 0,
        ensures
            final(self).port == p,
    {
        self.port = p;
    }

    /// The bound port, or 0 when the listener has not bound yet. The
    /// result is the state's single port field, so repeated calls on one
    /// state always return the same value.
    pub fn get_proxy_port(&self) -> (r: u16)
        ensures
            r == self.port,
    {
        self.port
    }

    /// Build the local proxy URL for a target and optional declared
    /// headers: `http://127.0.0.1:{port}/proxy/{headersSegment}/{urlSegment}`.
    /// Before the listener has bound, the embedded port is 0 and callers
    /// must treat the URL as not ready.
    pub fn get_proxy_url(
        &self,
        url: &[u8],
        headers: Option<&Vec<(Vec<u8>, Vec<u8>)>>,
    ) -> (r: Vec<u8>)
        ensures
            r@ == proxy_url_spec(self.port, url@, opt_headers_view(headers)),
    {
        let token = encode_token(url, headers);
        let mut out = proxy_prefix_bytes();
        let digits = format_port(self.port);
        crate::token::push_bytes(&mut out, digits.as_slice());
        let mid = proxy_path_mid_bytes();
        crate::token::push_bytes(&mut out, mid.as_slice());
        crate::token::push_bytes(&mut out, token.headers_segment.as_slice());
        out.push(47);
        crate::token::push_bytes(&mut out, token.url_segment.as_slice());
        proof {
            assert(out@ =~= proxy_url_spec(self.port, url@, opt_headers_view(headers)));
        }
        out
    }
}

/// Decimal digits of a number, most significant first.
pub open spec fn dec_digits(n: nat) -> Seq<u8>
    decreases n,
{
    if n < 10 {
        seq![(48 + n) as u8]
    } else {
        dec_digits(n / 10).push((48 + n % 10) as u8)
    }
}

/// Format a port number in decimal.
pub fn format_port(n: u16) -> (r: Vec<u8>)
    ensures
        r@ == dec_digits(n as nat),
    decreases n,
{
    if n < 10 {
        let mut v: Vec<u8> = Vec::new();
        v.push(48 + (n as u8));
        proof {
            assert(v@ =~= dec_digits(n as nat));
        }
        v
    } else {
        let mut v = format_port(n / 10);
        v.push(48 + ((n % 10) as u8));
        v
    }
}

/// The bytes of `http://127.0.0.1:`.
pub open spec fn proxy_prefix() -> Seq<u8> {
    seq![
        104u8,
        116u8,
        116u8,
        112u8,
        58u8,
        47u8,
        47u8,
        49u8,
        50u8,
        55u8,
        46u8,
        48u8,
        46u8,
        48u8,
        46u8,
        49u8,
        58u8,
    ]
}

/// The bytes of `/proxy/`.
pub open spec fn proxy_path_mid() -> Seq<u8> {
    seq![47u8, 112u8, 114u8, 111u8, 120u8, 121u8, 47u8]
}

/// The proxy URL for a target: local host and port, then the token.
pub open spec fn proxy_url_spec(port: u16, url: Seq<u8>, hs: Seq<(Seq<u8>, Seq<u8>)>) -> Seq<u8> {
    proxy_prefix() + dec_digits(port as nat) + proxy_path_mid() + encoded_headers(hs) + seq![47u8]
        + crate::codec::percent_encoded(url)
}

fn proxy_prefix_bytes() -> (r: Vec<u8>)
    ensures
        r@ == proxy_prefix(),
{
    let mut v: Vec<u8> = Vec::new();
    v.push(104);
    v.push(116);
    v.push(116);
    v.push(112);
    v.push(58);
    v.push(47);
    v.push(47);
    v.push(49);
    v.push(50);
    v.push(55);
    v.push(46);
    v.push(48);
    v.push(46);
    v.push(48);
    v.push(46);
    v.push(49);
    v.push(58);
    proof {
        assert(v@ =~= proxy_prefix());
    }
    v
}

fn proxy_path_mid_bytes() -> (r: Vec<u8>)
    ensures
        r@ == proxy_path_mid(),
{
    let mut v: Vec<u8> = Vec::new();
    v.push(47);
    v.push(112);
    v.push(114);
    v.push(111);
    v.push(120);
    v.push(121);
    v.push(47);
    proof {
        assert(v@ =~= proxy_path_mid());
    }
    v
}

} // verus!
