//! Core logic of a small local HTTP forwarding proxy embedded in an
//! application: a web view issues same-origin requests against a local
//! listener, which decodes a target URL and declared headers from the
//! request path, merges them with the view's native headers, and forwards
//! the request upstream.
//!
//! This crate holds the verified decision logic: the path codec, the
//! header merge policy, the response envelope rules, the port allocation
//! policy and the endpoint state. The listener and the outbound HTTP
//! client live outside, hand this crate plain byte values and take plain
//! values back.

pub mod codec;
pub mod headers;
pub mod models;
pub mod port;
pub mod proxy;
pub mod storage;
pub mod token;
pub mod valid;
