//! Plain data carried between the UI layer and the host commands.

use vstd::prelude::*;

verus! {

/// A ping with an optional payload.
#[derive(Debug)]
pub struct PingRequest {
    pub value: Option<String>,
}

/// The echo of a ping.
#[derive(Debug, Clone)]
pub struct PingResponse {
    pub value: Option<String>,
}

/// A request that carries nothing.
#[derive(Debug)]
pub struct EmptyRequest {}

/// A response that carries nothing.
#[derive(Debug, Clone)]
pub struct EmptyResponse {}

/// An image to persist to public picture storage.
#[derive(Debug)]
pub struct SaveImageRequest {
    pub image_data: String,
    pub filename: String,
}

/// A file to persist to public download storage.
#[derive(Debug)]
pub struct SaveFileRequest {
    pub bytes: String,
    pub filename: String,
    pub mime_type: String,
}

/// Where a saved file landed, when the platform reports it.
#[derive(Debug, Clone)]
pub struct UriResponse {
    pub uri: Option<String>,
}

} // verus!
