//! What the library knows of HTTP: the destination's endpoints, the headers
//! of a write request, the families of status codes, and what came of a
//! request.

use vstd::prelude::*;
use vstd::string::StringExecFns;

verus! {

/// The family of a status code.
#[derive(Clone, Copy, Debug, PartialEq, Eq, Structural)]
pub enum StatusClass {
    /// 200 to 299.
    Success,
    /// 400 to 499.
    ClientError,
    /// 500 to 599.
    ServerError,
    /// Any other code.
    Other,
}

/// The family of the status code `status`.
pub open spec fn status_class(status: u16) -> StatusClass {
    if 200 <= status < 300 {
        StatusClass::Success
    } else if 400 <= status < 500 {
        StatusClass::ClientError
    } else if 500 <= status < 600 {
        StatusClass::ServerError
    } else {
        StatusClass::Other
    }
}

/// The family of the status code `status`.
pub fn classify_status(status: u16) -> (class: StatusClass)
    ensures
        class == status_class(status),
{
    if 200 <= status && status < 300 {
        StatusClass::Success
    } else if 400 <= status && status < 500 {
        StatusClass::ClientError
    } else if 500 <= status && status < 600 {
        StatusClass::ServerError
    } else {
        StatusClass::Other
    }
}

/// What came of one request: no response at all, or a response with its
/// status code and, where its body had the expected shape, what the body
/// held.
#[derive(Debug, Clone, PartialEq, Eq)]
pub enum HttpOutcome {
    /// The request failed on the network.
    Transport,
    /// The destination answered.
    Response { status: u16, body: Option<String> },
}

/// An endpoint of the destination.
#[derive(Clone, Copy, Debug, PartialEq, Eq, Structural)]
pub enum Endpoint {
    Authors,
    Tags,
    Posts,
    AuthorImage,
    PostImage,
    Image,
    Healthcheck,
}

/// The path of `endpoint` below the destination's base URL.
pub open spec fn endpoint_path(endpoint: Endpoint) -> Seq<char> {
    match endpoint {
        Endpoint::Authors => "/authors"@,
        Endpoint::Tags => "/tags"@,
        Endpoint::Posts => "/posts"@,
        Endpoint::AuthorImage => "/authors/image"@,
        Endpoint::PostImage => "/posts/image"@,
        Endpoint::Image => "/image"@,
        Endpoint::Healthcheck => "/healthcheck"@,
    }
}

/// The URL of `endpoint` at the destination whose base URL is `api_url`.
pub fn endpoint_url(api_url: &str, endpoint: Endpoint) -> (url: String)
    ensures
        url@ == api_url@ + endpoint_path(endpoint),
{
    let path = match endpoint {
        Endpoint::Authors => "/authors",
        Endpoint::Tags => "/tags",
        Endpoint::Posts => "/posts",
        Endpoint::AuthorImage => "/authors/image",
        Endpoint::PostImage => "/posts/image",
        Endpoint::Image => "/image",
        Endpoint::Healthcheck => "/healthcheck",
    };
    String::from_str(api_url).concat(path)
}

/// The value of the authorization header for the credential `token`.
pub fn bearer(token: &str) -> (value: String)
    ensures
        value@ == "Bearer "@ + token@,
{
    String::from_str("Bearer ").concat(token)
}

/// The value of the accept header of every request.
pub fn accept() -> (value: &'static str)
    ensures
        value@ == "application/json"@,
{
    "application/json"
}

} // verus!
