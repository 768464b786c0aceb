//! The site's routes: what they decide, apart from serving the request.
use vstd::prelude::*;

pub mod admin;
pub mod api;
pub mod mailtest;
pub mod payment;
pub mod user;

use crate::text::{owned, strip, strip_str, Strip};

verus! {

/// Where the site is served in production.
pub const BASE_URL: &'static str = "https://orto.ai";

/// Where the site is served during development.
pub const DEV_BASE_URL: &'static str = "http://local.host:8000";

/// The directory the site's files are served from.
#[derive(Clone, Debug)]
pub struct RootPath(pub String);

impl RootPath {
    pub fn new(path: String) -> (r: Self)
        ensures
            r.0@ == path@,
    {
        RootPath(path)
    }

    /// The path as text (its `Display`).
    pub fn to_text(&self) -> (r: String)
        ensures
            r@ == self.0@,
    {
        self.0.clone()
    }

    pub fn into_string(self) -> (r: String)
        ensures
            r@ == self.0@,
    {
        self.0
    }
}

/// `base/path` with the slashes around `path` removed.
pub open spec fn url_spec(base: Seq<char>, path: Seq<char>) -> Seq<char> {
    base + "/"@ + strip(path, Strip::Char('/'))
}

/// The absolute address of `path` on a site served at `base`.
pub fn url_on(base: &str, path: &str) -> (r: String)
    ensures
        r@ == url_spec(base@, path@),
{
    let mut out = owned(base);
    out.append("/");
    let trimmed = strip_str(path, Strip::Char('/'));
    out.append(trimmed.as_str());
    out
}

/// The absolute address of `path` on the production site.
pub fn url(path: &str) -> (r: String)
    ensures
        r@ == url_spec(BASE_URL@, path@),
{
    url_on(BASE_URL, path)
}

/// Why an endpoint could not complete.
#[derive(Debug)]
pub enum EndpointProcessingError {
    Unauthorized,
    RequestUnparsable,
    RequestNonsensical,
    /// Some step failed; the failure's message.
    Processing(String),
}

/// The mathematical content of an [`EndpointProcessingError`].
pub enum Failure {
    Unauthorized,
    RequestUnparsable,
    RequestNonsensical,
    Processing(Seq<char>),
}

impl View for EndpointProcessingError {
    type V = Failure;

    open spec fn view(&self) -> Failure {
        match self {
            EndpointProcessingError::Unauthorized => Failure::Unauthorized,
            EndpointProcessingError::RequestUnparsable => Failure::RequestUnparsable,
            EndpointProcessingError::RequestNonsensical => Failure::RequestNonsensical,
            EndpointProcessingError::Processing(m) => Failure::Processing(m@),
        }
    }
}

/// The view of an endpoint's result.
pub open spec fn outcome<T>(r: Result<T, EndpointProcessingError>) -> Result<T, Failure> {
    match r {
        Ok(v) => Ok(v),
        Err(e) => Err(e@),
    }
}

pub open spec fn endpoint_error_text(e: Failure) -> Seq<char> {
    match e {
        Failure::Unauthorized => "User was not authorized"@,
        Failure::RequestUnparsable => "Request did not match expected structure"@,
        Failure::RequestNonsensical => "Did not expect request"@,
        Failure::Processing(m) => "Encountered error during processing: "@ + m,
    }
}

impl EndpointProcessingError {
    /// The error's description (its `Display`).
    pub fn message(&self) -> (r: String)
        ensures
            r@ == endpoint_error_text(self@),
    {
        match self {
            EndpointProcessingError::Unauthorized => owned("User was not authorized"),
            EndpointProcessingError::RequestUnparsable => owned(
                "Request did not match expected structure",
            ),
            EndpointProcessingError::RequestNonsensical => owned("Did not expect request"),
            EndpointProcessingError::Processing(e) => {
                let mut m = owned("Encountered error during processing: ");
                m.append(e.as_str());
                m
            },
        }
    }
}

pub type EndpointProcessingResult<T> = Result<T, EndpointProcessingError>;

} // verus!
