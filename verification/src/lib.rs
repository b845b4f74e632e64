//! Compare two HTTP responses, produced by slightly different requests,
//! against a named diff profile, and render a line-numbered diff of the
//! normalized response texts.
//!
//! The crate holds the pure core: merging command-line overrides into a
//! request description, choosing a body encoding by content type, filtering
//! a received response down to comparable text, and rendering the diff.
//! Reading configuration, issuing the requests and printing the report are
//! the host program's business.

pub mod cli;
pub mod config;
pub mod headers;
pub mod json;
pub mod req;
pub mod response;
pub mod utils;

use vstd::prelude::*;

verus! {

/// Why an operation of this crate refused its input.
#[derive(Debug, Clone, Copy, PartialEq, Eq, Structural)]
pub enum XdiffError {
    /// A profile holds a query or body that is not a JSON object.
    ConfigValidation,
    /// An override was not of the form `key=value` with a usable key.
    OverrideParse,
    /// A header override's key is not a legal header name.
    InvalidHeaderName,
    /// A header override's value holds characters illegal in a header.
    InvalidHeaderValue,
    /// The effective content type names no supported body encoding.
    UnsupportedContentType,
    /// A body declared as JSON was not valid JSON text.
    BodyDecode,
    /// The body could not be serialized as form pairs.
    FormEncode,
}

impl XdiffError {
    /// A short human-readable description of the error.
    pub fn message(&self) -> (r: &'static str)
        ensures
            self is OverrideParse ==> r@ == "invalid key value pair"@,
            self is UnsupportedContentType ==> r@ == "unsupported content-type"@,
    {
        match self {
            XdiffError::ConfigValidation => "query and body must be JSON objects",
            XdiffError::OverrideParse => "invalid key value pair",
            XdiffError::InvalidHeaderName => "invalid header name",
            XdiffError::InvalidHeaderValue => "invalid header value",
            XdiffError::UnsupportedContentType => "unsupported content-type",
            XdiffError::BodyDecode => "body is not valid JSON",
            XdiffError::FormEncode => "body cannot be form-encoded",
        }
    }
}

/// Overrides for one request, already sorted into the three buckets they
/// target: headers, query parameters and body fields.
pub struct ExtraArgs {
    pub headers: Vec<(String, String)>,
    pub query: Vec<(String, String)>,
    pub body: Vec<(String, String)>,
}

impl ExtraArgs {
    /// An empty override set: nothing is changed on the request.
    pub fn new() -> (r: ExtraArgs)
        ensures
            r.headers@ =~= Seq::<(String, String)>::empty(),
            r.query@ =~= Seq::<(String, String)>::empty(),
            r.body@ =~= Seq::<(String, String)>::empty(),
    {
        ExtraArgs { headers: Vec::new(), query: Vec::new(), body: Vec::new() }
    }
}

} // verus!
