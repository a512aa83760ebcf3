//! Errors of route registration.

use vstd::prelude::*;

use crate::text::{push_decimal, push_str};
use crate::url::pattern::PathPattern;

verus! {

/// Errors produced by the route tree during registration or lookup setup.
#[derive(Debug, Clone)]
pub enum UrlError {
    /// A child already exists under the pattern.
    ChildAlreadyExists(PathPattern),
    /// No child exists under the pattern.
    ChildNotFound(PathPattern),
    /// The path cannot be registered.
    InvalidPath(String),
    /// The route pattern did not parse.
    ParseError(String),
    /// The path is deeper than allowed.
    DepthLimitExceeded { max: u32, actual: usize },
    /// The feature is not implemented.
    NotImplemented(&'static str),
    /// No protocol of the requested type is registered.
    ProtocolNotFound,
}

impl UrlError {
    /// The human-readable message of the error.
    pub fn message(&self) -> (r: String)
        ensures
            r@ == url_error_message(self),
    {
        let mut s = String::new();
        match self {
            UrlError::ChildAlreadyExists(p) => {
                push_str(&mut s, "child already exists: ");
                push_str(&mut s, p.display().as_str());
            },
            UrlError::ChildNotFound(p) => {
                push_str(&mut s, "child not found: ");
                push_str(&mut s, p.display().as_str());
            },
            UrlError::InvalidPath(path) => {
                push_str(&mut s, "invalid path: ");
                push_str(&mut s, path.as_str());
            },
            UrlError::ParseError(e) => {
                push_str(&mut s, "parse error: ");
                push_str(&mut s, e.as_str());
            },
            UrlError::DepthLimitExceeded { max, actual } => {
                push_str(&mut s, "depth limit exceeded: max=");
                push_decimal(&mut s, *max as u64);
                push_str(&mut s, ", actual=");
                push_decimal(&mut s, *actual as u64);
            },
            UrlError::NotImplemented(feature) => {
                push_str(&mut s, "not implemented: ");
                push_str(&mut s, feature);
            },
            UrlError::ProtocolNotFound => {
                push_str(&mut s, "protocol not found in registry");
            },
        }
        s
    }
}

/// The message of each error.
pub open spec fn url_error_message(e: &UrlError) -> Seq<char> {
    match e {
        UrlError::ChildAlreadyExists(p) => "child already exists: "@ + crate::url::pattern::pattern_text(p@),
        UrlError::ChildNotFound(p) => "child not found: "@ + crate::url::pattern::pattern_text(p@),
        UrlError::InvalidPath(path) => "invalid path: "@ + path@,
        UrlError::ParseError(msg) => "parse error: "@ + msg@,
        UrlError::DepthLimitExceeded { max, actual } => "depth limit exceeded: max="@
            + crate::text::decimal(*max as nat) + ", actual="@ + crate::text::decimal(*actual as nat),
        UrlError::NotImplemented(feature) => "not implemented: "@ + feature@,
        UrlError::ProtocolNotFound => "protocol not found in registry"@,
    }
}

} // verus!
