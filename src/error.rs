//! Error kinds of the resolver.

use vstd::prelude::*;

verus! {

/// Why resolving a coordinate failed.
#[derive(Clone, Copy, Debug, PartialEq, Eq, Structural)]
pub enum ResolveError {
    /// A POM or JAR could not be fetched (non-2xx answer).
    NotFound,
    /// A network operation ran out of time.
    Timeout,
    /// A filesystem operation failed.
    IoError,
    /// The POM text is not well-formed or lacks a required field.
    ParseError,
    /// Inheritance cannot fill a mandatory `groupId` or `version`.
    MalformedPom,
    /// A parent chain references itself.
    Cycle,
    /// The work was cancelled.
    Cancelled,
    /// A repository base URL does not parse.
    InvalidUrl,
}

impl ResolveError {
    /// A short name of the kind, for messages.
    pub fn kind_name(&self) -> (r: &'static str)
        ensures
            r@ == match *self {
                ResolveError::NotFound => "not found"@,
                ResolveError::Timeout => "timeout"@,
                ResolveError::IoError => "i/o error"@,
                ResolveError::ParseError => "parse error"@,
                ResolveError::MalformedPom => "malformed pom"@,
                ResolveError::Cycle => "cycle in parent chain"@,
                ResolveError::Cancelled => "cancelled"@,
                ResolveError::InvalidUrl => "invalid url"@,
            },
    {
        match self {
            ResolveError::NotFound => "not found",
            ResolveError::Timeout => "timeout",
            ResolveError::IoError => "i/o error",
            ResolveError::ParseError => "parse error",
            ResolveError::MalformedPom => "malformed pom",
            ResolveError::Cycle => "cycle in parent chain",
            ResolveError::Cancelled => "cancelled",
            ResolveError::InvalidUrl => "invalid url",
        }
    }
}

} // verus!
