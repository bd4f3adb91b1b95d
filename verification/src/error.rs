//! The ways in which a cycle of the crawl, or the making of the engine, fails.

use vstd::prelude::*;

verus! {

/// Why a cycle did not run to its end, or an engine could not be made.
#[derive(Clone, Copy, Debug, PartialEq, Eq, Structural)]
pub enum CrawlError {
    /// No address is left to visit.
    EmptyFrontier,
    /// The fetch failed on both transports.
    TransportFailure,
    /// The fetch ended at an address that the filter turns away.
    InvalidDestination,
    /// An address outside the scope was redirected to another domain.
    OutOfScopeRedirect,
    /// A candidate link has no domain.
    DomainExtractionFailure,
    /// The blocklist pattern or the anchor selector does not compile.
    Misconfigured,
}

/// The message that goes with each failure.
pub open spec fn message_of(e: CrawlError) -> Seq<char> {
    match e {
        CrawlError::EmptyFrontier => "queue was empty"@,
        CrawlError::TransportFailure => "request failed on both transports"@,
        CrawlError::InvalidDestination => "redirected to invalid link"@,
        CrawlError::OutOfScopeRedirect => "redirected from a link outside the scope"@,
        CrawlError::DomainExtractionFailure => "failed to get domain"@,
        CrawlError::Misconfigured => "pattern or selector does not compile"@,
    }
}

impl CrawlError {
    /// The message that goes with this failure.
    pub fn message(&self) -> (r: &'static str)
        ensures
            r@ == message_of(*self),
    {
        match self {
            CrawlError::EmptyFrontier => "queue was empty",
            CrawlError::TransportFailure => "request failed on both transports",
            CrawlError::InvalidDestination => "redirected to invalid link",
            CrawlError::OutOfScopeRedirect => "redirected from a link outside the scope",
            CrawlError::DomainExtractionFailure => "failed to get domain",
            CrawlError::Misconfigured => "pattern or selector does not compile",
        }
    }
}

} // verus!
