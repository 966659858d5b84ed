//! The failure conditions of a document build. The build performs no local
//! recovery: any of these aborts the whole build and no partial document is
//! ever produced.

use vstd::prelude::*;
use vstd::string::StringExecFns;

verus! {

/// Why a document build failed.
#[derive(Debug, PartialEq, Eq)]
pub enum DocError {
    /// The requested crate name has no root symbol in the analysis index.
    /// Carries the requested name.
    CrateNotFound(String),
    /// The analysis index failed to resolve a symbol's metadata, or to list
    /// the crate roots, mid-build.
    Resolution,
    /// The analysis index failed to enumerate the children of a symbol
    /// mid-traversal; a partially enumerated graph is never emitted.
    Enumeration,
    /// The walk enqueued more identifiers than the defensive bound allows;
    /// the symbol graph is treated as cyclic or degenerate and the build is
    /// aborted rather than left to grow without end.
    TraversalLimit,
}

impl DocError {
    /// A short diagnostic message for this failure, for callers that report
    /// it; a missing crate is named in the message.
    pub fn describe(&self) -> (r: String)
        ensures
            match self {
                DocError::CrateNotFound(n) => r@ == "crate not found: "@ + n@,
                DocError::Resolution => r@ == "could not resolve symbol metadata"@,
                DocError::Enumeration => r@ == "could not enumerate the children of a symbol"@,
                DocError::TraversalLimit => r@ == "symbol graph exceeds the traversal bound"@,
            },
    {
        match self {
            DocError::CrateNotFound(n) => {
                let mut s = String::from_str("crate not found: ");
                s.append(n.as_str());
                s
            }
            DocError::Resolution => String::from_str("could not resolve symbol metadata"),
            DocError::Enumeration => String::from_str(
                "could not enumerate the children of a symbol",
            ),
            DocError::TraversalLimit => String::from_str(
                "symbol graph exceeds the traversal bound",
            ),
        }
    }
}

} // verus!
