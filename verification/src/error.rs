//! The failure taxonomy of the describe path. Failures are always returned
//! to the caller; none is ever stored in the cache.

use vstd::prelude::*;
use vstd::string::StringExecFns;

verus! {

/// The kind of a describe failure, without its diagnostic payload.
#[derive(Clone, Copy, Debug, PartialEq, Eq, Structural)]
pub enum FailureKind {
    Configuration,
    Connection,
    Protocol,
    PoolExhaustedTimeout,
}

/// Why a describe call failed.
///
/// A failure is fatal to the single call site that raised it and to any
/// concurrent waiters on the same in-flight key; it never becomes a cache
/// entry, so a later call with the same key starts fresh.
#[derive(Debug, Clone)]
pub enum DescribeFailure {
    /// Malformed or unrecognized driver settings; raised before any
    /// connection attempt.
    Configuration(String),
    /// Failure to establish or reuse a connection: unreachable host,
    /// authentication failure, protocol mismatch, or a timeout of the
    /// underlying connection layer.
    Connection(String),
    /// The database rejected the statement, or the describe exchange failed
    /// mid-protocol; carries the diagnostic text and, where the database
    /// reported one, the byte position of the error inside the statement.
    Protocol(String, Option<usize>),
    /// Acquiring a pooled connection did not succeed within the pool's
    /// patience.
    PoolExhaustedTimeout,
}

impl DescribeFailure {
    /// The kind of this failure.
    pub fn kind(&self) -> (k: FailureKind)
        ensures
            k == FailureKind::Configuration <==> self is Configuration,
            k == FailureKind::Connection <==> self is Connection,
            k == FailureKind::Protocol <==> self is Protocol,
            k == FailureKind::PoolExhaustedTimeout <==> self is PoolExhaustedTimeout,
    {
        match self {
            DescribeFailure::Configuration(_) => FailureKind::Configuration,
            DescribeFailure::Connection(_) => FailureKind::Connection,
            DescribeFailure::Protocol(_, _) => FailureKind::Protocol,
            DescribeFailure::PoolExhaustedTimeout => FailureKind::PoolExhaustedTimeout,
        }
    }

    /// The diagnostic text attached to this failure.
    pub fn message(&self) -> (m: String)
        ensures
            self matches DescribeFailure::Configuration(t) ==> m@ == t@,
            self matches DescribeFailure::Connection(t) ==> m@ == t@,
            self matches DescribeFailure::Protocol(t, _) ==> m@ == t@,
            self is PoolExhaustedTimeout ==> m@ == "timed out waiting for a pooled connection"@,
    {
        match self {
            DescribeFailure::Configuration(t) => t.clone(),
            DescribeFailure::Connection(t) => t.clone(),
            DescribeFailure::Protocol(t, _) => t.clone(),
            DescribeFailure::PoolExhaustedTimeout => String::from_str(
                "timed out waiting for a pooled connection",
            ),
        }
    }
}

} // verus!
