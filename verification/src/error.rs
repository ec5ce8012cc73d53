//! Errors of a connection.
use vstd::prelude::*;

verus! {

/// Why a connection cannot go on.
#[derive(Clone, Copy, Debug, PartialEq, Eq, Structural)]
pub enum Error {
    /// The key exchange failed.
    Kex,
    /// The other side took too long.
    ConnectionTimeout,
    /// The other side's identification could not be read.
    Version,
    /// A packet could not be compressed.
    Compress,
    /// Reading or writing failed.
    Io,
    /// The task that ran the session did not finish.
    Join,
}

} // verus!
