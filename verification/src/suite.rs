//! The parts of a connection that the library carries without looking into
//! them.
use vstd::prelude::*;

verus! {

/// What a connection is made of besides the state that the library works on.
/// The algorithms belong to whoever drives the connection.
pub trait Suite {
    /// The state of a key exchange algorithm.
    type Kex;

    /// The keys that seal outgoing packets and open incoming ones.
    type Ciphers;

    /// An authentication request of the other side that is being answered.
    type AuthRequest;

    /// The authentication method that a client uses.
    type AuthMethod;

    /// The state of a stream compressor.
    type Deflate;

    /// The state of a stream decompressor.
    type Inflate;
}

} // verus!
