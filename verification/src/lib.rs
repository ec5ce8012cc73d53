//! Verified core of an SSH connection: the packet queue of an encrypted
//! session, channel flow control, the key exchange states and the decisions
//! that a server makes around them.

pub mod algorithm;
pub mod auth;
pub mod be32;
pub mod buffer;
pub mod channel;
pub mod encrypted;
pub mod error;
pub mod kex;
pub mod laws;
pub mod limits;
pub mod msg;
pub mod server;
pub mod session;
pub mod suite;
pub mod time;
pub mod wire;
