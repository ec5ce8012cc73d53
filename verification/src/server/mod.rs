//! The server's side of a connection.
pub mod config;
pub mod connect;
pub mod response;
pub mod session;
