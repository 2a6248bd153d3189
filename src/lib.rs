//! A small request/response protocol: content-addressed messages, a
//! canonical binary encoding, length-prefixed framing, and the decisions of
//! the client and server sessions that exchange them.

pub mod hash;
pub mod message;
pub mod error;
pub mod serialization;
pub mod stream;
pub mod connection;
pub mod session;
