//! Core of a reliable transport protocol layered over UDP.
//!
//! The crate turns an unreliable, MTU-limited datagram channel into a
//! multiplexed channel with configurable delivery guarantees.  It contains
//! the reliability/ordering model and the wire codec (how a logical message
//! is classified, validated and packed into bytes inside a datagram),
//! together with the session dispatch layer: a bus of named services that
//! receive demultiplexed packets by message-type byte.
//!
//! All socket I/O stays outside; the crate works on plain byte vectors.

pub mod codable;
pub mod conn_request;
pub mod connection;
pub mod constants;
pub mod datagram;
pub mod disconnect;
pub mod dispatch;
pub mod open;
pub mod open_connection;
pub mod ping;
pub mod ping_service;
pub mod protocol;
pub mod reader;
pub mod reliability;
pub mod service;
pub mod types;
pub mod wire;
pub mod writer;
