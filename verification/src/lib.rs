//! Stop-and-wait file transfer over an unreliable datagram channel.
//!
//! The crate holds the decisions of three ways of moving a file between two
//! endpoints: plain datagrams, a byte stream, and a small
//! automatic-repeat-request protocol that makes datagrams reliable. Nothing
//! here touches a socket or a clock. A driver performs the action that a
//! session asks for and reports what came of it as an event.
//!
//! - [`frame`]: the wire format of data, acknowledgment and terminal units.
//! - [`chunk`]: cutting a stream into chunks and joining chunks again.
//! - [`sender`] and [`receiver`]: the two sides of the reliable protocol.
//! - [`session`]: both sides joined by a lossy channel, and what follows.
//! - [`collector`]: the receiving side of the two plain transports.
//! - [`protocol`]: one entry point for each way of moving a file.

pub mod chunk;
pub mod collector;
pub mod config;
pub mod error;
pub mod frame;
pub mod protocol;
pub mod receiver;
pub mod sender;
pub mod session;
