//! A unidirectional TCP/UDP stream bridge: for each attached link it opens a
//! connection to one remote endpoint, reads newline- or datagram-delimited
//! payloads, and forwards each payload as a uniform outbound message tagged
//! with the link's identity.
//!
//! The crate holds the verified core: the connection configuration model,
//! the per-link lifecycle supervisor, the payload extraction logic of the
//! stream readers, and the dispatch formatting. Socket I/O, task spawning
//! and the message-bus transport live outside, in a thin host layer that
//! drives these functions.

pub mod config;
pub mod connection;
pub mod dispatch;
pub mod stream;
pub mod text;
