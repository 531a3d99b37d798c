//! A decoder for the UDP query protocol spoken by Source engine game servers.
//!
//! The crate performs no I/O. It frames requests, reassembles replies that arrive
//! in one or several datagrams, runs the challenge handshake and decodes the three
//! response kinds. A caller owns the socket and feeds the datagrams in.

pub mod error;
pub mod wire;
pub mod reader;
pub mod query;
