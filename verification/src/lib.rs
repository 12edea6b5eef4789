//! A serial port multiplexer: one server owns the port, many clients share it.
//!
//! The crate holds the decisions and the data transformations of the server
//! and its clients: the wire protocol, the log reader, the console and log
//! timestampers, and the session logic. Each operation states in its contract
//! what it returns. Sockets, files and terminals are left to the program that
//! drives it.

pub mod cli;
pub mod client;
pub mod entries;
pub mod json;
pub mod log_reader;
pub mod pattern;
pub mod protocol;
pub mod runtime;
pub mod server;
pub mod text;
pub mod types;
