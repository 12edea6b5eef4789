//! The configuration of a server and the state that it leaves on disk.

use vstd::prelude::*;

verus! {

/// Configuration for a server instance, derived from CLI arguments.
#[derive(Debug, Clone, PartialEq)]
pub struct ServerConfig {
    pub name: String,
    pub port: Option<String>,
    pub tcp: Option<String>,
    pub baudrate: u32,
    pub log: bool,
    pub log_dir: Option<String>,
    pub interactive: bool,
    pub pty: bool,
    pub pty_link: Option<String>,
    pub reconnect: bool,
    pub socket_path: Option<String>,
    pub timestamps: bool,
    pub listen: Option<String>,
}

/// Persisted state file written by a running server.
#[derive(Debug, Clone, PartialEq)]
pub struct ServerStateFile {
    pub name: String,
    pub pid: u32,
    pub port: String,
    pub baudrate: u32,
    pub socket: String,
    pub log_file: Option<String>,
    pub pty_device: Option<String>,
    pub started_at: String,
    pub listen: Option<String>,
}

} // verus!
