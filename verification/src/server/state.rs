//! The traces that a server leaves: its process and its files.

use crate::runtime;
use vstd::prelude::*;

verus! {

/// The largest process id that the system can have.
pub const MAX_PID: u32 = 0x7fff_ffff;

/// The id of a process to look for, if the system can have one. No process has
/// the id zero: the system takes it for the group of whoever asks.
pub fn checked_pid(pid: u32) -> (id: Option<i32>)
    ensures
        id == (if 0 < pid <= MAX_PID {
            Some(pid as i32)
        } else {
            None
        }),
{
    if 0 < pid && pid <= MAX_PID {
        Some(pid as i32)
    } else {
        None
    }
}

/// The error number of the system for what is not permitted.
pub const EPERM: i32 = 1;

/// Whether a process is alive, from what came of a signal that was sent to see
/// if it is there. One that may not be signalled is there too.
pub fn is_alive(sent: bool, error: Option<i32>) -> (alive: bool)
    ensures
        alive == (sent || error == Some(EPERM)),
{
    sent || match error {
        Some(number) => number == EPERM,
        None => false,
    }
}

/// The files to remove after a server of this name: its state file and its
/// socket.
pub fn cleanup_paths(dir: &str, name: &str) -> (paths: (String, String))
    ensures
        paths.0@ == runtime::server_path(dir@, name@, ".json"@),
        paths.1@ == runtime::server_path(dir@, name@, ".sock"@),
{
    (runtime::state_path(dir, name), runtime::socket_path(dir, name))
}

/// Every positive number of 31 bits can be the id of a process, and no other.
pub proof fn process_ids_are_positive(pid: u32)
    ensures
        0 < pid <= MAX_PID <==> 1 <= pid < 0x8000_0000,
        EPERM == 1,
{
}

/// A process with an id that the system can have is looked for under that id; it
/// is alive if it could be signalled, or may not be.
pub proof fn processes_are_sought_by_their_id(
    pid: u32,
    id: Option<i32>,
    sent: bool,
    error: Option<i32>,
    alive: bool,
)
    ensures
        call_ensures(checked_pid, (pid,), id) ==> (id is Some <==> 1 <= pid < 0x8000_0000) && (
        id is Some ==> id->0 == pid),
        call_ensures(is_alive, (sent, error), alive) ==> (alive <==> sent || error == Some(1i32)),
{
}

} // verus!
