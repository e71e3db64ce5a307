//! Decisions about other processes: whether one is alive, and the exit code
//! to report for a command that was run.

use vstd::prelude::*;

verus! {

/// `EPERM`: the process exists but belongs to someone else.
pub const EPERM: i32 = 1;

/// Whether a process is alive, given what `kill(pid, 0)` returned (`kill_rc`)
/// and, when it failed, the `errno` it set: it is alive when the signal
/// could be sent, or when sending it was refused for lack of permission.
pub fn pid_alive_from_kill(kill_rc: i32, errno: i32) -> (alive: bool)
    ensures
        alive == (kill_rc == 0 || errno == EPERM),
{
    if kill_rc == 0 {
        return true;
    }
    errno == EPERM
}

/// The exit code reported when the command could not be spawned, as shells do.
pub const NOT_SPAWNED_EXIT_CODE: i32 = 126;

/// The exit code to report for a command: its own code when it exited with
/// one, 1 when it ended without one (killed by a signal), and 126 when it
/// could not be spawned at all.
pub fn command_exit_code(spawned: bool, code: Option<i32>) -> (exit: i32)
    ensures
        !spawned ==> exit == NOT_SPAWNED_EXIT_CODE,
        spawned && code is Some ==> exit == code->0,
        spawned && code is None ==> exit == 1,
{
    if !spawned {
        return NOT_SPAWNED_EXIT_CODE;
    }
    match code {
        Some(c) => c,
        None => 1,
    }
}

} // verus!
