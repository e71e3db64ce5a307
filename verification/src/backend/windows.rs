//! Windows backend logic: kernel32's Power Request API.
//!
//! Only `PowerRequestSystemRequired` and `PowerRequestDisplayRequired` are
//! used; there is no Windows equivalent for disk-idle or "declare the user
//! active", so those are reported as unsupported.

use vstd::prelude::*;
use crate::AssertionKind;
use super::{labelled_error, labelled_message, BackendError};

verus! {

/// The Power Request types this backend uses.
#[derive(Clone, Copy, Debug, PartialEq, Eq, Structural)]
pub enum PowerRequestType {
    /// `PowerRequestDisplayRequired`.
    DisplayRequired,
    /// `PowerRequestSystemRequired`.
    SystemRequired,
}

/// The exit code `GetExitCodeProcess` reports for a running process.
pub const STILL_ACTIVE: u32 = 259;

/// What follows the label in the message for a kind Windows cannot hold.
pub open spec fn windows_unsupported_explanation() -> Seq<char> {
    " assertions are not supported on Windows (no matching Power Request type)"@
}

/// The Power Request type that holds `kind`, if there is one.
pub open spec fn power_request_for(kind: AssertionKind) -> Option<PowerRequestType> {
    match kind {
        AssertionKind::Display => Some(PowerRequestType::DisplayRequired),
        AssertionKind::IdleSystem => Some(PowerRequestType::SystemRequired),
        AssertionKind::System => Some(PowerRequestType::SystemRequired),
        _ => None,
    }
}

/// The Power Request type for `kind`, or the error naming the unsupported kind.
pub fn request_type_for(kind: AssertionKind) -> (r: Result<PowerRequestType, BackendError>)
    ensures
        match power_request_for(kind) {
            Some(t) => r == Ok::<PowerRequestType, BackendError>(t),
            None => r matches Err(e) && e@ == labelled_message(kind, windows_unsupported_explanation()),
        },
{
    match kind {
        AssertionKind::Display => Ok(PowerRequestType::DisplayRequired),
        AssertionKind::IdleSystem | AssertionKind::System => Ok(PowerRequestType::SystemRequired),
        AssertionKind::Disk | AssertionKind::UserActive => Err(
            labelled_error(
                kind,
                " assertions are not supported on Windows (no matching Power Request type)",
            ),
        ),
    }
}

/// The process id to open for a liveness query, or `None` when `pid` names
/// no process (it is not positive), which counts as not alive.
pub fn process_id_for_query(pid: i32) -> (r: Option<u32>)
    ensures
        pid <= 0 ==> r is None,
        pid > 0 ==> r == Some(pid as u32),
{
    if pid <= 0 {
        None
    } else {
        Some(pid as u32)
    }
}

/// `ERROR_ACCESS_DENIED`: the process exists but may not be opened by us.
pub const ERROR_ACCESS_DENIED: u32 = 5;

/// What the liveness query of a process found out.
#[derive(Clone, Copy, Debug, PartialEq, Eq, Structural)]
pub enum ProcessProbe {
    /// `OpenProcess` failed, and `GetLastError` then gave `last_error`.
    NotOpened { last_error: u32 },
    /// The process was opened; `GetExitCodeProcess` returned `query_ok`
    /// (non-zero on success) and gave `exit_code`.
    Queried { query_ok: i32, exit_code: u32 },
}

/// Whether the probed process is alive: a process that could not be opened
/// for lack of access exists (as with `EPERM` on Unix); one that could not
/// be opened for any other reason does not; an opened one is alive while
/// its exit code is `STILL_ACTIVE`.
pub fn process_alive(probe: ProcessProbe) -> (alive: bool)
    ensures
        match probe {
            ProcessProbe::NotOpened { last_error } => alive == (last_error == ERROR_ACCESS_DENIED),
            ProcessProbe::Queried { query_ok, exit_code } => alive == (query_ok != 0 && exit_code
                == STILL_ACTIVE),
        },
{
    match probe {
        ProcessProbe::NotOpened { last_error } => last_error == ERROR_ACCESS_DENIED,
        ProcessProbe::Queried { query_ok, exit_code } => query_ok != 0 && exit_code == STILL_ACTIVE,
    }
}

} // verus!
