//! Linux backend logic: systemd-logind inhibitor locks.
//!
//! The lock is taken by running `systemd-inhibit --what=<what> --mode=block
//! ... sleep infinity`; the lock lives as long as that process does. Only
//! the `idle` and `sleep` inhibitor categories exist in systemd-logind, so
//! display, disk and user-active assertions are reported as unsupported.

use vstd::prelude::*;
use crate::AssertionKind;
use super::{labelled_error, labelled_message, BackendError};

verus! {

/// What follows the label in the message for a kind that Linux cannot hold.
pub open spec fn linux_unsupported_explanation() -> Seq<char> {
    " assertions are not supported on Linux yet (systemd-logind has no matching inhibitor category; this is desktop-environment-specific)"@
}

/// The systemd-logind inhibitor category for `kind`, if there is one.
pub open spec fn inhibitor_category(kind: AssertionKind) -> Option<Seq<char>> {
    match kind {
        AssertionKind::IdleSystem => Some("idle"@),
        AssertionKind::System => Some("sleep"@),
        _ => None,
    }
}

/// The `--what=` category for `kind`, or the error naming the unsupported kind.
pub fn what_for(kind: AssertionKind) -> (r: Result<&'static str, BackendError>)
    ensures
        match inhibitor_category(kind) {
            Some(what) => r matches Ok(w) && w@ == what,
            None => r matches Err(e) && e@ == labelled_message(kind, linux_unsupported_explanation()),
        },
{
    match kind {
        AssertionKind::IdleSystem => Ok("idle"),
        AssertionKind::System => Ok("sleep"),
        AssertionKind::Display | AssertionKind::Disk | AssertionKind::UserActive => Err(
            labelled_error(
                kind,
                " assertions are not supported on Linux yet (systemd-logind has no matching inhibitor category; this is desktop-environment-specific)",
            ),
        ),
    }
}

/// The arguments handed to `systemd-inhibit` to hold an inhibitor lock of
/// category `what`, with `reason` as the displayed reason.
pub open spec fn inhibit_arguments(what: Seq<char>, reason: Seq<char>) -> Seq<Seq<char>> {
    seq![
        "--what="@ + what,
        "--mode=block"@,
        "--who=wakeup"@,
        "--why="@ + reason,
        "sleep"@,
        "infinity"@,
    ]
}

/// The full argument list for `systemd-inhibit` that holds an assertion of
/// `kind` for `reason`, or the error for a kind Linux cannot hold.
pub fn inhibit_args(kind: AssertionKind, reason: &str) -> (r: Result<Vec<String>, BackendError>)
    ensures
        match inhibitor_category(kind) {
            Some(what) => r matches Ok(args) && args@.map_values(|a: String| a@)
                == inhibit_arguments(what, reason@),
            None => r matches Err(e) && e@ == labelled_message(kind, linux_unsupported_explanation()),
        },
{
    let what = match what_for(kind) {
        Ok(w) => w,
        Err(e) => return Err(e),
    };
    let mut what_arg = String::from_str("--what=");
    what_arg.append(what);
    let mut why_arg = String::from_str("--why=");
    why_arg.append(reason);
    let mut args: Vec<String> = Vec::new();
    args.push(what_arg);
    args.push(String::from_str("--mode=block"));
    args.push(String::from_str("--who=wakeup"));
    args.push(why_arg);
    args.push(String::from_str("sleep"));
    args.push(String::from_str("infinity"));
    assert(args@.map_values(|a: String| a@) =~= inhibit_arguments(inhibitor_category(kind)->0, reason@));
    Ok(args)
}

/// `systemd-inhibit` is asked to inhibit exactly the category of the kind
/// (`idle` for idle system sleep, `sleep` for system sleep) and is told the
/// reason verbatim; the lock blocks, is held by `wakeup`, and lasts as long
/// as a `sleep infinity` that it wraps.
pub proof fn law_inhibit_arguments_name_category_and_reason(kind: AssertionKind, reason: Seq<char>)
    ensures
        kind == AssertionKind::IdleSystem ==> inhibitor_category(kind) == Some("idle"@),
        kind == AssertionKind::System ==> inhibitor_category(kind) == Some("sleep"@),
        kind != AssertionKind::IdleSystem && kind != AssertionKind::System ==> inhibitor_category(kind) is None,
        forall|what: Seq<char>|
            {
                let args = #[trigger] inhibit_arguments(what, reason);
                &&& args.len() == 6
                &&& args[0] == "--what="@ + what
                &&& args[1] == "--mode=block"@
                &&& args[2] == "--who=wakeup"@
                &&& args[3] == "--why="@ + reason
                &&& args[4] == "sleep"@
                &&& args[5] == "infinity"@
            },
{
}

} // verus!
