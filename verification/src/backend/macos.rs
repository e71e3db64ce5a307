//! macOS backend logic: IOKit power assertion types.

use vstd::prelude::*;
use crate::AssertionKind;

verus! {

/// The IOKit assertion type that holds an assertion of `kind`.
pub open spec fn iokit_assertion_type(kind: AssertionKind) -> Seq<char> {
    match kind {
        AssertionKind::Display => "PreventUserIdleDisplaySleep"@,
        AssertionKind::IdleSystem => "PreventUserIdleSystemSleep"@,
        AssertionKind::Disk => "PreventDiskIdle"@,
        AssertionKind::System => "PreventSystemSleep"@,
        AssertionKind::UserActive => "UserIsActive"@,
    }
}

/// The name of the IOKit assertion type for `kind`; every kind has one.
pub fn assertion_type_name(kind: AssertionKind) -> (r: &'static str)
    ensures
        r@ == iokit_assertion_type(kind),
{
    match kind {
        AssertionKind::Display => "PreventUserIdleDisplaySleep",
        AssertionKind::IdleSystem => "PreventUserIdleSystemSleep",
        AssertionKind::Disk => "PreventDiskIdle",
        AssertionKind::System => "PreventSystemSleep",
        AssertionKind::UserActive => "UserIsActive",
    }
}

} // verus!
