//! wakeup: the platform-neutral core of a `caffeinate`-compatible keep-awake
//! tool, with its contracts proved by Verus.

pub mod backend;
pub mod cli;
pub mod process;
pub mod session;

pub use backend::BackendError;
pub use session::{Handle, HandleView, Session};

use vstd::prelude::*;

verus! {

/// What kind of sleep/idle behavior an assertion should prevent.
///
/// These map to `caffeinate`'s `-d`/`-i`/`-m`/`-s`/`-u` flags.
#[derive(Clone, Copy, Debug, PartialEq, Eq, Hash, Structural)]
pub enum AssertionKind {
    /// Prevent the display from sleeping.
    Display,
    /// Prevent the system from idle-sleeping.
    IdleSystem,
    /// Prevent the disk from idle-sleeping.
    Disk,
    /// Prevent system sleep entirely (some platforms only honor this on AC power).
    System,
    /// Declare the user active. Typically wakes the display and is held only briefly.
    UserActive,
}

impl AssertionKind {
    /// A short, human-readable, platform-neutral label (used in error messages).
    pub fn label(self) -> (r: &'static str)
        ensures
            r@ == backend::kind_label(self),
    {
        backend::label(self)
    }
}

/// A single platform-neutral request to create one assertion.
#[derive(Clone, Debug)]
pub struct AssertionRequest {
    pub kind: AssertionKind,
    pub reason: String,
}

impl AssertionRequest {
    /// A request for an assertion of `kind`, shown to the system with `reason`.
    pub fn new(kind: AssertionKind, reason: &str) -> (r: AssertionRequest)
        ensures
            r.kind == kind,
            r.reason@ == reason@,
    {
        AssertionRequest { kind, reason: String::from_str(reason) }
    }
}

} // verus!
