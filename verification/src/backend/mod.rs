//! Platform-neutral pieces of the per-OS power assertion backends.

pub mod linux;
pub mod macos;
pub mod unsupported;
pub mod windows;

use vstd::prelude::*;
use crate::AssertionKind;

verus! {

/// An error from a backend, such as an OS call failing or a given
/// `AssertionKind` not being supported on the current platform yet.
#[derive(Debug)]
pub struct BackendError(String);

impl View for BackendError {
    type V = Seq<char>;

    /// The error's message.
    closed spec fn view(&self) -> Seq<char> {
        self.0@
    }
}

impl BackendError {
    /// An error that carries `message`.
    pub fn new(message: String) -> (e: BackendError)
        ensures
            e@ == message@,
    {
        BackendError(message)
    }

    /// The human-readable message of this error.
    pub fn message(&self) -> (m: &str)
        ensures
            m@ == self@,
    {
        self.0.as_str()
    }
}

/// The message of an error that `label`-prefixes a fixed explanation.
pub open spec fn labelled_message(kind: AssertionKind, explanation: Seq<char>) -> Seq<char> {
    kind_label(kind) + explanation
}

/// The message reported when creating an assertion of `kind` failed for `detail`.
pub open spec fn creation_failed_message(kind: AssertionKind, detail: Seq<char>) -> Seq<char> {
    "could not create "@ + kind_label(kind) + " assertion: "@ + detail
}

/// Builds the error whose message is the label of `kind` followed by `explanation`.
pub fn labelled_error(kind: AssertionKind, explanation: &str) -> (e: BackendError)
    ensures
        e@ == labelled_message(kind, explanation@),
{
    let mut message = String::from_str(label(kind));
    message.append(explanation);
    BackendError(message)
}

/// The error for a failed attempt to create an assertion of `kind`, where
/// `detail` says what went wrong in the operating system call.
pub fn creation_failed(kind: AssertionKind, detail: &str) -> (e: BackendError)
    ensures
        e@ == creation_failed_message(kind, detail@),
{
    let mut message = String::from_str("could not create ");
    message.append(label(kind));
    message.append(" assertion: ");
    message.append(detail);
    BackendError(message)
}

/// The label of each kind, as a sequence of characters.
pub open spec fn kind_label(kind: AssertionKind) -> Seq<char> {
    match kind {
        AssertionKind::Display => "display"@,
        AssertionKind::IdleSystem => "idle-system"@,
        AssertionKind::Disk => "disk"@,
        AssertionKind::System => "system"@,
        AssertionKind::UserActive => "user-active"@,
    }
}

/// A short, human-readable, platform-neutral label for error messages.
pub fn label(kind: AssertionKind) -> (r: &'static str)
    ensures
        r@ == kind_label(kind),
{
    match kind {
        AssertionKind::Display => "display",
        AssertionKind::IdleSystem => "idle-system",
        AssertionKind::Disk => "disk",
        AssertionKind::System => "system",
        AssertionKind::UserActive => "user-active",
    }
}

/// Different kinds have different labels, so an error message that names a
/// kind's label names exactly that kind.
pub proof fn law_labels_are_distinct(a: AssertionKind, b: AssertionKind)
    requires
        a != b,
    ensures
        kind_label(a) != kind_label(b),
{
    reveal_strlit("display");
    reveal_strlit("idle-system");
    reveal_strlit("disk");
    reveal_strlit("system");
    reveal_strlit("user-active");
    if kind_label(a).len() == kind_label(b).len() {
        assert(kind_label(a)[0] != kind_label(b)[0]);
    }
}

} // verus!
