//! Fallback backend for any platform other than macOS, Linux, or Windows.
//!
//! It always reports a clear error instead of silently doing nothing, so a
//! caller cannot mistake "no assertion was created" for "the assertion is
//! held".

use vstd::prelude::*;
use crate::AssertionKind;
use super::{labelled_error, labelled_message, BackendError};

verus! {

/// The (never constructed) assertion of the fallback backend.
pub struct BackendAssertion;

/// What follows the label in the fallback backend's message.
pub open spec fn unsupported_explanation() -> Seq<char> {
    " assertions are not implemented on this platform (only macOS, Linux, and Windows are supported)"@
}

/// Creating an assertion on an unsupported platform always fails, naming the kind.
pub fn create(kind: AssertionKind, reason: &str) -> (r: Result<BackendAssertion, BackendError>)
    ensures
        r matches Err(e) && e@ == labelled_message(kind, unsupported_explanation()),
{
    Err(
        labelled_error(
            kind,
            " assertions are not implemented on this platform (only macOS, Linux, and Windows are supported)",
        ),
    )
}

} // verus!
