//! The reactor's error kinds. Every one is fatal to the run that sees it.

use vstd::prelude::*;

verus! {

/// Why a reactor operation failed.
#[derive(Clone, Copy, Debug, PartialEq, Eq, Structural)]
pub enum ReactorError {
    /// The kernel notification facility could not allocate or accept a
    /// registration: instance creation failed, the descriptor was invalid,
    /// or the descriptor was already registered.
    SystemResource,
    /// A connection could not be opened or written during fan-out.
    Connect,
    /// A read failed for a reason other than would-block or an interruption.
    Io,
}

impl ReactorError {
    /// A short human-readable name for the error, for callers that report it.
    pub fn describe(&self) -> (r: &'static str)
        ensures
            (*self is SystemResource) ==> r@ == "system resource error"@,
            (*self is Connect) ==> r@ == "connect error"@,
            (*self is Io) ==> r@ == "i/o error"@,
    {
        match self {
            ReactorError::SystemResource => "system resource error",
            ReactorError::Connect => "connect error",
            ReactorError::Io => "i/o error",
        }
    }
}

} // verus!
