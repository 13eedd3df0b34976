//! Readiness events: immutable records correlating a notification back to
//! the registration that produced it.

use vstd::prelude::*;

verus! {

/// One readiness notification. It carries no payload: only the token that
/// was supplied when the ready descriptor was registered, so the caller must
/// re-read that descriptor to learn what happened.
#[derive(Clone, Copy, Debug, PartialEq, Eq, Structural)]
pub struct Event {
    token: usize,
}

impl Event {
    /// The token of the registration that became ready, as a spec value.
    pub closed spec fn spec_token(self) -> int {
        self.token as int
    }

    /// Builds the event record for a notification carrying `token`.
    pub fn new(token: usize) -> (e: Event)
        ensures
            e.spec_token() == token as int,
    {
        Event { token }
    }

    /// The token of the registration that became ready.
    pub fn token(&self) -> (t: usize)
        ensures
            t as int == self.spec_token(),
    {
        self.token
    }
}

} // verus!
