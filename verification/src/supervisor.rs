//! Process-wide shutdown coordination: one cancellation signal, observed
//! by every task, set exactly once. The first fatal error or external
//! termination wins; every later attempt leaves the recorded cause
//! untouched.

use vstd::prelude::*;

verus! {

/// The single shutdown decision.
pub struct ShutdownSignal {
    fired: bool,
    reason: Option<String>,
}

impl ShutdownSignal {
    /// Whether the signal has been raised.
    pub closed spec fn is_fired(&self) -> bool {
        self.fired
    }

    /// The recorded cause, once raised.
    pub closed spec fn reason_view(&self) -> Option<Seq<char>> {
        self.reason.deep_view()
    }

    /// A signal that has not fired.
    pub fn new() -> (r: ShutdownSignal)
        ensures
            !r.is_fired(),
            r.reason_view() is None,
    {
        ShutdownSignal { fired: false, reason: None }
    }

    /// Raise the signal with a cause. Only the first raise wins: it
    /// records its cause and returns true; every later raise changes
    /// nothing and returns false.
    pub fn raise(&mut self, reason: String) -> (won: bool)
        ensures
            final(self).is_fired(),
            won == !old(self).is_fired(),
            old(self).is_fired() ==> final(self).reason_view() == old(self).reason_view(),
            !old(self).is_fired() ==> final(self).reason_view() == Some(reason@),
    {
        if self.fired {
            false
        } else {
            self.fired = true;
            self.reason = Some(reason);
            true
        }
    }

    /// Observe whether shutdown has been decided.
    pub fn fired(&self) -> (r: bool)
        ensures
            r == self.is_fired(),
    {
        self.fired
    }

    /// Observe the recorded cause.
    pub fn reason(&self) -> (r: Option<&String>)
        ensures
            match r {
                Some(c) => self.reason_view() == Some(c@),
                None => self.reason_view() is None,
            },
    {
        self.reason.as_ref()
    }
}

} // verus!
