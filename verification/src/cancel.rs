use vstd::prelude::*;

verus! {

/// Cooperative cancellation token, passed by reference into every
/// long-running call and polled at point, batch and level granularity.
///
/// A token trips either because `cancel` was called, or, so that a caller can
/// exercise cancellation at a chosen moment of a single-threaded build, after
/// a fixed number of further polls.
pub struct CancelToken {
    stopped: bool,
    trip_after: Option<u64>,
}

impl CancelToken {
    /// The token has already observed a cancellation signal.
    pub closed spec fn is_stopped(self) -> bool {
        self.stopped
    }

    /// The token can never trip, no matter how often it is polled.
    pub closed spec fn never_trips(self) -> bool {
        !self.stopped && self.trip_after is None
    }

    /// How many further polls return false before the token trips on its
    /// own; `None` for a token that only trips through `cancel`.
    pub closed spec fn spec_polls_before_trip(self) -> Option<u64> {
        self.trip_after
    }

    /// A token that never signals cancellation.
    pub fn new() -> (r: Self)
        ensures
            r.never_trips(),
            !r.is_stopped(),
    {
        CancelToken { stopped: false, trip_after: None }
    }

    /// A token that trips on its own once `polls` further polls have
    /// happened: polls return false while the count runs down, and the poll
    /// after that observes the cancellation.
    pub fn trip_after(polls: u64) -> (r: Self)
        ensures
            !r.is_stopped(),
            !r.never_trips(),
            r.spec_polls_before_trip() == Some(polls),
    {
        CancelToken { stopped: false, trip_after: Some(polls) }
    }

    /// Signal cancellation.
    pub fn cancel(&mut self)
        ensures
            final(self).is_stopped(),
    {
        self.stopped = true;
    }

    /// One cooperative cancellation check.  Returns true exactly when the
    /// token has stopped; a stopped token stays stopped, and a token that
    /// never trips is left unchanged.
    pub fn poll(&mut self) -> (r: bool)
        ensures
            r == final(self).is_stopped(),
            old(self).is_stopped() ==> final(self).is_stopped(),
            old(self).never_trips() ==> *final(self) == *old(self) && !r,
            !old(self).is_stopped() && old(self).spec_polls_before_trip() == Some(0u64) ==> r,
            !old(self).is_stopped() && old(self).spec_polls_before_trip() is Some && old(
                self,
            ).spec_polls_before_trip()->0 > 0 ==> !r && final(self).spec_polls_before_trip()
                == Some((old(self).spec_polls_before_trip()->0 - 1) as u64),
    {
        if self.stopped {
            return true;
        }
        match self.trip_after {
            None => false,
            Some(n) => {
                if n == 0 {
                    self.stopped = true;
                    true
                } else {
                    self.trip_after = Some(n - 1);
                    false
                }
            },
        }
    }
}

} // verus!
