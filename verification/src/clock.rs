//! The elapsed time of the playing track.

use vstd::prelude::*;

verus! {

/// What a clock that stood at `elapsed` shows once `delta` more has passed:
/// the sum, held at `u64::MAX` where it would not fit.
pub open spec fn advanced(elapsed: nat, delta: nat) -> nat {
    if elapsed + delta <= u64::MAX {
        elapsed + delta
    } else {
        u64::MAX as nat
    }
}

/// Accumulates the time a track has been playing, in nanoseconds.
///
/// The clock has no end of its own: it runs on past the last beat. It never
/// goes back except by `reset`.
#[derive(Clone, Copy, Debug)]
pub struct TrackClock {
    elapsed: u64,
}

impl View for TrackClock {
    type V = nat;

    closed spec fn view(&self) -> nat {
        self.elapsed as nat
    }
}

impl TrackClock {
    /// A clock at the start of a track.
    pub fn new() -> (clock: Self)
        ensures
            clock@ == 0,
    {
        TrackClock { elapsed: 0 }
    }

    /// Adds the time that passed since the last call.
    pub fn advance(&mut self, delta: u64)
        ensures
            final(self)@ == advanced(old(self)@, delta as nat),
    {
        self.elapsed = if delta <= u64::MAX - self.elapsed {
            self.elapsed + delta
        } else {
            u64::MAX
        };
    }

    /// The time accumulated so far.
    pub fn elapsed(&self) -> (elapsed: u64)
        ensures
            elapsed == self@,
    {
        self.elapsed
    }

    /// Back to the start, for a new track.
    pub fn reset(&mut self)
        ensures
            final(self)@ == 0,
    {
        self.elapsed = 0;
    }
}

} // verus!
