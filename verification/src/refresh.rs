//! When the main loop collects a new sample: on request, and after a fixed
//! number of idle periods.
use vstd::prelude::*;

use crate::input::Action;

verus! {

/// The main loop sleeps this many milliseconds between polls.
pub const TICK_MILLIS: u64 = 50;

/// A sample is collected after this many sleeps without one (about a second).
pub const REFRESH_TICKS: u32 = 20;

/// Counts the sleeps since the last collected sample.
pub struct Ticker {
    pub tick: u32,
}

/// The count after one more sleep: back to zero when it reaches
/// [`REFRESH_TICKS`].
pub open spec fn next_tick(t: u32) -> u32 {
    if t + 1 >= REFRESH_TICKS {
        0
    } else {
        (t + 1) as u32
    }
}

/// The count after `k` sleeps from `t`, with no input in between.
pub open spec fn tick_after(t: u32, k: nat) -> u32
    decreases k,
{
    if k == 0 {
        t
    } else {
        next_tick(tick_after(t, (k - 1) as nat))
    }
}

impl Ticker {
    /// A count with no sleep yet.
    pub fn new() -> (t: Ticker)
        ensures
            t.tick == 0,
    {
        Ticker { tick: 0 }
    }

    /// After the action of an input: a refresh request collects a sample
    /// and restarts the count.
    pub fn on_action(&mut self, a: Action) -> (collect: bool)
        ensures
            collect == (a == Action::Refresh),
            final(self).tick == (if a == Action::Refresh {
                0
            } else {
                old(self).tick
            }),
    {
        if a == Action::Refresh {
            self.tick = 0;
            true
        } else {
            false
        }
    }

    /// After one sleep: counts it, and when the count reaches
    /// [`REFRESH_TICKS`] collects a sample and restarts.
    pub fn on_sleep(&mut self) -> (collect: bool)
        requires
            old(self).tick < REFRESH_TICKS,
        ensures
            collect == (old(self).tick + 1 >= REFRESH_TICKS),
            final(self).tick == next_tick(old(self).tick),
            final(self).tick < REFRESH_TICKS,
    {
        self.tick = self.tick + 1;
        if self.tick >= REFRESH_TICKS {
            self.tick = 0;
            true
        } else {
            false
        }
    }
}

/// Without input, a sample is collected on exactly every
/// [`REFRESH_TICKS`]-th sleep: after `k` sleeps from a fresh count, the count
/// is `k` modulo [`REFRESH_TICKS`].
pub proof fn lemma_periodic_refresh(k: nat)
    ensures
        tick_after(0, k) == k % (REFRESH_TICKS as nat),
    decreases k,
{
    if k > 0 {
        lemma_periodic_refresh((k - 1) as nat);
    }
}

} // verus!
