//! The simulation clock: a monotonically increasing tick counter, a
//! positive step size that converts ticks to simulated days, and a running
//! flag that gates time advancement.

use vstd::prelude::*;

verus! {

/// The clock owned by the authoritative simulation instance and mirrored
/// by every replica.
#[derive(Clone, Copy, Debug, PartialEq, Eq, Structural)]
pub struct SimulationClock {
    /// Number of fixed simulation steps taken so far; never decreases.
    pub simtick: u64,
    /// Simulated days per tick; a positive administrative setting.
    pub step: u64,
    /// While false, ticks do not advance and simulated time stands still.
    pub running: bool,
}

/// Simulated time, in days: the tick count scaled by the step size.
pub open spec fn sim_days_spec(c: SimulationClock) -> int {
    c.simtick * c.step
}

/// The clock after one scheduler step: the tick advances only while the
/// clock runs, and stops growing at the counter's ceiling.
pub open spec fn advanced_spec(c: SimulationClock) -> SimulationClock {
    if c.running && c.simtick < u64::MAX {
        SimulationClock { simtick: (c.simtick + 1) as u64, ..c }
    } else {
        c
    }
}

/// Clock monotonicity: a scheduler step never decreases the tick counter,
/// and while the clock is paused, simulated time does not advance.
pub proof fn lemma_clock_monotonic(c: SimulationClock)
    ensures
        advanced_spec(c).simtick >= c.simtick,
        !c.running ==> sim_days_spec(advanced_spec(c)) == sim_days_spec(c),
        advanced_spec(c).step == c.step,
        advanced_spec(c).running == c.running,
{
}

impl SimulationClock {
    /// A clock at tick zero.
    pub fn new(step: u64, running: bool) -> (c: SimulationClock)
        requires
            step >= 1,
        ensures
            c.simtick == 0,
            c.step == step,
            c.running == running,
    {
        SimulationClock { simtick: 0, step, running }
    }

    /// One scheduler step: advance the tick if the clock is running.
    pub fn advance(&mut self)
        ensures
            *final(self) == advanced_spec(*old(self)),
            final(self).simtick >= old(self).simtick,
    {
        if self.running && self.simtick < u64::MAX {
            self.simtick = self.simtick + 1;
        }
    }

    /// Simulated days elapsed, saturated at the 64-bit ceiling.
    pub fn sim_days(&self) -> (t: u64)
        ensures
            t == if sim_days_spec(*self) > u64::MAX {
                u64::MAX as int
            } else {
                sim_days_spec(*self)
            },
    {
        proof {
            assert(self.simtick * self.step <= u64::MAX * u64::MAX) by (nonlinear_arith)
                requires
                    self.simtick <= u64::MAX && self.step <= u64::MAX,
            ;
        }
        let p: u128 = (self.simtick as u128) * (self.step as u128);
        if p > u64::MAX as u128 {
            u64::MAX
        } else {
            p as u64
        }
    }

    /// Apply an administrative step-size change; a zero step is rejected
    /// and leaves the setting unchanged.
    pub fn set_step(&mut self, step: u64) -> (accepted: bool)
        ensures
            accepted == (step >= 1),
            final(self).step == if step >= 1 {
                step
            } else {
                old(self).step
            },
            final(self).simtick == old(self).simtick,
            final(self).running == old(self).running,
    {
        if step >= 1 {
            self.step = step;
            true
        } else {
            false
        }
    }

    /// Flip the running flag, as the administrative time toggle does.
    pub fn toggle(&mut self)
        ensures
            final(self).running == !old(self).running,
            final(self).simtick == old(self).simtick,
            final(self).step == old(self).step,
    {
        self.running = !self.running;
    }

    /// Set the running flag, as a stage transition or a replica mirror
    /// update does.
    pub fn set_running(&mut self, running: bool)
        ensures
            final(self).running == running,
            final(self).simtick == old(self).simtick,
            final(self).step == old(self).step,
    {
        self.running = running;
    }
}

} // verus!
