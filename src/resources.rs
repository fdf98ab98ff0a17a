//! The repeating timer that schedules satellite spawns.
use vstd::prelude::*;

verus! {

/// Interval between two spawns, in milliseconds.
pub const ASTEROID_SPAWN_DELAY_MS: u64 = 1000;

/// A repeating timer: it accumulates elapsed time and reports when an
/// interval has been crossed.
#[derive(Clone, Copy, Debug, PartialEq, Eq, Structural)]
pub struct AsteroidSpawnTimer {
    /// Length of one interval, in milliseconds.
    pub duration: u64,
    /// Time accumulated in the current interval.
    pub elapsed: u64,
    /// Whether the last tick crossed the end of an interval.
    pub finished: bool,
}

impl AsteroidSpawnTimer {
    pub open spec fn wf(self) -> bool {
        0 < self.duration && self.elapsed < self.duration
    }

    pub open spec fn new_spec() -> AsteroidSpawnTimer {
        AsteroidSpawnTimer { duration: ASTEROID_SPAWN_DELAY_MS, elapsed: 0, finished: false }
    }

    /// A timer with the given interval, at its start.
    pub fn new(duration: u64) -> (r: AsteroidSpawnTimer)
        requires
            duration > 0,
        ensures
            r.wf(),
            r.duration == duration,
            r.elapsed == 0,
            !r.finished,
    {
        AsteroidSpawnTimer { duration, elapsed: 0, finished: false }
    }
}

impl Default for AsteroidSpawnTimer {
    fn default() -> (r: AsteroidSpawnTimer)
        ensures
            r.wf(),
            r == AsteroidSpawnTimer::new_spec(),
    {
        AsteroidSpawnTimer::new(ASTEROID_SPAWN_DELAY_MS)
    }
}

/// Advance the timer by `dt` milliseconds. It is finished after the call
/// exactly when an interval ended during it; several intervals crossed in one
/// call still count once.
pub fn tick_asteroid_spawn_timer(timer: &mut AsteroidSpawnTimer, dt: u64)
    requires
        old(timer).wf(),
    ensures
        final(timer).wf(),
        final(timer).duration == old(timer).duration,
        final(timer).finished == (old(timer).elapsed + dt >= old(timer).duration),
        final(timer).elapsed == (old(timer).elapsed + dt) % (old(timer).duration as int),
{
    let rest = timer.duration - timer.elapsed;
    if dt >= rest {
        let e = (dt - rest) % timer.duration;
        proof {
            let d = timer.duration as int;
            let over = (dt - rest) as int;
            assert((timer.elapsed + dt) == over + d);
            vstd::arithmetic::div_mod::lemma_mod_add_multiples_vanish(over, d);
        }
        timer.elapsed = e;
        timer.finished = true;
    } else {
        timer.elapsed = timer.elapsed + dt;
        proof {
            vstd::arithmetic::div_mod::lemma_small_mod(timer.elapsed as nat, timer.duration as nat);
        }
        timer.finished = false;
    }
}

} // verus!
