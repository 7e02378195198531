//! Simulation time: how many fixed-length simulation frames the wall clock
//! has advanced by. Durations are whole nanoseconds.
use std::ops::RangeInclusive;
use vstd::arithmetic::div_mod::lemma_mod_multiples_basic;
use vstd::prelude::*;

verus! {

/// The length of one simulation frame at 30 frames per second, in nanoseconds.
pub const DEFAULT_FRAME_NANOS: u64 = 33_333_333;

/// Tracks the simulation frame against the wall clock.
#[derive(Clone, Copy, Debug, PartialEq, Eq, Structural)]
pub struct NetworkSimulationTime {
    /// The current simulation frame.
    frame_number: u32,
    /// Time accumulated since the last simulation frame.
    elapsed_duration: u64,
    /// Length of one simulation frame; never zero.
    per_frame_duration: u64,
    /// Number of frames the game lags behind the simulation.
    frame_lag: u32,
}

impl NetworkSimulationTime {
    #[verifier::type_invariant]
    spec fn inv(self) -> bool {
        self.per_frame_duration > 0
    }

    pub closed spec fn frame(self) -> u32 {
        self.frame_number
    }

    pub closed spec fn elapsed(self) -> u64 {
        self.elapsed_duration
    }

    pub closed spec fn per_frame(self) -> u64 {
        self.per_frame_duration
    }

    pub closed spec fn lag(self) -> u32 {
        self.frame_lag
    }

    /// Starts at frame 0 with nothing elapsed and a lag of one frame, with the
    /// given frame length.
    pub fn with_frame_duration(per_frame_duration: u64) -> (r: Self)
        requires
            per_frame_duration > 0,
        ensures
            r.frame() == 0,
            r.elapsed() == 0,
            r.per_frame() == per_frame_duration,
            r.lag() == 1,
    {
        NetworkSimulationTime { frame_number: 0, elapsed_duration: 0, per_frame_duration, frame_lag: 1 }
    }

    /// Returns the simulation frame numbers needed to be run this game frame:
    /// the last `frame_lag` frames up to the current one. The first of them
    /// must be a frame number, which rules out a lag past frame zero.
    pub fn sim_frames_to_run(&self) -> (r: RangeInclusive<u32>)
        requires
            self.lag() <= self.frame() + 1,
            self.frame() + 1 - self.lag() <= u32::MAX,
        ensures
            r@.start == self.frame() + 1 - self.lag(),
            r@.end == self.frame(),
            !r@.exhausted,
    {
        let first = (self.frame_number as u64 + 1 - self.frame_lag as u64) as u32;
        RangeInclusive::new(first, self.frame_number)
    }

    /// Moves on by one simulation frame, taking its length off the elapsed
    /// time.
    pub fn increment_frame_number(&mut self)
        requires
            old(self).frame() < u32::MAX,
            old(self).lag() < u32::MAX,
            old(self).elapsed() >= old(self).per_frame(),
        ensures
            final(self).frame() == old(self).frame() + 1,
            final(self).elapsed() == old(self).elapsed() - old(self).per_frame(),
            final(self).lag() == old(self).lag() + 1,
            final(self).per_frame() == old(self).per_frame(),
    {
        proof {
            use_type_invariant(&*self);
        }
        self.frame_number = self.frame_number + 1;
        self.elapsed_duration = self.elapsed_duration - self.per_frame_duration;
        self.frame_lag = self.frame_lag + 1;
    }

    /// Resets the frame lag.
    pub fn reset_frame_lag(&mut self)
        ensures
            final(self).lag() == 0,
            final(self).frame() == old(self).frame(),
            final(self).elapsed() == old(self).elapsed(),
            final(self).per_frame() == old(self).per_frame(),
    {
        proof {
            use_type_invariant(&*self);
        }
        self.frame_lag = 0;
    }

    /// Adds wall-clock time to the elapsed duration.
    pub fn update_elapsed(&mut self, nanos: u64)
        requires
            old(self).elapsed() + nanos <= u64::MAX,
        ensures
            final(self).elapsed() == old(self).elapsed() + nanos,
            final(self).frame() == old(self).frame(),
            final(self).lag() == old(self).lag(),
            final(self).per_frame() == old(self).per_frame(),
    {
        proof {
            use_type_invariant(&*self);
        }
        self.elapsed_duration = self.elapsed_duration + nanos;
    }

    /// Returns the current simulation frame number.
    pub fn frame_number(&self) -> (r: u32)
        ensures
            r == self.frame(),
    {
        self.frame_number
    }

    /// Sets the frame number, to line it up with a server for example.
    pub fn set_frame_number(&mut self, new_frame: u32)
        ensures
            final(self).frame() == new_frame,
            final(self).elapsed() == old(self).elapsed(),
            final(self).lag() == old(self).lag(),
            final(self).per_frame() == old(self).per_frame(),
    {
        proof {
            use_type_invariant(&*self);
        }
        self.frame_number = new_frame;
    }

    /// Returns the time accumulated since the last simulation frame.
    pub fn elapsed_duration(&self) -> (r: u64)
        ensures
            r == self.elapsed(),
    {
        self.elapsed_duration
    }

    /// Returns the length of one simulation frame.
    pub fn per_frame_duration(&self) -> (r: u64)
        ensures
            r == self.per_frame(),
            r > 0,
    {
        proof {
            use_type_invariant(self);
        }
        self.per_frame_duration
    }

    /// Returns the number of frames the game lags behind the simulation.
    pub fn frame_lag(&self) -> (r: u32)
        ensures
            r == self.lag(),
    {
        self.frame_lag
    }
}

impl Default for NetworkSimulationTime {
    /// 30 frames per second, starting at frame 0 with a lag of one frame.
    fn default() -> (r: Self)
        ensures
            r.frame() == 0,
            r.elapsed() == 0,
            r.per_frame() == DEFAULT_FRAME_NANOS,
            r.lag() == 1,
    {
        NetworkSimulationTime::with_frame_duration(DEFAULT_FRAME_NANOS)
    }
}

/// Reconciles simulation time with `delta` nanoseconds of wall-clock time: adds
/// them to the elapsed time, then runs off as many whole frames as it takes to
/// bring the elapsed time down to at most one frame, counting them in the lag.
/// The new frames must still have frame numbers.
pub fn update_simulation_time(sim_time: &mut NetworkSimulationTime, delta: u64)
    requires
        old(sim_time).elapsed() + delta <= u64::MAX,
        old(sim_time).frame() + (old(sim_time).elapsed() + delta) / (old(sim_time).per_frame() as int)
            <= u32::MAX,
    ensures
        ({
            let total = old(sim_time).elapsed() + delta;
            let p = final(sim_time).per_frame() as int;
            let lag = final(sim_time).lag() as int;
            &&& final(sim_time).per_frame() == old(sim_time).per_frame()
            &&& final(sim_time).frame() == old(sim_time).frame() + lag
            &&& final(sim_time).elapsed() == total - lag * p
            &&& final(sim_time).elapsed() <= p
            &&& total > p ==> final(sim_time).elapsed() > 0
            &&& total <= p ==> lag == 0
            &&& !(total % p == 0 && total > 0) ==> final(sim_time).elapsed() < p
            &&& final(sim_time).elapsed() == p ==> total % p == 0 && total > 0
        }),
{
    proof {
        use_type_invariant(&*sim_time);
    }
    let ghost total: int = sim_time.elapsed() + delta;
    let ghost f0 = sim_time.frame() as int;
    let ghost p = sim_time.per_frame() as int;
    sim_time.update_elapsed(delta);
    sim_time.reset_frame_lag();
    while sim_time.elapsed_duration() > sim_time.per_frame_duration()
        invariant
            p > 0,
            f0 >= 0,
            sim_time.per_frame() == p,
            f0 + total / p <= u32::MAX,
            sim_time.frame() == f0 + sim_time.lag(),
            sim_time.elapsed() == total - sim_time.lag() * p,
            total > p ==> sim_time.elapsed() > 0,
            total <= p ==> sim_time.lag() == 0,
        decreases sim_time.elapsed(),
    {
        let ghost lag = sim_time.lag() as int;
        assert(lag + 1 <= total / p) by (nonlinear_arith)
            requires
                total - lag * p > p,
                p > 0,
                lag >= 0,
        {
            assert((lag + 1) * p <= total);
        }
        assert((lag + 1) * p == lag * p + p) by (nonlinear_arith);
        sim_time.increment_frame_number();
    }
    proof {
        let lag = sim_time.lag() as int;
        if sim_time.elapsed() == p {
            assert(total == (lag + 1) * p) by (nonlinear_arith)
                requires
                    total - lag * p == p,
            ;
            lemma_mod_multiples_basic(lag + 1, p);
        }
    }
}

} // verus!
