use vstd::prelude::*;

verus! {

pub const NANOS_PER_SECOND: u64 = 1_000_000_000;

/// A single-shot countdown measured in nanoseconds: once the elapsed time
/// reaches the duration it stays finished until it is reset.
#[derive(Clone, Copy, Debug, PartialEq, Eq, Structural)]
pub struct FrameTimer {
    pub duration_nanos: u64,
    pub elapsed_nanos: u64,
    /// The last `tick` is the one on which the timer finished.
    pub just_finished: bool,
}

impl FrameTimer {
    pub open spec fn finished(self) -> bool {
        self.elapsed_nanos >= self.duration_nanos
    }

    /// Period of one frame at `fps` frames per second.
    pub open spec fn period_for(fps: u8) -> u64 {
        (NANOS_PER_SECOND / (fps as u64)) as u64
    }

    pub open spec fn reset_spec(self) -> FrameTimer {
        FrameTimer { elapsed_nanos: 0, just_finished: false, ..self }
    }

    pub open spec fn tick_spec(self, delta_nanos: u64) -> FrameTimer {
        if self.finished() {
            FrameTimer { just_finished: false, ..self }
        } else if self.elapsed_nanos + delta_nanos >= self.duration_nanos {
            FrameTimer { elapsed_nanos: self.duration_nanos, just_finished: true, ..self }
        } else {
            FrameTimer { elapsed_nanos: (self.elapsed_nanos + delta_nanos) as u64, just_finished: false, ..self }
        }
    }

    /// A timer for one frame at `fps` frames per second.
    pub fn from_fps(fps: u8) -> (r: FrameTimer)
        requires
            fps > 0,
        ensures
            r.duration_nanos == FrameTimer::period_for(fps),
            r.duration_nanos > 0,
            r.elapsed_nanos == 0,
            !r.just_finished,
    {
        let f: u64 = fps as u64;
        assert(NANOS_PER_SECOND / f > 0) by (nonlinear_arith)
            requires
                0 < f <= 255,
        ;
        FrameTimer { duration_nanos: NANOS_PER_SECOND / f, elapsed_nanos: 0, just_finished: false }
    }

    pub fn reset(&mut self)
        ensures
            *final(self) == old(self).reset_spec(),
    {
        self.elapsed_nanos = 0;
        self.just_finished = false;
    }

    /// Lets `delta_nanos` pass; reports whether the timer finished on this tick.
    pub fn tick(&mut self, delta_nanos: u64) -> (r: bool)
        ensures
            *final(self) == old(self).tick_spec(delta_nanos),
            r == final(self).just_finished,
    {
        if self.elapsed_nanos >= self.duration_nanos {
            self.just_finished = false;
        } else if delta_nanos >= self.duration_nanos - self.elapsed_nanos {
            self.elapsed_nanos = self.duration_nanos;
            self.just_finished = true;
        } else {
            self.elapsed_nanos = self.elapsed_nanos + delta_nanos;
            self.just_finished = false;
        }
        self.just_finished
    }
}

} // verus!
