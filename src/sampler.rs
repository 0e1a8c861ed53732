use vstd::prelude::*;

use crate::elapsed::{duration_text, fmt_duration_as_secs, Elapsed};
use crate::rate::{bytes_per_second, rate_of};

verus! {

/// Milliseconds the loop sleeps between two samples.
pub const SAMPLE_INTERVAL_MILLIS: u64 = 1000;

/// Where the child stands in the pause/sample/resume cycle.
#[derive(Clone, Copy, Debug, PartialEq, Eq, Structural)]
pub enum Phase {
    /// Alive and not paused by the loop.
    Running,
    /// A stop was sent; its confirmation is awaited.
    Stopping,
    /// Confirmed stopped: its counters may be read.
    Stopped,
    /// The child exited; the loop is over.
    Exited,
    /// The loop gave up on an error.
    Aborted,
}

/// What waiting for the stop to take effect reported.
#[derive(Clone, Copy, Debug, PartialEq, Eq, Structural)]
pub enum WaitOutcome {
    Stopped,
    Exited,
    /// Any other status, which the signals sent cannot explain.
    Other,
}

/// Why the loop gave up.
#[derive(Clone, Copy, Debug, PartialEq, Eq, Structural)]
pub enum LoopError {
    /// The wait reported neither a stop nor an exit.
    UnexpectedWaitStatus,
}

/// What the driver does next.
#[derive(Clone, Copy, Debug, PartialEq, Eq, Structural)]
pub enum Step {
    /// Send the stop signal and wait for it to take effect.
    Pause,
    /// Read the counters of the stopped child.
    Sample,
    /// The child has exited: return successfully.
    Finish,
    /// Return this error.
    Fail(LoopError),
}

/// One line of output: the time since the start and the two rates.
pub struct Report {
    /// The time since the child was started, as `duration_text` renders it.
    pub elapsed: String,
    pub read_per_sec: u64,
    pub write_per_sec: u64,
}

/// The bytes counted since the previous sample; a counter that went back
/// counts as nothing moved.
pub open spec fn delta(now: u64, before: u64) -> nat {
    if now >= before {
        (now - before) as nat
    } else {
        0
    }
}

/// The decisions of the sampling loop, and the counters of the previous sample.
pub struct Sampler {
    pub phase: Phase,
    pub last_rchar: u64,
    pub last_wchar: u64,
}

impl Sampler {
    /// The state right after the child was started: running, with the
    /// previous sample taken as no bytes read or written.
    pub fn new() -> (r: Sampler)
        ensures
            r.phase == Phase::Running,
            r.last_rchar == 0,
            r.last_wchar == 0,
    {
        Sampler { phase: Phase::Running, last_rchar: 0, last_wchar: 0 }
    }

    /// After a sleep: `exited` tells whether the child has terminated.
    pub fn on_wake(&mut self, exited: bool) -> (r: Step)
        requires
            old(self).phase == Phase::Running,
        ensures
            exited ==> r == Step::Finish && final(self).phase == Phase::Exited,
            !exited ==> r == Step::Pause && final(self).phase == Phase::Stopping,
            final(self).last_rchar == old(self).last_rchar,
            final(self).last_wchar == old(self).last_wchar,
    {
        if exited {
            self.phase = Phase::Exited;
            Step::Finish
        } else {
            self.phase = Phase::Stopping;
            Step::Pause
        }
    }

    /// After waiting for the stop: a child that exited meanwhile ends the
    /// loop successfully; any status but a stop or an exit is an error.
    pub fn on_wait(&mut self, outcome: WaitOutcome) -> (r: Step)
        requires
            old(self).phase == Phase::Stopping,
        ensures
            outcome == WaitOutcome::Stopped ==> r == Step::Sample && final(self).phase
                == Phase::Stopped,
            outcome == WaitOutcome::Exited ==> r == Step::Finish && final(self).phase
                == Phase::Exited,
            outcome == WaitOutcome::Other ==> r == Step::Fail(LoopError::UnexpectedWaitStatus)
                && final(self).phase == Phase::Aborted,
            final(self).last_rchar == old(self).last_rchar,
            final(self).last_wchar == old(self).last_wchar,
    {
        match outcome {
            WaitOutcome::Stopped => {
                self.phase = Phase::Stopped;
                Step::Sample
            },
            WaitOutcome::Exited => {
                self.phase = Phase::Exited;
                Step::Finish
            },
            WaitOutcome::Other => {
                self.phase = Phase::Aborted;
                Step::Fail(LoopError::UnexpectedWaitStatus)
            },
        }
    }

    /// With the child stopped: `rchar` and `wchar` are its counters now,
    /// `since_start` the time since it was started, `since_last` the time
    /// since the previous sample. Makes them the new previous sample, hands
    /// back the report, and leaves the child to be resumed.
    pub fn on_counters(
        &mut self,
        rchar: u64,
        wchar: u64,
        since_start: &Elapsed,
        since_last: &Elapsed,
    ) -> (r: Report)
        requires
            old(self).phase == Phase::Stopped,
            since_start.wf(),
            since_last.wf(),
        ensures
            r.elapsed@ == duration_text(*since_start),
            r.read_per_sec == rate_of(delta(rchar, old(self).last_rchar), *since_last),
            r.write_per_sec == rate_of(delta(wchar, old(self).last_wchar), *since_last),
            final(self).phase == Phase::Running,
            final(self).last_rchar == rchar,
            final(self).last_wchar == wchar,
    {
        let read = if rchar >= self.last_rchar {
            rchar - self.last_rchar
        } else {
            0
        };
        let written = if wchar >= self.last_wchar {
            wchar - self.last_wchar
        } else {
            0
        };
        let report = Report {
            elapsed: fmt_duration_as_secs(since_start),
            read_per_sec: bytes_per_second(read, since_last),
            write_per_sec: bytes_per_second(written, since_last),
        };
        self.phase = Phase::Running;
        self.last_rchar = rchar;
        self.last_wchar = wchar;
        report
    }
}

/// Between two samples whose counter did not go back, the bytes counted
/// are the difference, and a counter that did not move reports a rate of
/// zero, however long the interval.
pub proof fn consecutive_samples_rate(before: u64, now: u64, d: Elapsed)
    requires
        before <= now,
        d.wf(),
    ensures
        delta(now, before) == now - before,
        now == before ==> rate_of(delta(now, before), d) == 0,
{
}

} // verus!
