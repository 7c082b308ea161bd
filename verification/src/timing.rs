use vstd::prelude::*;

verus! {

/// A span of time as whole seconds plus a sub-second nanosecond part.
#[derive(Clone, Copy, Debug, PartialEq, Eq, Structural)]
pub struct Dur {
    pub secs: u64,
    pub nanos: u32,
}

impl Dur {
    /// The nanosecond part never reaches a whole second.
    pub open spec fn wf(self) -> bool {
        self.nanos < 1_000_000_000
    }

    /// The span as a total nanosecond count.
    pub open spec fn as_nanos(self) -> int {
        self.secs * 1_000_000_000 + self.nanos
    }
}

/// Converts a duration to nanoseconds.
pub fn duration_to_nanos(duration: Dur) -> (r: u64)
    requires
        duration.wf(),
        duration.as_nanos() <= u64::MAX,
    ensures
        r == duration.as_nanos(),
{
    duration.secs * 1_000_000_000 + duration.nanos as u64
}

/// Converts nanoseconds to a duration.
pub fn nanos_to_duration(nanos: u64) -> (r: Dur)
    ensures
        r.wf(),
        r.as_nanos() == nanos,
        r.secs == nanos / 1_000_000_000,
        r.nanos == nanos % 1_000_000_000,
{
    let d = Dur { secs: nanos / 1_000_000_000, nanos: (nanos % 1_000_000_000) as u32 };
    proof {
        vstd::arithmetic::div_mod::lemma_fundamental_div_mod(nanos as int, 1_000_000_000);
    }
    d
}

/// A stopwatch that accurately accumulates elapsed time over
/// start/stop cycles.
///
/// It is driven by a caller-supplied monotonic clock: every operation
/// that involves the present takes the clock's current reading in
/// nanoseconds.  The stopwatch itself never reads a clock.
#[derive(Clone, Copy, Debug, PartialEq, Eq, Structural)]
pub enum Stopwatch {
    /// Initial state with an elapsed time of zero.
    Waiting,
    /// Counting: time accumulated over earlier start/stop cycles, and the
    /// clock reading at which counting resumed.
    Started(u64, u64),
    /// Stopped, reporting the accumulated elapsed time.
    Ended(u64),
}

impl Default for Stopwatch {
    fn default() -> (r: Stopwatch)
        ensures
            r == Stopwatch::Waiting,
    {
        Stopwatch::Waiting
    }
}

impl Stopwatch {
    /// The state is consistent with a clock that now reads `now`: counting
    /// cannot have started in the future, and the total elapsed time still
    /// fits the counter.
    pub open spec fn wf_at(self, now: u64) -> bool {
        match self {
            Stopwatch::Started(acc, since) => since <= now && acc + (now - since) <= u64::MAX,
            _ => true,
        }
    }

    /// The elapsed nanoseconds a clock reading of `now` implies.
    pub open spec fn spec_elapsed(self, now: u64) -> int {
        match self {
            Stopwatch::Waiting => 0,
            Stopwatch::Started(acc, since) => acc + (now - since),
            Stopwatch::Ended(acc) => acc as int,
        }
    }

    /// Creates a new stopwatch.
    pub fn new() -> (r: Stopwatch)
        ensures
            r == Stopwatch::Waiting,
    {
        Stopwatch::Waiting
    }

    /// Retrieves the elapsed time, in nanoseconds, at clock reading `now`.
    pub fn elapsed(&self, now: u64) -> (r: u64)
        requires
            self.wf_at(now),
        ensures
            r == self.spec_elapsed(now),
    {
        match *self {
            Stopwatch::Waiting => 0,
            Stopwatch::Started(acc, since) => acc + (now - since),
            Stopwatch::Ended(acc) => acc,
        }
    }

    /// Stops, resets, and starts the stopwatch again at clock reading
    /// `now`.
    pub fn restart(&mut self, now: u64)
        ensures
            *final(self) == Stopwatch::Started(0, now),
    {
        *self = Stopwatch::Started(0, now);
    }

    /// Starts, or resumes, measuring elapsed time at clock reading `now`.
    /// Results of earlier start/stop cycles are compounded; starting an
    /// already running stopwatch does nothing.
    pub fn start(&mut self, now: u64)
        ensures
            *final(self) == (match *old(self) {
                Stopwatch::Waiting => Stopwatch::Started(0, now),
                Stopwatch::Started(acc, since) => Stopwatch::Started(acc, since),
                Stopwatch::Ended(acc) => Stopwatch::Started(acc, now),
            }),
    {
        match *self {
            Stopwatch::Waiting => self.restart(now),
            Stopwatch::Ended(acc) => {
                *self = Stopwatch::Started(acc, now);
            },
            _ => {},
        }
    }

    /// Stops measuring at clock reading `now`, folding the running span
    /// into the accumulated time.  Stopping a stopwatch that is not
    /// running does nothing.
    pub fn stop(&mut self, now: u64)
        requires
            old(self).wf_at(now),
        ensures
            *final(self) == (match *old(self) {
                Stopwatch::Started(acc, since) => Stopwatch::Ended((acc + (now - since)) as u64),
                Stopwatch::Waiting => Stopwatch::Waiting,
                Stopwatch::Ended(acc) => Stopwatch::Ended(acc),
            }),
    {
        if let Stopwatch::Started(acc, since) = *self {
            *self = Stopwatch::Ended(acc + (now - since));
        }
    }

    /// Clears the elapsed time.
    pub fn reset(&mut self)
        ensures
            *final(self) == Stopwatch::Waiting,
    {
        *self = Stopwatch::Waiting;
    }
}

} // verus!
