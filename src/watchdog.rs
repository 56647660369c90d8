use vstd::prelude::*;

verus! {

/// A deadline that is pushed back every time the watchdog is petted.
///
/// Times are milliseconds of a monotonic clock; whoever runs the watchdog
/// reads the clock and sleeps as `wait` says.
#[derive(Clone, Copy, Debug, PartialEq, Eq)]
pub struct Watchdog {
    duration: u64,
    end: u64,
}

/// What a waiter on the watchdog should do next.
#[derive(Clone, Copy, Debug, PartialEq, Eq)]
pub enum WaitStep {
    /// The deadline has passed.
    Expired,
    /// Sleep this many milliseconds, then ask again.
    Sleep(u64),
}

impl Watchdog {
    /// The length of the grace period in milliseconds.
    pub closed spec fn duration_spec(&self) -> u64 {
        self.duration
    }

    /// The time at which the watchdog expires unless petted.
    pub closed spec fn deadline(&self) -> u64 {
        self.end
    }

    /// A watchdog that expires `duration` after `now`.
    pub fn new(duration: u64, now: u64) -> (r: Self)
        requires
            now + duration <= u64::MAX,
        ensures
            r.duration_spec() == duration,
            r.deadline() == now + duration,
    {
        Watchdog { duration, end: now + duration }
    }

    /// Pushes the deadline back to a full period after `now`.
    pub fn pet(&mut self, now: u64)
        requires
            now + old(self).duration_spec() <= u64::MAX,
        ensures
            final(self).duration_spec() == old(self).duration_spec(),
            final(self).deadline() == now + old(self).duration_spec(),
    {
        self.end = now + self.duration;
    }

    /// Whether the deadline has passed at `now`, and if not, how long to
    /// sleep before it may have.
    pub fn wait(&self, now: u64) -> (r: WaitStep)
        ensures
            now >= self.deadline() ==> r == WaitStep::Expired,
            now < self.deadline() ==> r == WaitStep::Sleep((self.deadline() - now) as u64),
    {
        if now >= self.end {
            WaitStep::Expired
        } else {
            WaitStep::Sleep(self.end - now)
        }
    }

    /// The length of the grace period in milliseconds.
    pub fn duration(&self) -> (r: u64)
        ensures
            r == self.duration_spec(),
    {
        self.duration
    }
}

} // verus!
