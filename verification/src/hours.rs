//! Durations of logged work, counted in whole minutes.

use vstd::prelude::*;

verus! {

/// An amount of worked time, in whole minutes.
#[derive(Clone, Copy, Debug)]
pub struct Hours {
    pub minutes: u32,
}

impl Hours {
    /// The duration that lasts `minutes` minutes.
    pub fn from_minutes(minutes: u32) -> (hours: Hours)
        ensures
            hours.minutes == minutes,
    {
        Hours { minutes }
    }

    /// The whole duration in minutes.
    pub fn total_minutes(&self) -> (minutes: u32)
        ensures
            minutes == self.minutes,
    {
        self.minutes
    }

    /// The length of the duration in seconds.
    pub open spec fn spec_seconds(&self) -> int {
        self.minutes * 60
    }

    /// The length of the duration in seconds, as the remote service counts it.
    pub fn seconds(&self) -> (seconds: u64)
        ensures
            seconds == self.spec_seconds(),
    {
        let minutes: u64 = self.minutes as u64;
        minutes * 60
    }
}

} // verus!
