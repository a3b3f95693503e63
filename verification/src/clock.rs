//! The virtual clock: a counter of nanoseconds that moves only when it is
//! read or when a timer comes due, never with the time of day.

use vstd::prelude::*;

verus! {

/// The nanoseconds by which every reading moves the clock: ten milliseconds.
pub const TIME_INTERVAL: u64 = 10_000_000;

/// The nanoseconds in a second.
pub const NANOS_PER_SECOND: u64 = 1_000_000_000;

/// The time that a reading at `time` returns.
pub open spec fn reading_after(time: u64) -> int {
    time + TIME_INTERVAL
}

/// The virtual clock.
pub struct Clock {
    time: u64,
}

impl Clock {
    /// The nanoseconds that the clock stands at.
    pub closed spec fn nanos(&self) -> u64 {
        self.time
    }

    /// Whether the clock can be read once more before the counter is
    /// exhausted.
    pub open spec fn can_read(&self) -> bool {
        reading_after(self.nanos()) <= u64::MAX
    }

    /// A clock at zero.
    pub fn new() -> (clock: Self)
        ensures
            clock.nanos() == 0,
    {
        Clock { time: 0 }
    }

    /// A clock at `time`.
    pub fn starting_at(time: u64) -> (clock: Self)
        ensures
            clock.nanos() == time,
    {
        Clock { time }
    }

    /// The nanoseconds that the clock stands at, without moving it.
    pub fn peek(&self) -> (time: u64)
        ensures
            time == self.nanos(),
    {
        self.time
    }

    /// Whether the clock can be read once more.
    pub fn has_time_left(&self) -> (left: bool)
        ensures
            left == self.can_read(),
    {
        self.time <= u64::MAX - TIME_INTERVAL
    }

    /// Moves the clock by one interval and returns the new time.
    pub fn now(&mut self) -> (time: u64)
        requires
            old(self).can_read(),
        ensures
            final(self).nanos() == reading_after(old(self).nanos()),
            time == final(self).nanos(),
    {
        self.time = self.time + TIME_INTERVAL;
        self.time
    }

    /// Moves the clock by one interval and returns the new time as whole
    /// seconds and the nanoseconds beyond them.
    pub fn now_split(&mut self) -> (parts: (u64, u32))
        requires
            old(self).can_read(),
        ensures
            final(self).nanos() == reading_after(old(self).nanos()),
            parts.0 * NANOS_PER_SECOND + parts.1 == final(self).nanos(),
            parts.1 < NANOS_PER_SECOND,
    {
        let time: u64 = self.now();
        (time / NANOS_PER_SECOND, (time % NANOS_PER_SECOND) as u32)
    }

    /// As `now_split`, with the nanoseconds in 64 bits.
    pub fn now_split_wide(&mut self) -> (parts: (u64, u64))
        requires
            old(self).can_read(),
        ensures
            final(self).nanos() == reading_after(old(self).nanos()),
            parts.0 * NANOS_PER_SECOND + parts.1 == final(self).nanos(),
            parts.1 < NANOS_PER_SECOND,
    {
        let time: u64 = self.now();
        (time / NANOS_PER_SECOND, time % NANOS_PER_SECOND)
    }

    /// Moves the clock forward to `time`; a clock already past it stays.
    pub fn advance_to(&mut self, time: u64)
        ensures
            final(self).nanos() == if old(self).nanos() >= time {
                old(self).nanos()
            } else {
                time
            },
    {
        if self.time < time {
            self.time = time;
        }
    }
}

/// Of two readings in a row the second is later than the first by exactly
/// one interval, and both are later than the time before them.
pub proof fn lemma_readings_step_by_interval(start: u64)
    requires
        reading_after(start) <= u64::MAX,
        reading_after(reading_after(start) as u64) <= u64::MAX,
    ensures
        start < reading_after(start) < reading_after(reading_after(start) as u64),
        reading_after(reading_after(start) as u64) - reading_after(start) == TIME_INTERVAL,
        reading_after(start) - start == TIME_INTERVAL,
{
}

/// The seconds and nanoseconds of a time are the only pair that adds up to
/// it with less than a second of nanoseconds.
pub proof fn lemma_split_is_unique(time: u64, seconds: int, nanos: int)
    requires
        0 <= nanos < NANOS_PER_SECOND,
        seconds * NANOS_PER_SECOND + nanos == time,
    ensures
        seconds == time / NANOS_PER_SECOND,
        nanos == time % NANOS_PER_SECOND,
{
    assert(seconds == time as int / 1_000_000_000 && nanos == time as int % 1_000_000_000)
        by (nonlinear_arith)
        requires
            0 <= nanos < 1_000_000_000,
            seconds * 1_000_000_000 + nanos == time,
    ;
}

} // verus!
