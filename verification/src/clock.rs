//! The playback clock: a pausable, seekable logical time source.
//!
//! The clock never reads the machine's time itself; every operation takes
//! `now`, the current wall-clock reading in nanoseconds from the caller's
//! monotonic clock. Callers must hand in readings from one monotonic clock,
//! so each `now` is at least as large as any earlier one; the `requires`
//! clauses state exactly that much.

use vstd::prelude::*;

verus! {

/// A pausable, seekable logical clock.
///
/// While running, the logical position is `base + (now - anchor)`; while
/// paused it is frozen at `base`. The position is monotone during a single
/// forward-playing interval but may jump arbitrarily on a seek.
pub struct PlaybackClock {
    base: u64,
    anchor: u64,
    running: bool,
}

impl PlaybackClock {
    /// The frozen part of the position.
    pub closed spec fn base(&self) -> u64 {
        self.base
    }

    /// The wall reading at which `base` was last accurate; meaningful only
    /// while running.
    pub closed spec fn anchor(&self) -> u64 {
        self.anchor
    }

    /// Whether the clock is advancing.
    pub closed spec fn running(&self) -> bool {
        self.running
    }

    /// The logical position at wall reading `now`, as an unclamped integer.
    pub open spec fn spec_time_at(&self, now: u64) -> int {
        if self.running() {
            self.base() + now - self.anchor()
        } else {
            self.base() as int
        }
    }

    /// The logical position at wall reading `now`, clamped to u64 range.
    pub open spec fn spec_time(&self, now: u64) -> u64 {
        if self.spec_time_at(now) > u64::MAX {
            u64::MAX
        } else {
            self.spec_time_at(now) as u64
        }
    }

    /// A fresh clock, paused at position zero.
    pub fn new() -> (r: PlaybackClock)
        ensures
            !r.running(),
            r.base() == 0,
            r.anchor() == 0,
    {
        PlaybackClock { base: 0, anchor: 0, running: false }
    }

    /// The current logical position. Computed from wall time while running;
    /// the frozen position while paused.
    pub fn get_time(&self, now: u64) -> (r: u64)
        requires
            now >= self.anchor(),
        ensures
            r == self.spec_time(now),
    {
        if self.running {
            self.base.saturating_add(now - self.anchor)
        } else {
            self.base
        }
    }

    /// Resumes advancing from the current position. Idempotent if already
    /// running.
    pub fn play(&mut self, now: u64)
        requires
            now >= old(self).anchor(),
        ensures
            final(self).running(),
            final(self).anchor() == if old(self).running() {
                old(self).anchor()
            } else {
                now
            },
            final(self).base() == old(self).base(),
            final(self).spec_time(now) == old(self).spec_time(now),
            final(self).anchor() <= now,
    {
        if !self.running {
            self.anchor = now;
            self.running = true;
        }
    }

    /// Freezes the position at its current value. Idempotent.
    pub fn pause(&mut self, now: u64)
        requires
            now >= old(self).anchor(),
        ensures
            !final(self).running(),
            final(self).base() == old(self).spec_time(now),
            final(self).spec_time(now) == old(self).spec_time(now),
            final(self).anchor() <= now,
    {
        if self.running {
            self.base = self.base.saturating_add(now - self.anchor);
            self.anchor = now;
            self.running = false;
        }
    }

    /// Flips between running and paused without moving the position.
    pub fn toggle_pause(&mut self, now: u64)
        requires
            now >= old(self).anchor(),
        ensures
            final(self).running() == !old(self).running(),
            final(self).spec_time(now) == old(self).spec_time(now),
            final(self).anchor() <= now,
    {
        if self.running {
            self.pause(now);
        } else {
            self.play(now);
        }
    }

    /// Moves the position to `target` immediately, whatever the run state.
    /// The timeline cursor is not touched here; re-synchronizing it is the
    /// playback engine's job.
    pub fn seek(&mut self, target: u64, now: u64)
        requires
            now >= old(self).anchor(),
        ensures
            final(self).running() == old(self).running(),
            final(self).spec_time(now) == target,
            final(self).anchor() <= now,
    {
        self.base = target;
        self.anchor = now;
    }

    /// Within a single forward-playing interval the clock is monotone and
    /// never negative: with the clock running and untouched, a later wall
    /// reading never yields an earlier logical position.
    pub proof fn lemma_time_monotonic(&self, n1: u64, n2: u64)
        requires
            self.running(),
            self.anchor() <= n1 <= n2,
        ensures
            self.spec_time(n1) <= self.spec_time(n2),
            self.spec_time(n1) >= 0,
    {
    }
}

} // verus!
