//! Clock and cursor of one playing track, advanced together.
//!
//! In every frame the clock has to take the frame's delta before the cursor
//! is ticked with the clock's reading. A playhead owns both and keeps that
//! order.

use vstd::prelude::*;
use crate::clock::{advanced, TrackClock};
use crate::cursor::{from_index_model, tick_model, BeatCursor, CursorModel};
use crate::schedule::BeatSchedule;

verus! {

/// A playhead as plain values.
pub struct PlayheadModel {
    /// The time the track has been playing.
    pub elapsed: nat,
    /// The cursor over the track's beats.
    pub cursor: CursorModel,
}

/// The clock of a playing track and the cursor over its beats.
#[derive(Clone, Copy, Debug)]
pub struct Playhead {
    clock: TrackClock,
    cursor: BeatCursor,
}

impl View for Playhead {
    type V = PlayheadModel;

    closed spec fn view(&self) -> PlayheadModel {
        PlayheadModel { elapsed: self.clock@, cursor: self.cursor@ }
    }
}

impl Playhead {
    /// A track starts playing: the clock at zero, the cursor on beat 0.
    pub fn start(schedule: &BeatSchedule) -> (playhead: Self)
        ensures
            playhead@.elapsed == 0,
            playhead@.cursor == from_index_model(schedule@, 0, 0),
            playhead@.cursor.wf(),
    {
        let clock = TrackClock::new();
        let cursor = BeatCursor::new(schedule, clock.elapsed());
        Playhead { clock, cursor }
    }

    /// One frame: the clock takes `delta`, then the cursor is ticked by
    /// `delta` at the clock's new reading.
    pub fn tick(&mut self, schedule: &BeatSchedule, delta: u64)
        ensures
            final(self)@.elapsed == advanced(old(self)@.elapsed, delta as nat),
            final(self)@.cursor == tick_model(
                old(self)@.cursor,
                schedule@,
                delta as nat,
                final(self)@.elapsed,
            ),
            final(self)@.cursor.wf(),
    {
        self.clock.advance(delta);
        let now = self.clock.elapsed();
        self.cursor.tick(schedule, delta, now);
    }

    /// The clock.
    pub fn clock(&self) -> (clock: &TrackClock)
        ensures
            clock@ == self@.elapsed,
    {
        &self.clock
    }

    /// The cursor.
    pub fn cursor(&self) -> (cursor: &BeatCursor)
        ensures
            cursor@ == self@.cursor,
    {
        &self.cursor
    }
}

} // verus!
