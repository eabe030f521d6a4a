//! The cursor that follows a playing track through its beats.
//!
//! A cursor is either armed, counting down to the next beat, or exhausted,
//! when the schedule has no further beat to wait for. What a tick does is
//! written once, over plain mathematical values ([`tick_model`]), and the
//! executable cursor is proved to do exactly that.

use vstd::prelude::*;
use crate::schedule::{strictly_increasing, BeatSchedule};
use crate::wave::UNIT;

verus! {

/// A cursor as plain values.
pub struct CursorModel {
    /// Counting down to the beat after `index`; when false the cursor is
    /// exhausted and stays as it is.
    pub armed: bool,
    /// The beat that was crossed last.
    pub index: nat,
    /// Time left until the next beat.
    pub countdown: nat,
    /// What `countdown` was when the cursor was armed for this beat.
    pub interval: nat,
    /// How many beats the latest tick crossed.
    pub crossings: nat,
}

impl CursorModel {
    /// The countdown never exceeds the interval it started from, and an
    /// exhausted cursor holds neither.
    pub open spec fn wf(self) -> bool {
        &&& self.countdown <= self.interval
        &&& !self.armed ==> self.interval == 0
    }

    /// The pulse: the latest tick crossed at least one beat.
    pub open spec fn just_crossed(self) -> bool {
        self.crossings > 0
    }

    /// The elapsed fraction of the running interval, in parts of `UNIT`,
    /// rounded down. A cursor that has no time to count, because it is
    /// exhausted or was placed on a beat that was already due, rests on
    /// a beat: its ratio is zero.
    pub open spec fn ratio(self) -> nat {
        if self.interval > 0 {
            (((self.interval - self.countdown) * UNIT) / (self.interval as int)) as nat
        } else {
            0
        }
    }
}

/// The two states of a cursor.
#[derive(Clone, Copy, Debug, PartialEq, Eq, Structural)]
pub enum CursorState {
    /// Waiting `countdown` for the beat after `index`.
    Armed { index: usize, countdown: u64 },
    /// Stopped on `last_index`: the schedule holds no further beat.
    Exhausted { last_index: usize },
}

/// The ratio of a well-formed cursor is a fraction: it never exceeds one.
pub proof fn lemma_ratio_is_a_fraction(c: CursorModel)
    requires
        c.wf(),
    ensures
        c.ratio() <= UNIT,
        c.interval > 0 && c.countdown == c.interval ==> c.ratio() == 0,
        c.interval > 0 && c.countdown == 0 ==> c.ratio() == UNIT,
{
    if c.interval > 0 {
        let elapsed = c.interval - c.countdown;
        let whole = c.interval as int;
        assert(0 <= (elapsed * 1_000_000) / whole <= 1_000_000) by (nonlinear_arith)
            requires
                0 <= elapsed <= whole,
                0 < whole,
        ;
        assert((0int * 1_000_000) / whole == 0) by (nonlinear_arith)
            requires
                0 < whole,
        ;
        assert((whole * 1_000_000) / whole == 1_000_000) by (nonlinear_arith)
            requires
                0 < whole,
        ;
    }
}

/// A cursor waiting `countdown` for the beat after `index`.
pub open spec fn armed_at(index: nat, countdown: nat, crossings: nat) -> CursorModel {
    CursorModel { armed: true, index, countdown, interval: countdown, crossings }
}

/// A cursor that stopped at `index`.
pub open spec fn exhausted_at(index: nat, crossings: nat) -> CursorModel {
    CursorModel { armed: false, index, countdown: 0, interval: 0, crossings }
}

/// Time from `track_time` to `beat`; zero when the beat is already due.
pub open spec fn time_until(beat: u64, track_time: nat) -> nat {
    if beat > track_time {
        (beat - track_time) as nat
    } else {
        0
    }
}

/// A fresh cursor placed on beat `index` at `track_time`.
///
/// It is armed when the schedule is strictly increasing and holds a beat
/// after `index`; a beat that is already due leaves a countdown of zero, so
/// that the first tick crosses it. Otherwise the cursor is exhausted.
pub open spec fn from_index_model(beats: Seq<u64>, index: nat, track_time: nat) -> CursorModel {
    if strictly_increasing(beats) && index + 1 < beats.len() {
        armed_at(index, time_until(beats[index as int + 1], track_time), 0)
    } else {
        exhausted_at(index, 0)
    }
}

/// Where a cursor comes to rest once it has arrived on beat `index` at
/// `track_time`, having crossed `crossings` beats in this tick.
///
/// While the following beat is due as well it is crossed too, one beat at a
/// time. The cursor is armed for the first beat that is still ahead, with
/// the countdown taken from `track_time`, or exhausted on the last beat.
pub open spec fn catch_up(beats: Seq<u64>, index: nat, track_time: nat, crossings: nat) -> CursorModel
    decreases beats.len() - index,
{
    if index + 1 < beats.len() {
        if beats[index as int + 1] > track_time {
            armed_at(index, (beats[index as int + 1] - track_time) as nat, crossings)
        } else {
            catch_up(beats, index + 1, track_time, crossings + 1)
        }
    } else {
        exhausted_at(index, crossings)
    }
}

/// One tick: `delta` has passed and the track now stands at `track_time`.
pub open spec fn tick_model(c: CursorModel, beats: Seq<u64>, delta: nat, track_time: nat) -> CursorModel {
    if !c.armed {
        CursorModel { crossings: 0, ..c }
    } else if delta < c.countdown {
        CursorModel { countdown: (c.countdown - delta) as nat, crossings: 0, ..c }
    } else {
        catch_up(beats, c.index + 1, track_time, 1)
    }
}

/// Catching up crosses exactly the beats that are due and stops before the
/// first that is not.
///
/// From beat `index` the cursor moves on by as many beats as it counts
/// crossings; every beat it moves onto has a timestamp at or before
/// `track_time`; it rests armed in front of a beat that lies ahead, with
/// the time to that beat as its countdown, or exhausted on the last beat.
pub proof fn lemma_catch_up(beats: Seq<u64>, index: nat, track_time: nat, crossings: nat)
    ensures
        ({
            let r = catch_up(beats, index, track_time, crossings);
            &&& r.wf()
            &&& r.index >= index
            &&& r.crossings == crossings + (r.index - index)
            &&& forall|j: int| index < j <= r.index ==> j < beats.len() && beats[j] <= track_time
            &&& r.armed ==> {
                &&& r.index + 1 < beats.len()
                &&& beats[r.index as int + 1] > track_time
                &&& r.countdown == beats[r.index as int + 1] - track_time
                &&& r.interval == r.countdown
            }
            &&& !r.armed ==> r.index + 1 >= beats.len() && (r.index == index || r.index + 1
                == beats.len())
        }),
    decreases beats.len() - index,
{
    if index + 1 < beats.len() && beats[index as int + 1] <= track_time {
        lemma_catch_up(beats, index + 1, track_time, crossings + 1);
    }
}

/// What one tick does to the beat index and the pulse.
///
/// The index grows by the number of beats crossed, one for each; the pulse
/// is raised exactly when the countdown of an armed cursor has run out; the
/// beats crossed beyond the first were all due at `track_time`; and a
/// cursor that comes out armed has time left, so no due beat waits
/// uncrossed.
pub proof fn lemma_tick_crosses_each_beat(
    c: CursorModel,
    beats: Seq<u64>,
    delta: nat,
    track_time: nat,
)
    requires
        c.wf(),
    ensures
        ({
            let r = tick_model(c, beats, delta, track_time);
            &&& r.wf()
            &&& r.index == c.index + r.crossings
            &&& r.just_crossed() <==> c.armed && delta >= c.countdown
            &&& forall|j: int|
                c.index + 1 < j <= r.index ==> j < beats.len() && beats[j] <= track_time
            &&& r.armed ==> r.countdown > 0
            &&& r.armed && r.just_crossed() ==> {
                &&& r.index + 1 < beats.len()
                &&& r.countdown == beats[r.index as int + 1] - track_time
            }
        }),
{
    if c.armed && delta >= c.countdown {
        lemma_catch_up(beats, c.index + 1, track_time, 1);
    }
}

/// A tick in which no time passes changes nothing, and raises no pulse.
///
/// This holds of a cursor that is exhausted or has time left on its
/// countdown, as every cursor has once it was ticked. A cursor that was
/// placed on a track whose next beat was already due has a countdown of
/// zero, and crosses that beat on its first tick, whatever the delta.
pub proof fn lemma_zero_tick_is_idle(c: CursorModel, beats: Seq<u64>, track_time: nat)
    requires
        c.wf(),
        c.armed ==> c.countdown > 0,
    ensures
        ({
            let r = tick_model(c, beats, 0, track_time);
            &&& r.armed == c.armed
            &&& r.index == c.index
            &&& r.countdown == c.countdown
            &&& r.interval == c.interval
            &&& !r.just_crossed()
        }),
{
}

/// An exhausted cursor stays on its beat for good: whatever the delta and
/// the track time, a tick leaves it exhausted where it was, with no pulse.
pub proof fn lemma_exhausted_is_final(
    c: CursorModel,
    beats: Seq<u64>,
    delta: nat,
    track_time: nat,
)
    requires
        !c.armed,
    ensures
        tick_model(c, beats, delta, track_time) == (CursorModel { crossings: 0, ..c }),
{
}

/// The cursor over a schedule: the beat crossed last, the time to the next
/// one, and the pulse of the latest tick.
#[derive(Clone, Copy, Debug)]
pub struct BeatCursor {
    armed: bool,
    index: usize,
    countdown: u64,
    interval: u64,
    crossings: usize,
}

impl View for BeatCursor {
    type V = CursorModel;

    closed spec fn view(&self) -> CursorModel {
        CursorModel {
            armed: self.armed,
            index: self.index as nat,
            countdown: self.countdown as nat,
            interval: self.interval as nat,
            crossings: self.crossings as nat,
        }
    }
}

impl BeatCursor {
    #[verifier::type_invariant]
    spec fn sound(self) -> bool {
        &&& self@.wf()
        &&& self.armed ==> self.index < usize::MAX
    }

    /// A cursor for a track that starts playing: on beat 0.
    pub fn new(schedule: &BeatSchedule, track_time: u64) -> (cursor: Self)
        ensures
            cursor@ == from_index_model(schedule@, 0, track_time as nat),
            cursor@.wf(),
    {
        Self::from_index(schedule, 0, track_time)
    }

    /// A cursor placed on beat `index` of a track that stands at
    /// `track_time`.
    pub fn from_index(schedule: &BeatSchedule, index: usize, track_time: u64) -> (cursor: Self)
        ensures
            cursor@ == from_index_model(schedule@, index as nat, track_time as nat),
            cursor@.wf(),
    {
        if !schedule.is_ordered() {
            return Self::stopped(index, 0);
        }
        match Self::beat_after(schedule, index) {
            Some(beat) => {
                let countdown = if beat > track_time {
                    beat - track_time
                } else {
                    0
                };
                BeatCursor { armed: true, index, countdown, interval: countdown, crossings: 0 }
            },
            None => Self::stopped(index, 0),
        }
    }

    /// The timestamp of the beat that follows `index`, if there is one.
    fn beat_after(schedule: &BeatSchedule, index: usize) -> (beat: Option<u64>)
        ensures
            index + 1 < schedule@.len() ==> beat == Some(schedule@[index + 1]),
            index + 1 >= schedule@.len() ==> beat.is_none(),
            beat.is_some() ==> index < usize::MAX,
    {
        if index >= schedule.beat_count() {
            return None;
        }
        match schedule.timestamp_at(index + 1) {
            Ok(beat) => Some(beat),
            Err(_) => None,
        }
    }

    /// The exhausted cursor on beat `index`.
    fn stopped(index: usize, crossings: usize) -> (cursor: Self)
        ensures
            cursor@ == exhausted_at(index as nat, crossings as nat),
    {
        BeatCursor { armed: false, index, countdown: 0, interval: 0, crossings }
    }

    /// Lets `delta` pass; `track_time` is the track's elapsed time after it.
    ///
    /// An exhausted cursor stays as it is. An armed one counts down; when
    /// the countdown runs out it crosses the beat, and every further beat
    /// that `track_time` has reached, and is armed again from `track_time`
    /// or exhausted on the last beat. The pulse is raised for this tick
    /// alone.
    pub fn tick(&mut self, schedule: &BeatSchedule, delta: u64, track_time: u64)
        ensures
            final(self)@ == tick_model(old(self)@, schedule@, delta as nat, track_time as nat),
            final(self)@.wf(),
    {
        proof {
            use_type_invariant(&*self);
            lemma_tick_crosses_each_beat(self@, schedule@, delta as nat, track_time as nat);
        }
        if !self.armed {
            self.crossings = 0;
            return ;
        }
        if delta < self.countdown {
            *self = BeatCursor {
                armed: true,
                index: self.index,
                countdown: self.countdown - delta,
                interval: self.interval,
                crossings: 0,
            };
            return ;
        }
        let ghost goal = tick_model(old(self)@, schedule@, delta as nat, track_time as nat);
        let mut index: usize = self.index + 1;
        let mut crossed: usize = 1;
        loop
            invariant
                1 <= crossed <= index,
                goal == catch_up(schedule@, index as nat, track_time as nat, crossed as nat),
            ensures
                self@ == goal,
            decreases schedule@.len() - index,
        {
            match Self::beat_after(schedule, index) {
                Some(beat) => {
                    if beat > track_time {
                        let countdown = beat - track_time;
                        *self = BeatCursor {
                            armed: true,
                            index,
                            countdown,
                            interval: countdown,
                            crossings: crossed,
                        };
                        break ;
                    }
                    index += 1;
                    crossed += 1;
                },
                None => {
                    *self = Self::stopped(index, crossed);
                    break ;
                },
            }
        }
    }

    /// The beat that was crossed last.
    pub fn current_index(&self) -> (index: usize)
        ensures
            index == self@.index,
    {
        self.index
    }

    /// The time left until the next beat; zero once exhausted.
    pub fn countdown(&self) -> (left: u64)
        ensures
            left == self@.countdown,
    {
        self.countdown
    }

    /// The countdown that the current beat started with; zero once
    /// exhausted.
    pub fn total_interval(&self) -> (interval: u64)
        ensures
            interval == self@.interval,
    {
        self.interval
    }

    /// The pulse: whether the latest tick crossed a beat.
    pub fn just_crossed(&self) -> (pulse: bool)
        ensures
            pulse == self@.just_crossed(),
    {
        self.crossings > 0
    }

    /// How many beats the latest tick crossed.
    pub fn crossings(&self) -> (count: usize)
        ensures
            count == self@.crossings,
    {
        self.crossings
    }

    /// Whether the schedule holds no further beat for this cursor.
    pub fn is_exhausted(&self) -> (exhausted: bool)
        ensures
            exhausted == !self@.armed,
    {
        !self.armed
    }

    /// The state by its name.
    pub fn state(&self) -> (state: CursorState)
        ensures
            self@.armed ==> state == (CursorState::Armed {
                index: self@.index as usize,
                countdown: self@.countdown as u64,
            }),
            !self@.armed ==> state == (CursorState::Exhausted {
                last_index: self@.index as usize,
            }),
    {
        if self.armed {
            CursorState::Armed { index: self.index, countdown: self.countdown }
        } else {
            CursorState::Exhausted { last_index: self.index }
        }
    }

    /// The elapsed fraction of the current beat interval, in parts of
    /// `UNIT`: zero right after a beat was crossed, rising towards one as
    /// the next beat comes near.
    pub fn ratio(&self) -> (ratio: u32)
        ensures
            ratio == self@.ratio(),
            ratio <= UNIT,
    {
        proof {
            use_type_invariant(self);
            lemma_ratio_is_a_fraction(self@);
        }
        if self.interval == 0 {
            return 0;
        }
        let elapsed: u128 = (self.interval - self.countdown) as u128;
        let whole: u128 = self.interval as u128;
        assert(elapsed * 1_000_000 <= 0xffff_ffff_ffff_ffff * 1_000_000) by (nonlinear_arith)
            requires
                elapsed <= 0xffff_ffff_ffff_ffff,
        ;
        let scaled: u128 = (elapsed * (UNIT as u128)) / whole;
        scaled as u32
    }
}

} // verus!
