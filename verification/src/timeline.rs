//! A track played tick by tick: what holds of a cursor over a whole run.
//!
//! A run starts a cursor on beat 0 at some track time and ticks it through a
//! sequence of deltas, the track time growing by each delta before the
//! cursor sees it. The theorems here are about all such runs.

use vstd::prelude::*;
use crate::cursor::{
    from_index_model, lemma_catch_up, lemma_tick_crosses_each_beat, tick_model, time_until,
    CursorModel,
};
use crate::schedule::strictly_increasing;

verus! {

/// The sum of the deltas.
pub open spec fn total(deltas: Seq<nat>) -> nat
    decreases deltas.len(),
{
    if deltas.len() == 0 {
        0
    } else {
        total(deltas.drop_last()) + deltas.last()
    }
}

/// The cursor after a run: placed on beat 0 at track time `start`, then
/// ticked by each of `deltas` in turn.
pub open spec fn run(beats: Seq<u64>, start: nat, deltas: Seq<nat>) -> CursorModel
    decreases deltas.len(),
{
    if deltas.len() == 0 {
        from_index_model(beats, 0, start)
    } else {
        tick_model(
            run(beats, start, deltas.drop_last()),
            beats,
            deltas.last(),
            start + total(deltas),
        )
    }
}

/// The cursor after the first `ticks` ticks of a run.
pub open spec fn after(beats: Seq<u64>, start: nat, deltas: Seq<nat>, ticks: int) -> CursorModel {
    run(beats, start, deltas.take(ticks))
}

/// The tick of a run that crosses `boundary`, counted from 1: the first
/// after which the cursor stands on that beat or a later one.
pub open spec fn crossing_tick(beats: Seq<u64>, start: nat, deltas: Seq<nat>, boundary: nat) -> int
    decreases deltas.len(),
{
    if deltas.len() == 0 {
        0
    } else if run(beats, start, deltas.drop_last()).index >= boundary {
        crossing_tick(beats, start, deltas.drop_last(), boundary)
    } else {
        deltas.len() as int
    }
}

/// Through a whole run the cursor stands on the latest beat that the track
/// has reached.
///
/// Over a schedule of two or more strictly increasing beats: the cursor is
/// armed exactly while a beat lies after the one it stands on, and its
/// countdown is the time from the track time to that beat; the beat it
/// stands on, unless that is the first, is at or before the track time;
/// and once it has been ticked, the next beat is still ahead, so that no
/// beat the track has reached was skipped.
pub proof fn lemma_run_follows_track(beats: Seq<u64>, start: nat, deltas: Seq<nat>)
    requires
        beats.len() >= 2,
        strictly_increasing(beats),
    ensures
        ({
            let c = run(beats, start, deltas);
            let now = start + total(deltas);
            &&& c.wf()
            &&& c.index < beats.len()
            &&& c.armed <==> c.index + 1 < beats.len()
            &&& c.armed ==> c.countdown == time_until(beats[c.index as int + 1], now)
            &&& c.index >= 1 ==> beats[c.index as int] <= now
            &&& c.armed && deltas.len() >= 1 ==> beats[c.index as int + 1] > now
            &&& deltas.len() >= 1 ==> forall|j: int|
                0 <= j < beats.len() && beats[j] <= now ==> j <= c.index
        }),
    decreases deltas.len(),
{
    if deltas.len() > 0 {
        let before = run(beats, start, deltas.drop_last());
        let now = start + total(deltas);
        lemma_run_follows_track(beats, start, deltas.drop_last());
        lemma_tick_crosses_each_beat(before, beats, deltas.last(), now);
        if before.armed && deltas.last() >= before.countdown {
            lemma_catch_up(beats, before.index + 1, now, 1);
        }
        let c = run(beats, start, deltas);
        assert forall|j: int| 0 <= j < beats.len() && beats[j] <= now implies j <= c.index by {
            if j > c.index {
                assert(beats[c.index as int + 1] <= beats[j]);
            }
        }
    }
}

/// A run that carries the track to the last beat, or past it, leaves the
/// cursor exhausted on the last beat.
pub proof fn lemma_run_to_the_end_exhausts(beats: Seq<u64>, start: nat, deltas: Seq<nat>)
    requires
        beats.len() >= 2,
        strictly_increasing(beats),
        deltas.len() >= 1,
        start + total(deltas) >= beats.last(),
    ensures
        !run(beats, start, deltas).armed,
        run(beats, start, deltas).index == beats.len() - 1,
{
    lemma_run_follows_track(beats, start, deltas);
    let c = run(beats, start, deltas);
    if c.armed {
        assert(beats[c.index as int + 1] <= beats.last());
    }
}

/// Ticking by exactly the time between the first beat and the last, in any
/// number of ticks, ends on the last beat with the cursor exhausted.
///
/// The run has to start at the first beat or after it: started earlier, the
/// same deltas end before the last beat is reached.
pub proof fn lemma_full_run_exhausts(beats: Seq<u64>, start: nat, deltas: Seq<nat>)
    requires
        beats.len() >= 2,
        strictly_increasing(beats),
        start >= beats[0],
        total(deltas) == beats.last() - beats[0],
    ensures
        !run(beats, start, deltas).armed,
        run(beats, start, deltas).index == beats.len() - 1,
{
    assert(beats[0] < beats.last());
    lemma_run_to_the_end_exhausts(beats, start, deltas);
}

/// The beat index never goes back during a run.
pub proof fn lemma_index_never_decreases(
    beats: Seq<u64>,
    start: nat,
    deltas: Seq<nat>,
    earlier: int,
    later: int,
)
    requires
        0 <= earlier <= later <= deltas.len(),
    ensures
        after(beats, start, deltas, earlier).index <= after(beats, start, deltas, later).index,
        after(beats, start, deltas, later).wf(),
    decreases later - earlier,
{
    lemma_run_wf(beats, start, deltas.take(later));
    if earlier < later {
        lemma_index_never_decreases(beats, start, deltas, earlier, later - 1);
        lemma_step(beats, start, deltas, later);
        lemma_tick_crosses_each_beat(
            after(beats, start, deltas, later - 1),
            beats,
            deltas[later - 1],
            start + total(deltas.take(later)),
        );
    }
}

/// Each beat boundary that a run crosses is crossed in exactly one tick,
/// and that tick raises the pulse.
///
/// For every beat from 1 to the one the cursor stands on at the end, there
/// is one tick before which the cursor stood on an earlier beat and after
/// which it stands on that beat or a later one; the pulse is raised after
/// that tick; and no other tick of the run takes the cursor across that
/// boundary. A delta that spans several boundaries crosses them all in its
/// one tick.
pub proof fn lemma_one_pulse_per_boundary(
    beats: Seq<u64>,
    start: nat,
    deltas: Seq<nat>,
    boundary: nat,
)
    requires
        1 <= boundary <= run(beats, start, deltas).index,
    ensures
        ({
            let k = crossing_tick(beats, start, deltas, boundary);
            &&& 1 <= k <= deltas.len()
            &&& after(beats, start, deltas, k - 1).index < boundary
            &&& boundary <= after(beats, start, deltas, k).index
            &&& after(beats, start, deltas, k).just_crossed()
            &&& forall|other: int|
                1 <= other <= deltas.len() && after(beats, start, deltas, other - 1).index
                    < boundary && boundary <= #[trigger] after(beats, start, deltas, other).index
                    ==> other == k
        }),
    decreases deltas.len(),
{
    let n = deltas.len() as int;
    let k = crossing_tick(beats, start, deltas, boundary);
    assert(deltas.take(n) =~= deltas);
    if n == 0 {
        // A fresh cursor stands on beat 0, so no boundary is crossed.
    } else {
        let shorter = deltas.drop_last();
        assert(deltas.take(n - 1) =~= shorter);
        if run(beats, start, shorter).index >= boundary {
            lemma_one_pulse_per_boundary(beats, start, shorter, boundary);
            assert forall|i: int| 0 <= i <= n - 1 implies after(beats, start, shorter, i) == after(
                beats,
                start,
                deltas,
                i,
            ) by {
                assert(shorter.take(i) =~= deltas.take(i));
            }
            assert(after(beats, start, deltas, k - 1) == after(beats, start, shorter, k - 1));
            assert(after(beats, start, deltas, k) == after(beats, start, shorter, k));
            assert forall|other: int|
                1 <= other <= deltas.len() && after(beats, start, deltas, other - 1).index
                    < boundary && boundary <= #[trigger] after(
                    beats,
                    start,
                    deltas,
                    other,
                ).index implies other == k by {
                if other == n {
                    // Before the last tick the boundary was already behind.
                } else {
                    assert(after(beats, start, shorter, other - 1) == after(
                        beats,
                        start,
                        deltas,
                        other - 1,
                    ));
                    assert(after(beats, start, shorter, other) == after(
                        beats,
                        start,
                        deltas,
                        other,
                    ));
                }
            }
        } else {
            lemma_index_never_decreases(beats, start, deltas, 0, n - 1);
            lemma_step(beats, start, deltas, n);
            lemma_tick_crosses_each_beat(
                after(beats, start, deltas, n - 1),
                beats,
                deltas[n - 1],
                start + total(deltas.take(n)),
            );
            assert forall|other: int|
                1 <= other <= deltas.len() && after(beats, start, deltas, other - 1).index
                    < boundary && boundary <= #[trigger] after(
                    beats,
                    start,
                    deltas,
                    other,
                ).index implies other == k by {
                if other < n {
                    lemma_index_never_decreases(beats, start, deltas, other, n - 1);
                }
            }
        }
    }
}

/// One more tick extends a run: the cursor after `deltas` and then `delta`
/// is the cursor after `deltas`, ticked by `delta` at the track time that
/// all of them add up to.
pub proof fn lemma_run_extends(beats: Seq<u64>, start: nat, deltas: Seq<nat>, delta: nat)
    ensures
        total(deltas.push(delta)) == total(deltas) + delta,
        run(beats, start, deltas.push(delta)) == tick_model(
            run(beats, start, deltas),
            beats,
            delta,
            start + total(deltas) + delta,
        ),
{
    assert(deltas.push(delta).drop_last() =~= deltas);
}

/// The cursor after `ticks` ticks is the cursor after one tick fewer,
/// ticked once more.
proof fn lemma_step(beats: Seq<u64>, start: nat, deltas: Seq<nat>, ticks: int)
    requires
        1 <= ticks <= deltas.len(),
    ensures
        after(beats, start, deltas, ticks) == tick_model(
            after(beats, start, deltas, ticks - 1),
            beats,
            deltas[ticks - 1],
            start + total(deltas.take(ticks)),
        ),
{
    assert(deltas.take(ticks).drop_last() =~= deltas.take(ticks - 1));
}

/// Every run leaves a well-formed cursor.
proof fn lemma_run_wf(beats: Seq<u64>, start: nat, deltas: Seq<nat>)
    ensures
        run(beats, start, deltas).wf(),
    decreases deltas.len(),
{
    if deltas.len() > 0 {
        lemma_run_wf(beats, start, deltas.drop_last());
        lemma_tick_crosses_each_beat(
            run(beats, start, deltas.drop_last()),
            beats,
            deltas.last(),
            start + total(deltas),
        );
    }
}

} // verus!
