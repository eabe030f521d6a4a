//! The beat timestamps of one track.

use vstd::prelude::*;

verus! {

/// Why a lookup in a schedule failed.
#[derive(Clone, Copy, Debug, PartialEq, Eq, Structural)]
pub enum ScheduleError {
    /// The index is at or past the number of beats.
    OutOfRange,
}

/// Every timestamp is strictly later than all timestamps before it.
pub open spec fn strictly_increasing(beats: Seq<u64>) -> bool {
    forall|i: int, j: int| 0 <= i < j < beats.len() ==> beats[i] < beats[j]
}

/// Every timestamp is strictly later than the one directly before it.
pub open spec fn adjacent_increasing(beats: Seq<u64>) -> bool {
    forall|i: int| 0 <= i && i + 1 < beats.len() ==> beats[i] < #[trigger] beats[i + 1]
}

/// Comparing neighbours is enough to know that a whole sequence increases.
pub proof fn lemma_adjacent_is_strict(beats: Seq<u64>)
    ensures
        adjacent_increasing(beats) == strictly_increasing(beats),
{
    if adjacent_increasing(beats) {
        assert forall|i: int, j: int| 0 <= i < j < beats.len() implies beats[i] < beats[j] by {
            lemma_adjacent_reaches(beats, i, j);
        }
    }
    if strictly_increasing(beats) {
        assert forall|i: int| 0 <= i && i + 1 < beats.len() implies beats[i] < #[trigger] beats[i
            + 1] by {}
    }
}

proof fn lemma_adjacent_reaches(beats: Seq<u64>, i: int, j: int)
    requires
        adjacent_increasing(beats),
        0 <= i < j < beats.len(),
    ensures
        beats[i] < beats[j],
    decreases j - i,
{
    assert(beats[j - 1] < beats[(j - 1) + 1]);
    if i < j - 1 {
        lemma_adjacent_reaches(beats, i, j - 1);
    }
}

/// The beat timestamps of one track, in nanoseconds from the start of the
/// track, fixed once built.
///
/// Any sequence can be held. Whether it is strictly increasing is found out
/// once, on construction, and remembered: a cursor refuses to count down
/// against a schedule that is not.
#[derive(Debug)]
pub struct BeatSchedule {
    beats: Vec<u64>,
    ordered: bool,
}

impl View for BeatSchedule {
    type V = Seq<u64>;

    closed spec fn view(&self) -> Seq<u64> {
        self.beats@
    }
}

impl Clone for BeatSchedule {
    /// A second schedule with the same timestamps.
    fn clone(&self) -> (copy: Self)
        ensures
            copy@ == self@,
    {
        proof {
            use_type_invariant(self);
        }
        BeatSchedule { beats: self.beats.clone(), ordered: self.ordered }
    }
}

impl BeatSchedule {
    #[verifier::type_invariant]
    spec fn remembers_order(self) -> bool {
        self.ordered == strictly_increasing(self.beats@)
    }

    /// Takes the timestamps as they are given.
    pub fn new(beats: Vec<u64>) -> (schedule: Self)
        ensures
            schedule@ == beats@,
    {
        let n = beats.len();
        let mut ordered = true;
        let mut i: usize = 1;
        while i < n
            invariant
                n == beats@.len(),
                1 <= i,
                ordered == adjacent_increasing(beats@.take(if i <= n { i as int } else { n as int })),
            decreases n - i,
        {
            let ghost before = beats@.take(i as int);
            let ghost after = beats@.take(i + 1);
            if beats[i - 1] >= beats[i] {
                ordered = false;
                proof {
                    assert(after[i - 1] == beats@[i - 1] && after[(i - 1) + 1] == beats@[i as int]);
                }
            } else {
                proof {
                    if ordered {
                        assert forall|k: int| 0 <= k && k + 1 < after.len() implies after[k]
                            < #[trigger] after[k + 1] by {
                            if k + 1 < i {
                                assert(before[k] < before[k + 1]);
                            }
                        }
                    } else {
                        let k = choose|k: int|
                            0 <= k && k + 1 < before.len() && !(before[k] < #[trigger] before[k
                                + 1]);
                        assert(after[k] == before[k] && after[k + 1] == before[k + 1]);
                    }
                }
            }
            i += 1;
        }
        proof {
            assert(beats@.take(n as int) =~= beats@);
            lemma_adjacent_is_strict(beats@);
        }
        BeatSchedule { beats, ordered }
    }

    /// How many beats the schedule holds.
    pub fn beat_count(&self) -> (count: usize)
        ensures
            count == self@.len(),
    {
        self.beats.len()
    }

    /// The timestamp of the beat at `index`, or `OutOfRange` when the
    /// schedule has no such beat.
    pub fn timestamp_at(&self, index: usize) -> (found: Result<u64, ScheduleError>)
        ensures
            index < self@.len() ==> found == Ok::<u64, ScheduleError>(self@[index as int]),
            index >= self@.len() ==> found == Err::<u64, ScheduleError>(ScheduleError::OutOfRange),
    {
        if index < self.beats.len() {
            Ok(self.beats[index])
        } else {
            Err(ScheduleError::OutOfRange)
        }
    }

    /// Whether the timestamps are strictly increasing.
    pub fn is_ordered(&self) -> (ordered: bool)
        ensures
            ordered == strictly_increasing(self@),
    {
        proof {
            use_type_invariant(self);
        }
        self.ordered
    }
}

} // verus!
