//! Rules that hang effects on the beat index.

use vstd::prelude::*;

verus! {

/// Beats in a bar: an enemy appears on the first beat of each bar.
pub const BEATS_PER_BAR: usize = 4;

/// For how many beats a stroke of ink stays on the page.
pub const INK_LIFETIME_BEATS: usize = 2;

/// The side to which the quill swings while it scribbles.
#[derive(Clone, Copy, Debug, PartialEq, Eq, Structural)]
pub enum Swing {
    /// Towards positive x.
    Right,
    /// Towards negative x.
    Left,
}

/// Whether an enemy appears in this tick: when the tick crossed a beat and
/// the cursor stands on the first beat of a bar.
pub fn enemy_due(beat_index: usize, just_crossed: bool) -> (due: bool)
    ensures
        due == (just_crossed && beat_index % BEATS_PER_BAR == 0),
{
    just_crossed && beat_index % BEATS_PER_BAR == 0
}

/// The side of the scribble on this beat: right on even beats, left on odd
/// ones.
pub fn swing_on(beat_index: usize) -> (swing: Swing)
    ensures
        swing == if beat_index % 2 == 0 {
            Swing::Right
        } else {
            Swing::Left
        },
{
    if beat_index % 2 == 0 {
        Swing::Right
    } else {
        Swing::Left
    }
}

/// Whether a stroke of ink dropped on beat `spawn_beat` has outlived its
/// beats at `beat_index`: when more than `INK_LIFETIME_BEATS` beats were
/// crossed since.
pub fn ink_expired(beat_index: usize, spawn_beat: usize) -> (expired: bool)
    ensures
        expired == (beat_index - spawn_beat > INK_LIFETIME_BEATS),
{
    beat_index > spawn_beat && beat_index - spawn_beat > INK_LIFETIME_BEATS
}

} // verus!
