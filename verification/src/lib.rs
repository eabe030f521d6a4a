//! Beat timing for a rhythm-drawing game.
//!
//! Given the elapsed time of the playing track and the list of its beat
//! timestamps, the library keeps a running beat index, raises a pulse on the
//! tick in which a beat is crossed, and maps the progress through the current
//! beat to an animation intensity. Beside that it holds the small rules by
//! which the game hangs its effects on the beat, and the lookup of a sprite
//! in its sheet.
//!
//! All times are whole nanoseconds held in `u64`; ratios and intensities are
//! fixed-point fractions of [`wave::UNIT`].

pub mod atlas;
pub mod clock;
pub mod cues;
pub mod cursor;
pub mod playhead;
pub mod schedule;
pub mod timeline;
pub mod wave;
