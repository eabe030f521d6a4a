//! The animation intensity that follows the beat.
//!
//! A wave maps the elapsed fraction of the current beat interval to an
//! intensity. Both are fixed-point fractions: `0` is zero and [`UNIT`] is
//! one. Every shape is highest on the beat, falls to the midpoint between
//! two beats and rises again to the next beat.

use vstd::prelude::*;

verus! {

/// The fixed-point one: ratios and intensities are parts of `UNIT`.
pub const UNIT: u32 = 1_000_000;

/// Half of `UNIT`: the midpoint between two beats.
pub const HALF: u32 = 500_000;

/// The shape of the wave between two beats.
#[derive(Clone, Copy, Debug, PartialEq, Eq, Structural)]
pub enum BeatWave {
    /// Straight lines: the intensity falls evenly from one on the beat to a
    /// half at the midpoint.
    Triangle,
    /// A parabola between the same points: the intensity falls fastest
    /// right after the beat and levels out towards the midpoint.
    Parabola,
}

/// How far a ratio lies from the midpoint. A ratio above one counts as one.
pub open spec fn from_midpoint(ratio: nat) -> nat {
    if ratio <= HALF {
        (HALF - ratio) as nat
    } else if ratio <= UNIT {
        (ratio - HALF) as nat
    } else {
        HALF as nat
    }
}

/// The part of the parabola above a half, at distance `d` from the
/// midpoint: `2 d^2`, in parts of `UNIT` and rounded down.
pub open spec fn parabola_term(d: int) -> int {
    (2 * d * d) / (UNIT as int)
}

/// The intensity of `wave` at `ratio`.
///
/// With `d` the distance of the ratio from the midpoint, the triangle is
/// `1/2 + d` and the parabola `1/2 + 2 d^2`.
pub open spec fn intensity_model(wave: BeatWave, ratio: nat) -> nat {
    let d = from_midpoint(ratio);
    match wave {
        BeatWave::Triangle => (HALF + d) as nat,
        BeatWave::Parabola => (HALF + parabola_term(d as int)) as nat,
    }
}

/// What is missing from the full intensity at `ratio`: zero on the beat,
/// highest at the midpoint. For the triangle this is
/// `1 - (|1/2 - ratio| + 1/2)`.
pub open spec fn offbeat_model(wave: BeatWave, ratio: nat) -> nat {
    (UNIT - intensity_model(wave, ratio)) as nat
}

/// The parabola's term grows with the distance from the midpoint, by no
/// more than twice the growth of the distance; it is zero at the midpoint
/// and a half on the beat.
proof fn lemma_parabola_term(lo: int, hi: int)
    requires
        0 <= lo <= hi <= HALF,
    ensures
        parabola_term(lo) <= parabola_term(hi) <= parabola_term(lo) + 2 * (hi - lo),
        parabola_term(0) == 0,
        parabola_term(HALF as int) == HALF,
{
    assert(0 <= 2 * lo * lo <= 2 * hi * hi <= 2 * lo * lo + (2 * (hi - lo)) * 1_000_000)
        by (nonlinear_arith)
        requires
            0 <= lo <= hi <= 500_000,
    ;
    assert((2 * lo * lo) / 1_000_000 <= (2 * hi * hi) / 1_000_000) by (nonlinear_arith)
        requires
            0 <= 2 * lo * lo <= 2 * hi * hi,
    ;
    assert((2 * hi * hi) / 1_000_000 <= (2 * lo * lo) / 1_000_000 + 2 * (hi - lo))
        by (nonlinear_arith)
        requires
            0 <= 2 * hi * hi <= 2 * lo * lo + (2 * (hi - lo)) * 1_000_000,
            0 <= 2 * lo * lo,
            0 <= hi - lo,
    ;
    assert((2 * 0 * 0) / 1_000_000 == 0) by (nonlinear_arith);
    assert((2 * 500_000 * 500_000) / 1_000_000 == 500_000) by (nonlinear_arith);
}

/// The intensity always lies between a half and one.
pub proof fn lemma_intensity_in_range(wave: BeatWave, ratio: nat)
    ensures
        HALF <= intensity_model(wave, ratio) <= UNIT,
        offbeat_model(wave, ratio) <= HALF,
{
    let d = from_midpoint(ratio) as int;
    lemma_parabola_term(0, d);
    lemma_parabola_term(d, HALF as int);
}

/// The intensity is one, its highest value, exactly on the beat, and a
/// half, its lowest, at the midpoint.
pub proof fn lemma_intensity_peaks_on_the_beat(wave: BeatWave)
    ensures
        intensity_model(wave, 0) == UNIT,
        intensity_model(wave, HALF as nat) == HALF,
        forall|ratio: nat| intensity_model(wave, 0) >= #[trigger] intensity_model(wave, ratio),
        forall|ratio: nat|
            intensity_model(wave, HALF as nat) <= #[trigger] intensity_model(wave, ratio),
{
    lemma_parabola_term(0, HALF as int);
    assert forall|ratio: nat| HALF <= #[trigger] intensity_model(wave, ratio) <= UNIT by {
        lemma_intensity_in_range(wave, ratio);
    }
}

/// From the beat to the midpoint the intensity never rises.
pub proof fn lemma_intensity_falls_to_the_midpoint(wave: BeatWave, earlier: nat, later: nat)
    requires
        earlier <= later <= HALF,
    ensures
        intensity_model(wave, earlier) >= intensity_model(wave, later),
{
    lemma_parabola_term(from_midpoint(later) as int, from_midpoint(earlier) as int);
}

/// The wave is the same on both sides of the midpoint.
pub proof fn lemma_intensity_is_symmetric(wave: BeatWave, ratio: nat)
    requires
        ratio <= UNIT,
    ensures
        intensity_model(wave, ratio) == intensity_model(wave, (UNIT - ratio) as nat),
{
}

/// The wave has no jumps: two ratios that lie no more than `gap` apart give
/// intensities no more than twice `gap` apart.
pub proof fn lemma_intensity_is_continuous(wave: BeatWave, a: nat, b: nat, gap: nat)
    requires
        a <= b <= a + gap,
    ensures
        intensity_model(wave, a) - intensity_model(wave, b) <= 2 * gap,
        intensity_model(wave, b) - intensity_model(wave, a) <= 2 * gap,
{
    let da = from_midpoint(a) as int;
    let db = from_midpoint(b) as int;
    if da <= db {
        lemma_parabola_term(da, db);
    } else {
        lemma_parabola_term(db, da);
    }
}

impl Default for BeatWave {
    /// The triangle.
    fn default() -> (wave: Self)
        ensures
            wave == BeatWave::Triangle,
    {
        BeatWave::Triangle
    }
}

impl BeatWave {
    /// The intensity at `ratio`, the elapsed fraction of the beat interval:
    /// one on the beat, a half at the midpoint. A ratio above one is taken
    /// as one.
    pub fn intensity(&self, ratio: u32) -> (level: u32)
        ensures
            level == intensity_model(*self, ratio as nat),
            HALF <= level <= UNIT,
    {
        proof {
            lemma_intensity_in_range(*self, ratio as nat);
        }
        let d: u32 = if ratio <= HALF {
            HALF - ratio
        } else if ratio <= UNIT {
            ratio - HALF
        } else {
            HALF
        };
        match self {
            BeatWave::Triangle => HALF + d,
            BeatWave::Parabola => {
                let wide: u64 = d as u64;
                assert(2 * wide * wide <= 500_000_000_000) by (nonlinear_arith)
                    requires
                        wide <= 500_000,
                ;
                let term: u64 = (2 * wide * wide) / (UNIT as u64);
                assert(term == parabola_term(d as int));
                HALF + term as u32
            },
        }
    }

    /// How far the wave has sunk below its peak at `ratio`: zero on the
    /// beat, a half at the midpoint.
    pub fn offbeat(&self, ratio: u32) -> (level: u32)
        ensures
            level == offbeat_model(*self, ratio as nat),
            level + intensity_model(*self, ratio as nat) == UNIT,
            level <= HALF,
    {
        UNIT - self.intensity(ratio)
    }
}

} // verus!
