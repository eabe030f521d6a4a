use beat_timing::wave::{BeatWave, HALF, UNIT};

#[test]
fn the_fixed_point_unit() {
    assert_eq!(UNIT, 1_000_000);
    assert_eq!(HALF * 2, UNIT);
}

#[test]
fn the_default_wave_is_the_triangle() {
    assert_eq!(BeatWave::default(), BeatWave::Triangle);
}

#[test]
fn intensity_is_one_on_the_beat() {
    for wave in [BeatWave::Triangle, BeatWave::Parabola] {
        assert_eq!(wave.intensity(0), UNIT);
        assert_eq!(wave.intensity(UNIT), UNIT);
    }
}

#[test]
fn intensity_is_a_half_at_the_midpoint() {
    for wave in [BeatWave::Triangle, BeatWave::Parabola] {
        assert_eq!(wave.intensity(HALF), HALF);
    }
}

#[test]
fn triangle_values() {
    let wave = BeatWave::Triangle;
    assert_eq!(wave.intensity(100_000), 900_000);
    assert_eq!(wave.intensity(250_000), 750_000);
    assert_eq!(wave.intensity(499_999), 500_001);
    assert_eq!(wave.intensity(750_000), 750_000);
    assert_eq!(wave.intensity(900_000), 900_000);
}

#[test]
fn parabola_values() {
    let wave = BeatWave::Parabola;
    assert_eq!(wave.intensity(100_000), 820_000);
    assert_eq!(wave.intensity(250_000), 625_000);
    assert_eq!(wave.intensity(499_999), 500_000);
    assert_eq!(wave.intensity(400_001), 519_999);
    assert_eq!(wave.intensity(750_000), 625_000);
}

#[test]
fn a_ratio_above_one_counts_as_one() {
    for wave in [BeatWave::Triangle, BeatWave::Parabola] {
        assert_eq!(wave.intensity(UNIT + 1), UNIT);
        assert_eq!(wave.intensity(u32::MAX), UNIT);
        assert_eq!(wave.offbeat(u32::MAX), 0);
    }
}

#[test]
fn intensity_never_rises_from_the_beat_to_the_midpoint() {
    for wave in [BeatWave::Triangle, BeatWave::Parabola] {
        let mut last = wave.intensity(0);
        let mut ratio = 0;
        while ratio <= HALF {
            let level = wave.intensity(ratio);
            assert!(level <= last);
            assert!(level <= UNIT);
            assert!(level >= HALF);
            last = level;
            ratio += 997;
        }
    }
}

#[test]
fn intensity_is_symmetric_about_the_midpoint() {
    for wave in [BeatWave::Triangle, BeatWave::Parabola] {
        for ratio in [0, 1, 1234, 250_000, 499_999, HALF] {
            assert_eq!(wave.intensity(ratio), wave.intensity(UNIT - ratio));
        }
    }
}

#[test]
fn intensity_has_no_jumps() {
    for wave in [BeatWave::Triangle, BeatWave::Parabola] {
        let mut ratio = 0;
        while ratio < UNIT {
            let here = wave.intensity(ratio);
            let next = wave.intensity(ratio + 1);
            assert!(here.abs_diff(next) <= 2);
            ratio += 1009;
        }
    }
}

#[test]
fn offbeat_is_what_is_missing_from_one() {
    let wave = BeatWave::Triangle;
    assert_eq!(wave.offbeat(0), 0);
    assert_eq!(wave.offbeat(250_000), 250_000);
    assert_eq!(wave.offbeat(HALF), HALF);
    assert_eq!(wave.offbeat(750_000), 250_000);
    assert_eq!(wave.offbeat(UNIT), 0);
    assert_eq!(BeatWave::Parabola.offbeat(250_000), 375_000);
    for wave in [BeatWave::Triangle, BeatWave::Parabola] {
        for ratio in [0, 17, 333_333, HALF, 800_000, UNIT] {
            assert_eq!(wave.offbeat(ratio) + wave.intensity(ratio), UNIT);
        }
    }
}
