use beat_timing::cursor::{BeatCursor, CursorState};
use beat_timing::schedule::BeatSchedule;

const MS: u64 = 1_000_000;

#[test]
fn a_new_cursor_waits_for_the_second_beat() {
    let schedule = BeatSchedule::new(vec![0, 1000 * MS, 2500 * MS]);
    let cursor = BeatCursor::new(&schedule, 0);
    assert_eq!(cursor.current_index(), 0);
    assert_eq!(cursor.countdown(), 1000 * MS);
    assert_eq!(cursor.total_interval(), 1000 * MS);
    assert!(!cursor.just_crossed());
    assert_eq!(cursor.crossings(), 0);
    assert!(!cursor.is_exhausted());
    assert_eq!(cursor.state(), CursorState::Armed { index: 0, countdown: 1000 * MS });
}

#[test]
fn a_new_cursor_counts_from_the_track_time() {
    let schedule = BeatSchedule::new(vec![0, 1000 * MS, 2500 * MS]);
    let cursor = BeatCursor::new(&schedule, 400 * MS);
    assert_eq!(cursor.current_index(), 0);
    assert_eq!(cursor.countdown(), 600 * MS);
    assert_eq!(cursor.total_interval(), 600 * MS);
}

#[test]
fn a_late_start_clamps_the_countdown_and_fires_on_the_first_tick() {
    let schedule = BeatSchedule::new(vec![0, 1000 * MS, 2500 * MS]);
    let mut cursor = BeatCursor::new(&schedule, 1200 * MS);
    assert_eq!(cursor.current_index(), 0);
    assert_eq!(cursor.countdown(), 0);
    assert!(!cursor.is_exhausted());
    assert!(!cursor.just_crossed());
    cursor.tick(&schedule, 0, 1200 * MS);
    assert!(cursor.just_crossed());
    assert_eq!(cursor.current_index(), 1);
    assert_eq!(cursor.countdown(), 1300 * MS);
}

#[test]
fn fewer_than_two_beats_exhaust_at_once() {
    for beats in [vec![], vec![0], vec![750 * MS]] {
        let schedule = BeatSchedule::new(beats);
        let mut cursor = BeatCursor::new(&schedule, 0);
        assert!(cursor.is_exhausted());
        assert_eq!(cursor.state(), CursorState::Exhausted { last_index: 0 });
        assert_eq!(cursor.countdown(), 0);
        assert_eq!(cursor.total_interval(), 0);
        cursor.tick(&schedule, 1000 * MS, 1000 * MS);
        assert!(cursor.is_exhausted());
        assert_eq!(cursor.current_index(), 0);
        assert!(!cursor.just_crossed());
    }
}

#[test]
fn an_unordered_schedule_exhausts_at_once() {
    for beats in [vec![0, 2000 * MS, 1000 * MS], vec![0, 0, 1000 * MS], vec![5, 4]] {
        let schedule = BeatSchedule::new(beats);
        let mut cursor = BeatCursor::new(&schedule, 0);
        assert!(cursor.is_exhausted());
        assert_eq!(cursor.current_index(), 0);
        cursor.tick(&schedule, 3000 * MS, 3000 * MS);
        assert_eq!(cursor.state(), CursorState::Exhausted { last_index: 0 });
        assert!(!cursor.just_crossed());
    }
}

#[test]
fn from_index_arms_for_the_following_beat() {
    let schedule = BeatSchedule::new(vec![0, 1000 * MS, 2500 * MS, 4000 * MS]);
    let cursor = BeatCursor::from_index(&schedule, 2, 3000 * MS);
    assert_eq!(cursor.state(), CursorState::Armed { index: 2, countdown: 1000 * MS });
    assert_eq!(cursor.total_interval(), 1000 * MS);
    assert!(!cursor.just_crossed());
}

#[test]
fn from_index_on_or_past_the_last_beat_is_exhausted() {
    let schedule = BeatSchedule::new(vec![0, 1000 * MS, 2500 * MS]);
    assert_eq!(
        BeatCursor::from_index(&schedule, 2, 0).state(),
        CursorState::Exhausted { last_index: 2 }
    );
    assert_eq!(
        BeatCursor::from_index(&schedule, 3, 0).state(),
        CursorState::Exhausted { last_index: 3 }
    );
    assert_eq!(
        BeatCursor::from_index(&schedule, usize::MAX, 0).state(),
        CursorState::Exhausted { last_index: usize::MAX }
    );
}

#[test]
fn a_tick_short_of_the_beat_only_counts_down() {
    let schedule = BeatSchedule::new(vec![0, 1000 * MS, 2500 * MS]);
    let mut cursor = BeatCursor::new(&schedule, 0);
    cursor.tick(&schedule, 400 * MS, 400 * MS);
    assert_eq!(cursor.current_index(), 0);
    assert_eq!(cursor.countdown(), 600 * MS);
    assert_eq!(cursor.total_interval(), 1000 * MS);
    assert!(!cursor.just_crossed());
    cursor.tick(&schedule, 599 * MS, 999 * MS);
    assert_eq!(cursor.countdown(), MS);
    assert!(!cursor.just_crossed());
}

#[test]
fn a_tick_that_lands_on_the_beat_crosses_it() {
    let schedule = BeatSchedule::new(vec![0, 1000 * MS, 2500 * MS]);
    let mut cursor = BeatCursor::new(&schedule, 0);
    cursor.tick(&schedule, 1000 * MS, 1000 * MS);
    assert!(cursor.just_crossed());
    assert_eq!(cursor.crossings(), 1);
    assert_eq!(cursor.current_index(), 1);
    assert_eq!(cursor.countdown(), 1500 * MS);
    assert_eq!(cursor.total_interval(), 1500 * MS);
}

#[test]
fn the_pulse_lasts_one_tick() {
    let schedule = BeatSchedule::new(vec![0, 1000 * MS, 2500 * MS]);
    let mut cursor = BeatCursor::new(&schedule, 0);
    cursor.tick(&schedule, 1000 * MS, 1000 * MS);
    assert!(cursor.just_crossed());
    cursor.tick(&schedule, 10 * MS, 1010 * MS);
    assert!(!cursor.just_crossed());
    assert_eq!(cursor.crossings(), 0);
    assert_eq!(cursor.current_index(), 1);
}

#[test]
fn rearming_uses_the_absolute_track_time() {
    let schedule = BeatSchedule::new(vec![0, 1000 * MS, 2500 * MS]);
    let mut cursor = BeatCursor::new(&schedule, 0);
    cursor.tick(&schedule, 1500 * MS, 1500 * MS);
    assert_eq!(cursor.current_index(), 1);
    assert!(cursor.just_crossed());
    assert_eq!(cursor.countdown(), 1000 * MS);
}

#[test]
fn rearming_ignores_a_drifted_countdown() {
    // The deltas add up to less than the track time that is reported: the
    // new countdown follows the track time.
    let schedule = BeatSchedule::new(vec![0, 1000 * MS, 2500 * MS]);
    let mut cursor = BeatCursor::new(&schedule, 0);
    cursor.tick(&schedule, 1000 * MS, 1100 * MS);
    assert_eq!(cursor.current_index(), 1);
    assert_eq!(cursor.countdown(), 1400 * MS);
}

#[test]
fn one_long_delta_catches_up_beat_by_beat() {
    let schedule = BeatSchedule::new(vec![0, 100 * MS, 200 * MS, 5000 * MS]);
    let mut cursor = BeatCursor::new(&schedule, 0);
    cursor.tick(&schedule, 250 * MS, 250 * MS);
    assert_eq!(cursor.current_index(), 2);
    assert!(cursor.just_crossed());
    assert_eq!(cursor.crossings(), 2);
    assert_eq!(cursor.countdown(), 4750 * MS);
    assert_eq!(cursor.state(), CursorState::Armed { index: 2, countdown: 4750 * MS });
}

#[test]
fn catching_up_crosses_a_beat_that_is_due_exactly_now() {
    let schedule = BeatSchedule::new(vec![0, 100 * MS, 200 * MS, 5000 * MS]);
    let mut cursor = BeatCursor::new(&schedule, 0);
    cursor.tick(&schedule, 200 * MS, 200 * MS);
    assert_eq!(cursor.current_index(), 2);
    assert_eq!(cursor.crossings(), 2);
    assert_eq!(cursor.countdown(), 4800 * MS);
}

#[test]
fn catching_up_to_the_last_beat_exhausts() {
    let schedule = BeatSchedule::new(vec![0, 100 * MS, 200 * MS, 5000 * MS]);
    let mut cursor = BeatCursor::new(&schedule, 0);
    cursor.tick(&schedule, 6000 * MS, 6000 * MS);
    assert_eq!(cursor.state(), CursorState::Exhausted { last_index: 3 });
    assert!(cursor.just_crossed());
    assert_eq!(cursor.crossings(), 3);
    assert_eq!(cursor.countdown(), 0);
    assert_eq!(cursor.total_interval(), 0);
}

#[test]
fn an_exhausted_cursor_stays_put() {
    let schedule = BeatSchedule::new(vec![0, 1000 * MS]);
    let mut cursor = BeatCursor::new(&schedule, 0);
    cursor.tick(&schedule, 1000 * MS, 1000 * MS);
    assert!(cursor.just_crossed());
    assert_eq!(cursor.current_index(), 1);
    assert!(cursor.is_exhausted());
    let mut now = 1000 * MS;
    for delta in [0, 1, MS, 1000 * MS, 3_600_000 * MS, u64::MAX / 4] {
        now += delta;
        cursor.tick(&schedule, delta, now);
        assert_eq!(cursor.current_index(), 1);
        assert!(!cursor.just_crossed());
        assert!(cursor.is_exhausted());
    }
}

#[test]
fn a_zero_tick_changes_nothing() {
    let schedule = BeatSchedule::new(vec![0, 1000 * MS, 2500 * MS]);
    let mut cursor = BeatCursor::new(&schedule, 0);
    cursor.tick(&schedule, 300 * MS, 300 * MS);
    for _ in 0..5 {
        cursor.tick(&schedule, 0, 300 * MS);
        assert_eq!(cursor.current_index(), 0);
        assert_eq!(cursor.countdown(), 700 * MS);
        assert_eq!(cursor.total_interval(), 1000 * MS);
        assert!(!cursor.just_crossed());
    }
}

#[test]
fn a_zero_tick_after_a_crossing_clears_the_pulse_only() {
    let schedule = BeatSchedule::new(vec![0, 1000 * MS, 2500 * MS]);
    let mut cursor = BeatCursor::new(&schedule, 0);
    cursor.tick(&schedule, 1200 * MS, 1200 * MS);
    assert!(cursor.just_crossed());
    cursor.tick(&schedule, 0, 1200 * MS);
    assert!(!cursor.just_crossed());
    assert_eq!(cursor.current_index(), 1);
    assert_eq!(cursor.countdown(), 1300 * MS);
}

#[test]
fn ticking_through_all_intervals_ends_on_the_last_beat() {
    let beats = vec![0, 480 * MS, 990 * MS, 1510 * MS, 2000 * MS];
    let schedule = BeatSchedule::new(beats.clone());
    let mut cursor = BeatCursor::new(&schedule, 0);
    let mut now = 0;
    let mut pulses = 0;
    for pair in beats.windows(2) {
        let delta = pair[1] - pair[0];
        now += delta;
        cursor.tick(&schedule, delta, now);
        assert!(cursor.just_crossed());
        pulses += 1;
    }
    assert_eq!(pulses, 4);
    assert_eq!(cursor.current_index(), schedule.beat_count() - 1);
    assert!(cursor.is_exhausted());
}

#[test]
fn ticking_through_the_whole_track_in_small_frames_counts_every_beat() {
    let beats = vec![0, 480 * MS, 990 * MS, 1510 * MS, 2000 * MS];
    let schedule = BeatSchedule::new(beats);
    let mut cursor = BeatCursor::new(&schedule, 0);
    let frame = 16 * MS;
    let mut now = 0;
    let mut pulses = 0;
    let mut crossed = 0;
    while now < 2000 * MS {
        let delta = frame.min(2000 * MS - now);
        now += delta;
        let before = cursor.current_index();
        cursor.tick(&schedule, delta, now);
        assert_eq!(cursor.current_index(), before + cursor.crossings());
        assert_eq!(cursor.just_crossed(), cursor.current_index() > before);
        if cursor.just_crossed() {
            pulses += 1;
        }
        crossed += cursor.crossings();
    }
    assert_eq!(pulses, 4);
    assert_eq!(crossed, 4);
    assert_eq!(cursor.state(), CursorState::Exhausted { last_index: 4 });
}

#[test]
fn ratio_is_the_elapsed_part_of_the_interval() {
    let schedule = BeatSchedule::new(vec![0, 1000 * MS, 2500 * MS]);
    let mut cursor = BeatCursor::new(&schedule, 0);
    assert_eq!(cursor.ratio(), 0);
    cursor.tick(&schedule, 250 * MS, 250 * MS);
    assert_eq!(cursor.ratio(), 250_000);
    cursor.tick(&schedule, 250 * MS, 500 * MS);
    assert_eq!(cursor.ratio(), 500_000);
    cursor.tick(&schedule, 499 * MS, 999 * MS);
    assert_eq!(cursor.ratio(), 999_000);
    cursor.tick(&schedule, MS, 1000 * MS);
    assert_eq!(cursor.ratio(), 0);
    cursor.tick(&schedule, 500 * MS, 1500 * MS);
    assert_eq!(cursor.ratio(), 333_333);
}

#[test]
fn ratio_is_zero_without_an_interval() {
    let schedule = BeatSchedule::new(vec![0, 1000 * MS]);
    let late = BeatCursor::new(&schedule, 5000 * MS);
    assert_eq!(late.total_interval(), 0);
    assert_eq!(late.ratio(), 0);
    let mut done = BeatCursor::new(&schedule, 0);
    done.tick(&schedule, 1000 * MS, 1000 * MS);
    assert!(done.is_exhausted());
    assert_eq!(done.ratio(), 0);
}

#[test]
fn ratio_of_the_longest_interval_does_not_overflow() {
    let schedule = BeatSchedule::new(vec![0, u64::MAX]);
    let mut cursor = BeatCursor::new(&schedule, 0);
    cursor.tick(&schedule, u64::MAX - 1, u64::MAX - 1);
    assert_eq!(cursor.countdown(), 1);
    assert_eq!(cursor.ratio(), 999_999);
}

#[test]
fn a_cursor_ticked_against_a_shorter_schedule_exhausts_without_failing() {
    let long = BeatSchedule::new(vec![0, 100, 200, 300]);
    let short = BeatSchedule::new(vec![0, 100]);
    let mut cursor = BeatCursor::from_index(&long, 2, 250);
    assert_eq!(cursor.state(), CursorState::Armed { index: 2, countdown: 50 });
    cursor.tick(&short, 50, 300);
    assert_eq!(cursor.state(), CursorState::Exhausted { last_index: 3 });
    assert!(cursor.just_crossed());
}

#[test]
fn started_before_the_first_beat_the_sum_of_the_intervals_falls_short() {
    let schedule = BeatSchedule::new(vec![1000 * MS, 2000 * MS, 3000 * MS]);
    let mut cursor = BeatCursor::new(&schedule, 0);
    assert_eq!(cursor.countdown(), 2000 * MS);
    cursor.tick(&schedule, 2000 * MS, 2000 * MS);
    assert_eq!(cursor.state(), CursorState::Armed { index: 1, countdown: 1000 * MS });
    cursor.tick(&schedule, 1000 * MS, 3000 * MS);
    assert_eq!(cursor.state(), CursorState::Exhausted { last_index: 2 });
}
