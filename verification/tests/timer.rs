use bevy_status_effects::{
    merge_clocks, Delay, EffectTimer, Lifetime, MergeOutcome, Timer, TimerError, TimerMergeMode,
    TimerMode, NANOS_PER_SECOND,
};

const SECOND: u64 = NANOS_PER_SECOND;

#[test]
fn merge_replace() {
    let first = Lifetime::from_seconds(1).unwrap().with_mode(TimerMergeMode::Replace);
    let second = Lifetime::from_seconds(2).unwrap().with_mode(TimerMergeMode::Replace);
    let mut result = second.clone();
    result.merge(&first);

    assert_eq!(result, second);
}

#[test]
fn merge_inherit() {
    let first = Lifetime::from_seconds(1).unwrap().with_mode(TimerMergeMode::Inherit);
    let second = Lifetime::from_seconds(2).unwrap().with_mode(TimerMergeMode::Inherit);
    let mut result = second.clone();
    result.merge(&first);

    assert_eq!(result.timer, first.timer);
    assert_eq!(result, first);
}

#[test]
fn merge_fraction() {
    let first = Lifetime::from_seconds(1).unwrap().with_mode(TimerMergeMode::Fraction);
    let second = Lifetime::from_seconds(2).unwrap().with_mode(TimerMergeMode::Fraction);
    let mut result = second.clone();
    result.merge(&first);

    assert_eq!(result, second);
}

#[test]
fn merge_max() {
    let first = Lifetime::from_seconds(1).unwrap().with_mode(TimerMergeMode::Max);
    let mut second = Lifetime::from_seconds(3).unwrap().with_mode(TimerMergeMode::Max);
    second.merge(&first);
    let third = Lifetime::from_seconds(2).unwrap().with_mode(TimerMergeMode::Max);

    let mut result = third.clone();
    result.merge(&second);

    assert_eq!(result, second);
}

#[test]
fn new_refuses_zero_duration() {
    assert_eq!(Timer::new(0, TimerMode::Once), Err(TimerError::InvalidDuration));
    assert_eq!(Timer::new(0, TimerMode::Repeating), Err(TimerError::InvalidDuration));
    assert_eq!(Lifetime::new(0), Err(TimerError::InvalidDuration));
    assert_eq!(Delay::new(0), Err(TimerError::InvalidDuration));
    assert_eq!(Lifetime::from_seconds(0), Err(TimerError::InvalidDuration));
    assert_eq!(Delay::from_seconds(0), Err(TimerError::InvalidDuration));
}

#[test]
fn new_timer_is_fresh() {
    let t = Timer::new(5, TimerMode::Once).unwrap();
    assert_eq!(t.elapsed(), 0);
    assert_eq!(t.duration(), 5);
    assert_eq!(t.mode(), TimerMode::Once);
    assert!(!t.finished());
    assert_eq!(t.remaining(), 5);
    assert_eq!(t.fraction_elapsed(100), 0);
}

#[test]
fn lifetime_runs_once_and_merges_by_max() {
    let l = Lifetime::new(7).unwrap();
    assert_eq!(l.timer.mode(), TimerMode::Once);
    assert_eq!(l.timer.duration(), 7);
    assert_eq!(l.timer.elapsed(), 0);
    assert_eq!(l.mode, TimerMergeMode::Max);
}

#[test]
fn delay_repeats_and_merges_by_fraction() {
    let d = Delay::new(7).unwrap();
    assert_eq!(d.timer.mode(), TimerMode::Repeating);
    assert_eq!(d.timer.duration(), 7);
    assert_eq!(d.timer.elapsed(), 0);
    assert_eq!(d.mode, TimerMergeMode::Fraction);
}

#[test]
fn from_seconds_counts_nanoseconds() {
    let l = Lifetime::from_seconds(3).unwrap();
    assert_eq!(l.timer.duration(), 3_000_000_000);
    let d = Delay::from_seconds(u32::MAX).unwrap();
    assert_eq!(d.timer.duration(), 4_294_967_295_000_000_000);
}

#[test]
fn with_mode_keeps_the_timer() {
    let mut timer = Timer::new(10, TimerMode::Once).unwrap();
    timer.advance(4);
    let l = Lifetime { timer, mode: TimerMergeMode::Max }.with_mode(TimerMergeMode::Inherit);
    assert_eq!(l.timer, timer);
    assert_eq!(l.mode, TimerMergeMode::Inherit);
}

#[test]
fn once_timer_stops_at_its_duration() {
    let mut t = Timer::new(10, TimerMode::Once).unwrap();
    assert_eq!(t.advance(4), 0);
    assert_eq!(t.elapsed(), 4);
    assert_eq!(t.remaining(), 6);
    assert!(!t.finished());
    assert_eq!(t.advance(6), 1);
    assert_eq!(t.elapsed(), 10);
    assert!(t.finished());
    assert_eq!(t.remaining(), 0);
    assert_eq!(t.advance(100), 0);
    assert_eq!(t.elapsed(), 10);
    assert!(t.finished());
}

#[test]
fn once_timer_finishes_after_cumulative_duration() {
    let mut t = Timer::new(3 * SECOND, TimerMode::Once).unwrap();
    for _ in 0..3 {
        assert!(!t.finished());
        t.advance(SECOND);
    }
    assert!(t.finished());
    assert_eq!(t.remaining(), 0);

    let mut big = Timer::new(5, TimerMode::Once).unwrap();
    assert_eq!(big.advance(u64::MAX), 1);
    assert!(big.finished());
    assert_eq!(big.elapsed(), 5);
    assert_eq!(big.remaining(), 0);
}

#[test]
fn repeating_timer_fires_once_per_full_duration() {
    let mut t = Timer::new(2 * SECOND, TimerMode::Repeating).unwrap();
    assert_eq!(t.advance(2 * SECOND), 1);
    assert_eq!(t.elapsed(), 0);
    assert!(!t.finished());
    assert_eq!(t.remaining(), 2 * SECOND);
}

#[test]
fn repeating_timer_wraps_and_keeps_the_rest() {
    let mut t = Timer::new(10, TimerMode::Repeating).unwrap();
    assert_eq!(t.advance(7), 0);
    assert_eq!(t.elapsed(), 7);
    assert_eq!(t.advance(7), 1);
    assert_eq!(t.elapsed(), 4);
    assert_eq!(t.advance(35), 3);
    assert_eq!(t.elapsed(), 9);
    assert_eq!(t.advance(0), 0);
    assert_eq!(t.elapsed(), 9);
    assert!(!t.finished());
}

#[test]
fn repeating_timer_takes_the_longest_step() {
    let mut t = Timer::new(1, TimerMode::Repeating).unwrap();
    assert_eq!(t.advance(u64::MAX), u64::MAX as u128);
    assert_eq!(t.elapsed(), 0);

    let mut full = Timer::new(1, TimerMode::Once).unwrap();
    full.advance(1);
    let carried = Timer::merge(
        Timer::new(1, TimerMode::Repeating).unwrap(),
        &full,
        TimerMergeMode::Fraction,
    );
    assert_eq!(carried.elapsed(), 1);
    let mut carried = carried;
    assert_eq!(carried.advance(u64::MAX), u64::MAX as u128 + 1);
    assert_eq!(carried.elapsed(), 0);
}

#[test]
fn set_elapsed_stops_at_the_duration() {
    let mut t = Timer::new(10, TimerMode::Once).unwrap();
    t.set_elapsed(3);
    assert_eq!(t.elapsed(), 3);
    assert!(!t.finished());
    t.set_elapsed(11);
    assert_eq!(t.elapsed(), 10);
    assert!(t.finished());
    assert_eq!(t.duration(), 10);
    assert_eq!(t.mode(), TimerMode::Once);
}

#[test]
fn fraction_elapsed_rounds_down() {
    let mut t = Timer::new(3, TimerMode::Once).unwrap();
    t.advance(1);
    assert_eq!(t.fraction_elapsed(10), 3);
    assert_eq!(t.fraction_elapsed(3), 1);
    assert_eq!(t.fraction_elapsed(0), 0);
    t.advance(1);
    assert_eq!(t.fraction_elapsed(10), 6);
    t.advance(1);
    assert_eq!(t.fraction_elapsed(10), 10);
    assert_eq!(t.fraction_elapsed(u64::MAX), u64::MAX);

    let mut wide = Timer::new(u64::MAX, TimerMode::Once).unwrap();
    wide.advance(u64::MAX - 1);
    assert_eq!(wide.fraction_elapsed(u64::MAX), u64::MAX - 1);
}

#[test]
fn merge_replace_keeps_the_new_timer() {
    let mut old = Timer::new(3, TimerMode::Repeating).unwrap();
    old.advance(2);
    let mut new = Timer::new(10, TimerMode::Once).unwrap();
    new.advance(4);
    assert_eq!(Timer::merge(new, &old, TimerMergeMode::Replace), new);
}

#[test]
fn merge_inherit_takes_the_old_timer() {
    let mut old = Timer::new(3, TimerMode::Repeating).unwrap();
    old.advance(2);
    let mut new = Timer::new(10, TimerMode::Once).unwrap();
    new.advance(4);
    let merged = Timer::merge(new, &old, TimerMergeMode::Inherit);
    assert_eq!(merged, old);
    assert_eq!(merged.elapsed(), 2);
    assert_eq!(merged.duration(), 3);
    assert_eq!(merged.mode(), TimerMode::Repeating);
}

#[test]
fn merge_fraction_carries_half_over() {
    let mut old = Timer::new(2 * SECOND, TimerMode::Once).unwrap();
    old.advance(SECOND);
    let new = Timer::new(10 * SECOND, TimerMode::Repeating).unwrap();
    let merged = Timer::merge(new, &old, TimerMergeMode::Fraction);
    assert_eq!(merged.elapsed(), 5 * SECOND);
    assert_eq!(merged.duration(), 10 * SECOND);
    assert_eq!(merged.mode(), TimerMode::Repeating);
}

#[test]
fn merge_fraction_of_a_finished_timer_is_finished() {
    let mut old = Timer::new(SECOND, TimerMode::Once).unwrap();
    old.advance(SECOND);
    let new = Timer::new(2 * SECOND, TimerMode::Once).unwrap();
    let merged = Timer::merge(new, &old, TimerMergeMode::Fraction);
    let mut expected = Timer::new(2 * SECOND, TimerMode::Once).unwrap();
    expected.set_elapsed(2 * SECOND);
    assert_eq!(merged, expected);
    assert_eq!(merged.elapsed(), 2 * SECOND);
    assert_eq!(merged.duration(), 2 * SECOND);
    assert_eq!(merged.mode(), TimerMode::Once);
    assert!(merged.finished());
}

#[test]
fn merge_max_keeps_the_longer_remaining() {
    let mut old = Timer::new(3 * SECOND, TimerMode::Repeating).unwrap();
    old.advance(SECOND);
    assert_eq!(old.remaining(), 2 * SECOND);

    let short = Timer::new(SECOND, TimerMode::Once).unwrap();
    assert_eq!(Timer::merge(short, &old, TimerMergeMode::Max), old);

    let long = Timer::new(3 * SECOND, TimerMode::Once).unwrap();
    assert_eq!(Timer::merge(long, &old, TimerMergeMode::Max), long);
}

#[test]
fn merge_max_keeps_the_new_timer_on_a_tie() {
    let mut old = Timer::new(3 * SECOND, TimerMode::Repeating).unwrap();
    old.advance(SECOND);
    let tie = Timer::new(2 * SECOND, TimerMode::Once).unwrap();
    assert_eq!(tie.remaining(), old.remaining());
    assert_eq!(Timer::merge(tie, &old, TimerMergeMode::Max), tie);
}

#[test]
fn merge_uses_the_mode_of_the_new_timer() {
    let old = Delay::from_seconds(1).unwrap().with_mode(TimerMergeMode::Replace);
    let mut new = Delay::from_seconds(5).unwrap().with_mode(TimerMergeMode::Inherit);
    new.merge(&old);
    assert_eq!(new.timer, old.timer);
    assert_eq!(new.mode, TimerMergeMode::Inherit);
}

#[test]
fn merge_outcome_says_what_the_merge_does() {
    let mut old = Timer::new(4, TimerMode::Repeating).unwrap();
    old.advance(1);
    let mut new = Timer::new(10, TimerMode::Once).unwrap();
    new.advance(8);

    assert_eq!(Timer::merge_outcome(&new, &old, TimerMergeMode::Replace), MergeOutcome::KeepNew);
    assert_eq!(Timer::merge_outcome(&new, &old, TimerMergeMode::Inherit), MergeOutcome::TakeOld);
    assert_eq!(
        Timer::merge_outcome(&new, &old, TimerMergeMode::Fraction),
        MergeOutcome::SetElapsed(2)
    );
    assert_eq!(Timer::merge_outcome(&new, &old, TimerMergeMode::Max), MergeOutcome::TakeOld);
    assert_eq!(Timer::merge_outcome(&old, &new, TimerMergeMode::Max), MergeOutcome::KeepNew);

    let mut set = new;
    set.set_elapsed(2);
    assert_eq!(Timer::merge(new, &old, TimerMergeMode::Fraction), set);
}

#[test]
fn effect_timers_decide_by_their_own_mode() {
    let old = Lifetime::from_seconds(3).unwrap().with_mode(TimerMergeMode::Replace);
    let new = Lifetime::from_seconds(1).unwrap();
    assert_eq!(new.merge_outcome(&old), MergeOutcome::TakeOld);
    assert_eq!(old.merge_outcome(&new), MergeOutcome::KeepNew);
    let delay = Delay::from_seconds(1).unwrap();
    assert_eq!(delay.merge_outcome(&delay), MergeOutcome::SetElapsed(0));
}

#[test]
fn clocks_merge_like_the_timers_that_count_the_same() {
    let modes = [
        TimerMergeMode::Replace,
        TimerMergeMode::Inherit,
        TimerMergeMode::Fraction,
        TimerMergeMode::Max,
    ];
    let clocks: [(u64, u64); 5] = [(0, 10), (3, 10), (10, 10), (1, 4), (2, 3)];
    for mode in modes {
        for new in clocks {
            for old in clocks {
                let mut new_timer = Timer::new(new.1, TimerMode::Once).unwrap();
                new_timer.set_elapsed(new.0);
                let mut old_timer = Timer::new(old.1, TimerMode::Repeating).unwrap();
                old_timer.set_elapsed(old.0);
                assert_eq!(
                    merge_clocks(new, old, mode),
                    Timer::merge_outcome(&new_timer, &old_timer, mode)
                );
            }
        }
    }
}

#[test]
fn clocks_merge_whatever_they_count() {
    assert_eq!(merge_clocks((0, 10), (1, 4), TimerMergeMode::Fraction), MergeOutcome::SetElapsed(2));
    assert_eq!(merge_clocks((0, 10), (9, 4), TimerMergeMode::Fraction), MergeOutcome::SetElapsed(10));
    assert_eq!(merge_clocks((0, 10), (0, 0), TimerMergeMode::Fraction), MergeOutcome::SetElapsed(0));
    assert_eq!(merge_clocks((0, 0), (1, 4), TimerMergeMode::Fraction), MergeOutcome::SetElapsed(0));
    assert_eq!(merge_clocks((0, 0), (1, 4), TimerMergeMode::Max), MergeOutcome::TakeOld);
    assert_eq!(merge_clocks((0, 10), (0, 0), TimerMergeMode::Max), MergeOutcome::KeepNew);
    assert_eq!(merge_clocks((0, 0), (0, 0), TimerMergeMode::Max), MergeOutcome::KeepNew);
    assert_eq!(merge_clocks((20, 10), (1, 4), TimerMergeMode::Max), MergeOutcome::TakeOld);
    assert_eq!(merge_clocks((0, 0), (0, 0), TimerMergeMode::Inherit), MergeOutcome::TakeOld);
    assert_eq!(merge_clocks((0, 0), (0, 0), TimerMergeMode::Replace), MergeOutcome::KeepNew);
    assert_eq!(
        merge_clocks((0, u64::MAX), (u64::MAX, u64::MAX), TimerMergeMode::Fraction),
        MergeOutcome::SetElapsed(u64::MAX)
    );
}
