use bevy_status_effects::{Timer, TimerMergeMode, TimerMode};
use bevy_time::Timer as BevyTimer;
use bevy_time::TimerMode as BevyTimerMode;
use std::time::Duration;

fn both(duration: u64, mode: TimerMode) -> (Timer, BevyTimer) {
    let bevy_mode = match mode {
        TimerMode::Once => BevyTimerMode::Once,
        TimerMode::Repeating => BevyTimerMode::Repeating,
    };
    (
        Timer::new(duration, mode).unwrap(),
        BevyTimer::new(Duration::from_nanos(duration), bevy_mode),
    )
}

fn run_side_by_side(duration: u64, mode: TimerMode, deltas: &[u64]) {
    let (mut ours, mut theirs) = both(duration, mode);
    for delta in deltas {
        let fired = ours.advance(*delta);
        theirs.tick(Duration::from_nanos(*delta));
        assert_eq!(ours.elapsed() as u128, theirs.elapsed().as_nanos());
        assert_eq!(ours.duration() as u128, theirs.duration().as_nanos());
        assert_eq!(fired, theirs.times_finished_this_tick() as u128);
        if mode == TimerMode::Once {
            assert_eq!(ours.finished(), theirs.finished());
        }
        assert_eq!(ours.remaining() as u128, theirs.remaining().as_nanos());
    }
}

#[test]
fn a_timer_that_runs_once_ticks_like_bevy() {
    run_side_by_side(10, TimerMode::Once, &[0, 3, 3, 3, 3, 100, 0]);
    run_side_by_side(1_000_000_000, TimerMode::Once, &[250_000_000, 500_000_000, 250_000_000, 1]);
    run_side_by_side(7, TimerMode::Once, &[7]);
    run_side_by_side(7, TimerMode::Once, &[8, 8]);
}

#[test]
fn a_repeating_timer_ticks_like_bevy() {
    run_side_by_side(10, TimerMode::Repeating, &[0, 3, 3, 3, 3, 100, 0, 7, 35]);
    run_side_by_side(2_000_000_000, TimerMode::Repeating, &[750_000_000, 1_500_000_000, 1_000_000_000]);
    run_side_by_side(1_000_000_000, TimerMode::Repeating, &[3_500_000_000, 200_000_000]);
    run_side_by_side(10_000_000, TimerMode::Repeating, &[333_000_000]);
    run_side_by_side(7, TimerMode::Repeating, &[7, 14, 6, 1]);
}

fn bevy_merge(new: &BevyTimer, old: &BevyTimer, mode: TimerMergeMode) -> BevyTimer {
    let mut merged = new.clone();
    match mode {
        TimerMergeMode::Replace => {}
        TimerMergeMode::Inherit => merged = old.clone(),
        TimerMergeMode::Fraction => {
            let fraction = old.fraction();
            let duration = merged.duration().as_secs_f32();
            merged.set_elapsed(Duration::from_secs_f32(fraction * duration))
        }
        TimerMergeMode::Max => {
            if old.remaining_secs() > merged.remaining_secs() {
                merged = old.clone()
            }
        }
    }
    merged
}

fn merge_side_by_side(
    new: (u64, u64, TimerMode),
    old: (u64, u64, TimerMode),
    mode: TimerMergeMode,
) {
    let (mut our_new, mut their_new) = both(new.1, new.2);
    our_new.advance(new.0);
    their_new.tick(Duration::from_nanos(new.0));
    let (mut our_old, mut their_old) = both(old.1, old.2);
    our_old.advance(old.0);
    their_old.tick(Duration::from_nanos(old.0));

    let ours = Timer::merge(our_new, &our_old, mode);
    let theirs = bevy_merge(&their_new, &their_old, mode);

    assert_eq!(ours.elapsed() as u128, theirs.elapsed().as_nanos());
    assert_eq!(ours.duration() as u128, theirs.duration().as_nanos());
    assert_eq!(ours.mode() == TimerMode::Once, theirs.mode() == BevyTimerMode::Once);
}

#[test]
fn timers_merge_like_bevy_timers_where_halves_are_exact() {
    let second = 1_000_000_000;
    let modes = [
        TimerMergeMode::Replace,
        TimerMergeMode::Inherit,
        TimerMergeMode::Fraction,
        TimerMergeMode::Max,
    ];
    for mode in modes {
        merge_side_by_side(
            (0, 10 * second, TimerMode::Repeating),
            (second, 2 * second, TimerMode::Once),
            mode,
        );
        merge_side_by_side(
            (second, 4 * second, TimerMode::Once),
            (second, 2 * second, TimerMode::Once),
            mode,
        );
        merge_side_by_side(
            (0, 2 * second, TimerMode::Once),
            (second, second, TimerMode::Once),
            mode,
        );
        merge_side_by_side(
            (second, 2 * second, TimerMode::Repeating),
            (second, 4 * second, TimerMode::Repeating),
            mode,
        );
        merge_side_by_side(
            (0, 2 * second, TimerMode::Once),
            (0, 3 * second, TimerMode::Repeating),
            mode,
        );
        merge_side_by_side(
            (second, 3 * second, TimerMode::Once),
            (0, 2 * second, TimerMode::Repeating),
            mode,
        );
    }
}
