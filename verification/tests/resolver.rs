use bevy_status_effects::{
    find_match, reconcile, reconcile_clocks, reconcile_outcome, resolve, scans, Candidate, Delay,
    EffectKind, EffectMode, EffectTimer, Lifetime, MergeOutcome, Resolution, Timer,
    TimerMergeMode, TimerMode,
};

fn named(mode: EffectMode, name: &str) -> Candidate {
    Candidate { mode, kind: EffectKind::Name(name.to_string()) }
}

fn typed(mode: EffectMode, tag: u64) -> Candidate {
    Candidate { mode, kind: EffectKind::Type(tag) }
}

#[test]
fn kinds_match_by_tag_or_by_name() {
    assert!(EffectKind::Type(1).matches(&EffectKind::Type(1)));
    assert!(!EffectKind::Type(1).matches(&EffectKind::Type(2)));
    assert!(EffectKind::Name("a".to_string()).matches(&EffectKind::Name("a".to_string())));
    assert!(!EffectKind::Name("a".to_string()).matches(&EffectKind::Name("b".to_string())));
    assert!(!EffectKind::Name("1".to_string()).matches(&EffectKind::Type(1)));
    assert!(!EffectKind::Type(1).matches(&EffectKind::Name("1".to_string())));
    assert!(EffectKind::Name(String::new()).matches(&EffectKind::Name(String::new())));
}

#[test]
fn a_cloned_kind_is_the_same_kind() {
    let kind = EffectKind::Name("poison".to_string());
    assert_eq!(kind.clone(), kind);
    let tag = EffectKind::Type(9);
    assert_eq!(tag.clone(), tag);
    let candidate = named(EffectMode::Merge, "poison");
    assert_eq!(candidate.clone(), candidate);
}

#[test]
fn find_match_finds_the_first_of_that_mode_and_kind() {
    let candidates = vec![
        named(EffectMode::Stack, "poison"),
        named(EffectMode::Replace, "burn"),
        typed(EffectMode::Replace, 1),
        named(EffectMode::Replace, "poison"),
        named(EffectMode::Merge, "poison"),
        named(EffectMode::Replace, "poison"),
    ];
    let poison = EffectKind::Name("poison".to_string());
    assert_eq!(find_match(&candidates, EffectMode::Replace, &poison), Some(3));
    assert_eq!(find_match(&candidates, EffectMode::Merge, &poison), Some(4));
    assert_eq!(find_match(&candidates, EffectMode::Stack, &poison), Some(0));
    assert_eq!(find_match(&candidates, EffectMode::Replace, &EffectKind::Type(1)), Some(2));
    assert_eq!(find_match(&candidates, EffectMode::Merge, &EffectKind::Type(1)), None);
    assert_eq!(
        find_match(&candidates, EffectMode::Replace, &EffectKind::Name("frost".to_string())),
        None
    );
    assert_eq!(find_match(&Vec::new(), EffectMode::Replace, &poison), None);
}

#[test]
fn a_stacking_effect_always_stands_alone() {
    let candidates = vec![named(EffectMode::Stack, "poison")];
    let poison = EffectKind::Name("poison".to_string());
    assert_eq!(resolve(EffectMode::Stack, &poison, Some(&candidates)), Resolution::StandAlone);
    assert_eq!(resolve(EffectMode::Stack, &poison, None), Resolution::StandAlone);
}

#[test]
fn an_effect_on_a_target_without_effects_stands_alone() {
    let poison = EffectKind::Name("poison".to_string());
    assert_eq!(resolve(EffectMode::Replace, &poison, None), Resolution::StandAlone);
    assert_eq!(resolve(EffectMode::Merge, &poison, None), Resolution::StandAlone);
    assert_eq!(resolve(EffectMode::Replace, &poison, Some(&Vec::new())), Resolution::StandAlone);
}

#[test]
fn an_effect_collides_with_the_first_match() {
    let candidates = vec![
        named(EffectMode::Stack, "poison"),
        named(EffectMode::Merge, "poison"),
        named(EffectMode::Replace, "poison"),
        named(EffectMode::Replace, "poison"),
    ];
    let poison = EffectKind::Name("poison".to_string());
    assert_eq!(resolve(EffectMode::Replace, &poison, Some(&candidates)), Resolution::Collide(2));
    assert_eq!(resolve(EffectMode::Merge, &poison, Some(&candidates)), Resolution::Collide(1));
    assert_eq!(
        resolve(EffectMode::Merge, &EffectKind::Type(4), Some(&candidates)),
        Resolution::StandAlone
    );
}

#[test]
fn reconcile_merges_in_merge_mode_only() {
    let old = Lifetime::from_seconds(1).unwrap();
    let new = Lifetime::from_seconds(2).unwrap().with_mode(TimerMergeMode::Inherit);
    let inherited = Lifetime { timer: old.timer, mode: TimerMergeMode::Inherit };

    assert_eq!(reconcile(EffectMode::Merge, Some(new), Some(&old)), Some(inherited));
    assert_eq!(reconcile(EffectMode::Replace, Some(new), Some(&old)), Some(new));
    assert_eq!(reconcile(EffectMode::Stack, Some(new), Some(&old)), Some(new));
}

#[test]
fn reconcile_needs_both_timers() {
    let old = Delay::from_seconds(1).unwrap();
    let new = Delay::from_seconds(2).unwrap().with_mode(TimerMergeMode::Inherit);

    assert_eq!(reconcile(EffectMode::Merge, Some(new), None), Some(new));
    assert_eq!(reconcile(EffectMode::Merge, None, Some(&old)), None);
    assert_eq!(reconcile::<Delay>(EffectMode::Merge, None, None), None);
}

#[test]
fn reconcile_carries_progress_over() {
    let mut old_timer = Timer::new(4, TimerMode::Repeating).unwrap();
    old_timer.advance(3);
    let old = Delay { timer: old_timer, mode: TimerMergeMode::Max };
    let new = Delay::new(100).unwrap();
    let merged = reconcile(EffectMode::Merge, Some(new), Some(&old)).unwrap();
    assert_eq!(merged.timer.elapsed(), 75);
    assert_eq!(merged.timer.duration(), 100);
    assert_eq!(merged.mode, TimerMergeMode::Fraction);
}

#[test]
fn reconcile_outcome_keeps_the_new_timer_unless_both_merge() {
    let mut old_timer = Timer::new(4, TimerMode::Repeating).unwrap();
    old_timer.advance(3);
    let old = Delay { timer: old_timer, mode: TimerMergeMode::Max };
    let new = Delay::new(100).unwrap();

    assert_eq!(
        reconcile_outcome(EffectMode::Merge, Some(&new), Some(&old)),
        MergeOutcome::SetElapsed(75)
    );
    assert_eq!(
        reconcile_outcome(EffectMode::Replace, Some(&new), Some(&old)),
        MergeOutcome::KeepNew
    );
    assert_eq!(reconcile_outcome(EffectMode::Stack, Some(&new), Some(&old)), MergeOutcome::KeepNew);
    assert_eq!(reconcile_outcome(EffectMode::Merge, Some(&new), None), MergeOutcome::KeepNew);
    assert_eq!(reconcile_outcome(EffectMode::Merge, None, Some(&old)), MergeOutcome::KeepNew);
    assert_eq!(
        reconcile_outcome(
            EffectMode::Merge,
            Some(&new.with_mode(TimerMergeMode::Inherit)),
            Some(&old)
        ),
        MergeOutcome::TakeOld
    );
}

#[test]
fn reconcile_clocks_keeps_the_new_timer_unless_both_merge() {
    let fraction = TimerMergeMode::Fraction;
    assert_eq!(
        reconcile_clocks(EffectMode::Merge, fraction, (0, 100), Some((3, 4))),
        MergeOutcome::SetElapsed(75)
    );
    assert_eq!(
        reconcile_clocks(EffectMode::Replace, fraction, (0, 100), Some((3, 4))),
        MergeOutcome::KeepNew
    );
    assert_eq!(
        reconcile_clocks(EffectMode::Stack, fraction, (0, 100), Some((3, 4))),
        MergeOutcome::KeepNew
    );
    assert_eq!(reconcile_clocks(EffectMode::Merge, fraction, (0, 100), None), MergeOutcome::KeepNew);
    assert_eq!(
        reconcile_clocks(EffectMode::Merge, TimerMergeMode::Inherit, (0, 100), Some((3, 4))),
        MergeOutcome::TakeOld
    );
    assert_eq!(
        reconcile_clocks(EffectMode::Merge, fraction, (0, 100), Some((0, 0))),
        MergeOutcome::SetElapsed(0)
    );
}

#[test]
fn only_a_stacking_effect_is_not_resolved() {
    assert!(!scans(EffectMode::Stack));
    assert!(scans(EffectMode::Replace));
    assert!(scans(EffectMode::Merge));
}
