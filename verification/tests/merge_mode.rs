use bevy_status_effects::{
    AddEffectCommand, AddEffectExt, Delay, EffectBundle, EffectInstance, EffectKind, EffectMode,
    EffectTimer, Entity, Lifetime, Simulation, Timer, TimerMergeMode, TimerMode, NANOS_PER_SECOND,
};

const SECOND: u64 = NANOS_PER_SECOND;

#[derive(Debug, Eq, PartialEq, Default)]
struct Marked(u8);

fn bundle(tag: u8) -> EffectBundle<Marked> {
    EffectBundle::new("MyEffect".to_string(), Marked(tag))
}

fn tags(world: &Simulation<Marked>) -> Vec<u8> {
    world.effects().iter().map(|e| world.get(*e).unwrap().payload.0).collect()
}

fn delays(world: &Simulation<Marked>) -> Vec<Delay> {
    world.effects().iter().filter_map(|e| world.get(*e).unwrap().delay).collect()
}

fn lifetimes(world: &Simulation<Marked>) -> Vec<Lifetime> {
    world.effects().iter().filter_map(|e| world.get(*e).unwrap().lifetime).collect()
}

#[test]
fn merge_mode_stack() {
    let mut world = Simulation::new();

    let target = world.spawn_empty();

    world.add_effect(target, bundle(0));
    world.add_effect(target, bundle(1));

    world.flush();

    let effects = tags(&world);

    assert!(effects.contains(&0));
    assert!(effects.contains(&1));
    assert_eq!(effects.len(), 2);
}

#[test]
fn replace() {
    let mut world = Simulation::new();

    let target = world.spawn_empty();

    world.add_effect(target, bundle(0).with_mode(EffectMode::Replace));
    world.add_effect(target, bundle(1).with_mode(EffectMode::Replace));

    world.flush();

    let effects = tags(&world);

    assert!(!effects.contains(&0));
    assert!(effects.contains(&1));
    assert_eq!(effects.len(), 1);
}

#[test]
fn merge_mode_mixed() {
    let mut world = Simulation::new();

    let target = world.spawn_empty();

    world.add_effect(target, bundle(0));
    world.add_effect(target, bundle(1).with_mode(EffectMode::Stack));

    world.add_effect(target, bundle(2).with_mode(EffectMode::Replace));
    world.add_effect(target, bundle(3).with_mode(EffectMode::Replace));

    world.flush();

    let effects = tags(&world);

    assert!(effects.contains(&0));
    assert!(effects.contains(&1));
    assert!(!effects.contains(&2));
    assert!(effects.contains(&3));
    assert_eq!(effects.len(), 3);
}

#[test]
fn timer_merge_replace() {
    let mut world = Simulation::new();

    let target = world.spawn_empty();
    let second_lifetime = Lifetime::from_seconds(2).unwrap().with_mode(TimerMergeMode::Replace);
    world.add_effect(
        target,
        bundle(0)
            .with_mode(EffectMode::Merge)
            .with_lifetime(Lifetime::from_seconds(1).unwrap().with_mode(TimerMergeMode::Replace)),
    );
    world.add_effect(
        target,
        bundle(1).with_mode(EffectMode::Merge).with_lifetime(second_lifetime.clone()),
    );

    world.flush();

    assert_eq!(lifetimes(&world), vec![second_lifetime]);
}

#[test]
fn timer_merge_inherit() {
    let mut world = Simulation::new();

    let target = world.spawn_empty();
    let first_delay = Delay::from_seconds(1).unwrap().with_mode(TimerMergeMode::Inherit);
    world.add_effect(target, bundle(0).with_mode(EffectMode::Merge).with_delay(first_delay.clone()));
    world.add_effect(
        target,
        bundle(1)
            .with_mode(EffectMode::Merge)
            .with_delay(Delay::from_seconds(2).unwrap().with_mode(TimerMergeMode::Inherit)),
    );

    world.flush();

    assert_eq!(delays(&world), vec![first_delay]);
}

#[test]
fn timer_merge_fraction() {
    let mut world = Simulation::new();

    let target = world.spawn_empty();
    let mut first_timer = Timer::new(2 * SECOND, TimerMode::Once).unwrap();
    first_timer.advance(SECOND);

    world.add_effect(
        target,
        bundle(0)
            .with_mode(EffectMode::Merge)
            .with_delay(Delay { timer: first_timer, mode: TimerMergeMode::Fraction }),
    );
    world.add_effect(
        target,
        bundle(1)
            .with_mode(EffectMode::Merge)
            .with_delay(Delay::from_seconds(10).unwrap().with_mode(TimerMergeMode::Fraction)),
    );

    world.flush();

    let mut expected_timer = Timer::new(10 * SECOND, TimerMode::Repeating).unwrap();
    expected_timer.advance(5 * SECOND);

    assert_eq!(
        delays(&world),
        vec![Delay { timer: expected_timer, mode: TimerMergeMode::Fraction }]
    );
}

#[test]
fn timer_merge_max() {
    let mut world = Simulation::new();

    let target = world.spawn_empty();
    let max = Delay::from_seconds(3).unwrap().with_mode(TimerMergeMode::Max);

    world.add_effect(
        target,
        bundle(0)
            .with_mode(EffectMode::Merge)
            .with_delay(Delay::from_seconds(1).unwrap().with_mode(TimerMergeMode::Max)),
    );
    world.add_effect(target, bundle(1).with_mode(EffectMode::Merge).with_delay(max.clone()));
    world.add_effect(
        target,
        bundle(2)
            .with_mode(EffectMode::Merge)
            .with_delay(Delay::from_seconds(2).unwrap().with_mode(TimerMergeMode::Max)),
    );

    world.flush();

    assert_eq!(delays(&world), vec![max]);
}

#[test]
fn merge_of_a_run_out_lifetime_by_fraction_is_run_out_at_once() {
    let mut world = Simulation::new();
    let target = world.spawn_empty();

    world.add_effect(
        target,
        bundle(0)
            .with_mode(EffectMode::Merge)
            .with_lifetime(Lifetime::from_seconds(1).unwrap().with_mode(TimerMergeMode::Replace)),
    );
    world.flush();
    let first = world.effects()[0];
    assert!(world.advance_lifetime(first, SECOND));

    world.add_effect(
        target,
        bundle(1)
            .with_mode(EffectMode::Merge)
            .with_lifetime(Lifetime::from_seconds(2).unwrap().with_mode(TimerMergeMode::Fraction)),
    );
    world.flush();

    assert_eq!(world.effects(), vec![first]);
    let timer = world.get(first).unwrap().lifetime.unwrap().timer;
    assert_eq!(timer.elapsed(), 2 * SECOND);
    assert_eq!(timer.duration(), 2 * SECOND);
    assert_eq!(timer.mode(), TimerMode::Once);
    assert!(timer.finished());
    let mut expected = Timer::new(2 * SECOND, TimerMode::Once).unwrap();
    expected.set_elapsed(2 * SECOND);
    assert_eq!(timer, expected);
}

#[test]
fn a_collision_keeps_the_identity_of_the_old_effect() {
    let mut world = Simulation::new();
    let target = world.spawn_empty();

    world.add_effect(target, bundle(0).with_mode(EffectMode::Replace));
    world.flush();
    let first = world.effects()[0];

    world.add_effect(target, bundle(1).with_mode(EffectMode::Replace));
    world.flush();

    assert_eq!(world.effects(), vec![first]);
    let effect = world.get(first).unwrap();
    assert_eq!(effect.payload, Marked(1));
    assert_eq!(effect.target.0, target);
    assert_eq!(effect.kind, EffectKind::Name("MyEffect".to_string()));
    assert_eq!(effect.mode, EffectMode::Replace);
    assert_eq!(world.effected_by(target).unwrap().collection(), &vec![first]);
}

#[test]
fn replace_mode_keeps_a_timer_that_the_new_effect_does_not_bring() {
    let mut world = Simulation::new();
    let target = world.spawn_empty();
    let lifetime = Lifetime::from_seconds(4).unwrap();
    let old_delay = Delay::from_seconds(1).unwrap().with_mode(TimerMergeMode::Inherit);
    let new_delay = Delay::from_seconds(2).unwrap().with_mode(TimerMergeMode::Inherit);

    world.add_effect(
        target,
        bundle(0).with_mode(EffectMode::Replace).with_lifetime(lifetime).with_delay(old_delay),
    );
    world.add_effect(target, bundle(1).with_mode(EffectMode::Replace).with_delay(new_delay));
    world.flush();

    assert_eq!(tags(&world), vec![1]);
    assert_eq!(lifetimes(&world), vec![lifetime]);
    assert_eq!(delays(&world), vec![new_delay]);
}

#[test]
fn merge_mode_keeps_a_timer_that_the_new_effect_does_not_bring() {
    let mut world = Simulation::new();
    let target = world.spawn_empty();
    let lifetime = Lifetime::from_seconds(4).unwrap();

    world.add_effect(target, bundle(0).with_mode(EffectMode::Merge).with_lifetime(lifetime));
    world.add_effect(target, bundle(1).with_mode(EffectMode::Merge));
    world.flush();

    assert_eq!(tags(&world), vec![1]);
    assert_eq!(lifetimes(&world), vec![lifetime]);
}

#[test]
fn effects_under_other_names_do_not_meet() {
    let mut world = Simulation::new();
    let target = world.spawn_empty();

    world.add_effect(target, bundle(0).with_mode(EffectMode::Replace));
    world.add_effect(
        target,
        EffectBundle::new("Other".to_string(), Marked(1)).with_mode(EffectMode::Replace),
    );
    world.flush();

    assert_eq!(tags(&world), vec![0, 1]);
}

#[test]
fn effects_of_other_modes_do_not_meet() {
    let mut world = Simulation::new();
    let target = world.spawn_empty();

    world.add_effect(target, bundle(0).with_mode(EffectMode::Replace));
    world.add_effect(target, bundle(1).with_mode(EffectMode::Merge));
    world.add_effect(target, bundle(2).with_mode(EffectMode::Stack));
    world.add_effect(target, bundle(3).with_mode(EffectMode::Merge));
    world.add_effect(target, bundle(4).with_mode(EffectMode::Replace));
    world.flush();

    assert_eq!(tags(&world), vec![4, 3, 2]);
}

#[test]
fn a_named_effect_does_not_meet_an_effect_of_a_kind() {
    let mut world = Simulation::new();
    let target = world.spawn_empty();
    let spawned = world.spawn(
        EffectInstance::new(EffectKind::Type(7), target, Marked(9)).with_mode(EffectMode::Replace),
    );

    world.add_effect(target, bundle(0).with_mode(EffectMode::Replace));
    world.flush();

    assert_eq!(tags(&world), vec![9, 0]);
    assert!(world.contains(spawned));
}

#[test]
fn an_effect_applied_to_a_missing_target_stands_alone() {
    let mut world = Simulation::new();
    let target = world.spawn_empty();

    world.add_effect(target, bundle(0).with_mode(EffectMode::Replace));
    world.add_effect(target, bundle(1).with_mode(EffectMode::Replace));
    assert!(world.despawn(target));
    world.flush();

    assert_eq!(tags(&world), vec![0, 1]);
    let first = world.effects()[0];
    assert_eq!(world.get(first).unwrap().target.0, target);
    assert!(!world.contains(target));
}

#[test]
fn nothing_is_applied_before_the_flush() {
    let mut world = Simulation::new();
    let target = world.spawn_empty();

    world.add_effect(target, bundle(0));
    world.add_effect(target, bundle(1));

    assert_eq!(world.pending(), 2);
    assert!(world.effects().is_empty());
    assert!(world.effected_by(target).unwrap().is_empty());

    world.flush();

    assert_eq!(world.pending(), 0);
    assert_eq!(tags(&world), vec![0, 1]);
    assert_eq!(world.effected_by(target).unwrap().len(), 2);

    world.flush();
    assert_eq!(tags(&world), vec![0, 1]);
}

#[test]
fn a_command_can_be_applied_at_once() {
    let mut world = Simulation::new();
    let target = world.spawn_empty();

    AddEffectCommand { target, bundle: bundle(0).with_mode(EffectMode::Replace) }.apply(&mut world);
    AddEffectCommand { target, bundle: bundle(1).with_mode(EffectMode::Replace) }.apply(&mut world);

    assert_eq!(tags(&world), vec![1]);
    assert_eq!(world.pending(), 0);
}

#[test]
fn a_default_bundle_stacks_without_timers() {
    let b: EffectBundle<Marked> = EffectBundle::default();
    assert_eq!(b.name, "");
    assert_eq!(b.mode, EffectMode::Stack);
    assert_eq!(b.lifetime, None);
    assert_eq!(b.delay, None);
    assert_eq!(b.bundle, Marked(0));
    assert_eq!(EffectMode::default(), EffectMode::Stack);
}

#[test]
fn into_instance_keeps_everything() {
    let lifetime = Lifetime::from_seconds(4).unwrap();
    let delay = Delay::from_seconds(1).unwrap();
    let command = AddEffectCommand {
        target: Entity(3),
        bundle: bundle(5).with_mode(EffectMode::Merge).with_lifetime(lifetime).with_delay(delay),
    };
    let instance = command.into_instance();
    assert_eq!(instance.target.0, Entity(3));
    assert_eq!(instance.kind, EffectKind::Name("MyEffect".to_string()));
    assert_eq!(instance.mode, EffectMode::Merge);
    assert_eq!(instance.lifetime, Some(lifetime));
    assert_eq!(instance.delay, Some(delay));
    assert_eq!(instance.payload, Marked(5));
}

#[test]
fn an_effect_applied_to_an_identity_meets_the_next_one_once_the_target_is_there() {
    let mut world = Simulation::new();
    let ahead = Entity(1);

    world.add_effect(ahead, bundle(0).with_mode(EffectMode::Replace));
    world.flush();
    assert_eq!(tags(&world), vec![0]);

    let target = world.spawn_empty();
    assert_eq!(target, ahead);
    assert_eq!(world.effected_by(target).unwrap().len(), 1);

    world.add_effect(target, bundle(1).with_mode(EffectMode::Replace));
    world.flush();

    assert_eq!(tags(&world), vec![1]);
    assert_eq!(world.effected_by(target).unwrap().len(), 1);

    assert!(world.despawn(target));
    assert!(world.effects().is_empty());
}

#[test]
fn add_effect_hands_the_receiver_back() {
    let mut world = Simulation::new();
    let target = world.spawn_empty();

    world
        .add_effect(target, bundle(0).with_mode(EffectMode::Replace))
        .add_effect(target, bundle(1))
        .add_effect(target, bundle(2).with_mode(EffectMode::Replace))
        .flush();

    assert_eq!(tags(&world), vec![2, 1]);
}
