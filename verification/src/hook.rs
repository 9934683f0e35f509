//! Resolving an effect against the effects of its own kind when it is spawned.

use crate::effect::{EffectInstance, EffectInstanceView};
use crate::model::SimulationView;
use crate::relation::Entity;
use crate::resolver::{reconcile, reconciled, EffectKind, EffectKindView};
use crate::seq_lemmas::lemma_pushed_then_removed;
use crate::simulation::Simulation;
use crate::EffectMode;
use vstd::prelude::*;

verus! {

impl<B> EffectInstanceView<B> {
    /// The effect with its timers reconciled with those of the effect `old` that it
    /// collided with.
    pub open spec fn reconciled_with(self, old: EffectInstanceView<B>) -> EffectInstanceView<B> {
        EffectInstanceView {
            lifetime: reconciled(self.mode, self.lifetime, old.lifetime),
            delay: reconciled(self.mode, self.delay, old.delay),
            ..self
        }
    }
}

impl<B> SimulationView<B> {
    /// Whether effects of this kind are resolved when they are spawned.
    pub open spec fn hooked(self, kind: EffectKindView) -> bool {
        kind matches EffectKindView::Type(tag) && self.hooks.contains(tag)
    }

    /// The effect that a spawned effect collides with.
    pub open spec fn hook_collision(self, effect: EffectInstanceView<B>) -> Option<Entity> {
        if self.hooked(effect.kind) {
            self.collision(effect.target, effect.mode, effect.kind)
        } else {
            None
        }
    }

    /// The simulation after an effect was spawned.
    ///
    /// An effect of a kind that is not resolved, a stacking effect, an effect on a target
    /// that is gone and an effect that meets no effect of its own mode and kind stand as
    /// they are. Any other effect destroys the first effect of its own mode and kind and
    /// stands in its place, under a new identity, with its timers reconciled.
    pub open spec fn spawn(self, effect: EffectInstanceView<B>) -> SimulationView<B> {
        match self.hook_collision(effect) {
            Some(old) => self.despawn(old).insert(effect.reconciled_with(self.effect(old))),
            None => self.insert(effect),
        }
    }
}

/// Spawning an effect leaves the index and the effects in agreement.
pub proof fn lemma_spawn_wf<B>(w: SimulationView<B>, effect: EffectInstanceView<B>)
    requires
        w.wf(),
        w.slots.len() < usize::MAX,
    ensures
        w.spawn(effect).wf(),
        w.spawn(effect).slots.len() == w.slots.len() + 1,
        w.spawn(effect).is_effect(w.next_entity()),
{
    match w.hook_collision(effect) {
        Some(old) => {
            w.lemma_despawn_wf(old);
            w.despawn(old).lemma_insert_wf(effect.reconciled_with(w.effect(old)));
        },
        None => {
            w.lemma_insert_wf(effect);
        },
    }
}

/// An effect that is spawned touches no effect but one of its own mode and kind on its
/// own target: effects of another mode or kind stay as they are.
pub proof fn lemma_spawn_touches_only_match<B>(w: SimulationView<B>, effect: EffectInstanceView<B>)
    requires
        w.wf(),
        w.slots.len() < usize::MAX,
    ensures
        forall|e: Entity|
            #[trigger] w.is_effect(e) && !(w.effect(e).target == effect.target && w.effect(
                e,
            ).candidate().is_match(effect.mode, effect.kind)) ==> w.spawn(effect).is_effect(e)
                && w.spawn(effect).effect(e) == w.effect(e),
        forall|t: Entity| #[trigger] w.is_target(t) <==> w.spawn(effect).is_target(t),
{
    match w.hook_collision(effect) {
        Some(old) => {
            w.lemma_collision(effect.target, effect.mode, effect.kind);
            w.lemma_without_effect_wf(old);
            w.lemma_without_effect_frame(old);
            let freed = w.despawn(old);
            let ready = effect.reconciled_with(w.effect(old));
            freed.lemma_insert_frame(ready);
            assert forall|e: Entity|
                #[trigger] w.is_effect(e) && !(w.effect(e).target == effect.target && w.effect(
                    e,
                ).candidate().is_match(effect.mode, effect.kind)) implies w.spawn(effect).is_effect(
                e,
            ) && w.spawn(effect).effect(e) == w.effect(e) by {
                assert(freed.is_effect(e));
            }
            assert forall|t: Entity| #[trigger] w.is_target(t) <==> w.spawn(effect).is_target(
                t,
            ) by {
                assert(freed.is_target(t) == w.is_target(t));
            }
        },
        None => {
            w.lemma_insert_frame(effect);
        },
    }
}

/// An effect that is spawned and meets no other stands as it is, beside whatever is there:
/// so does every stacking effect, and every effect of a kind that is not resolved.
pub proof fn lemma_spawn_alone<B>(w: SimulationView<B>, effect: EffectInstanceView<B>)
    requires
        w.wf(),
        w.slots.len() < usize::MAX,
        effect.mode == EffectMode::Stack || !w.hooked(effect.kind) || w.collision(
            effect.target,
            effect.mode,
            effect.kind,
        ) is None,
    ensures
        w.spawn(effect) == w.insert(effect),
        w.spawn(effect).wf(),
        w.spawn(effect).slots.len() == w.slots.len() + 1,
        w.spawn(effect).is_effect(w.next_entity()),
        w.spawn(effect).effect(w.next_entity()) == effect,
        forall|e: Entity|
            #[trigger] w.is_effect(e) ==> w.spawn(effect).is_effect(e) && w.spawn(effect).effect(e)
                == w.effect(e),
{
    w.lemma_insert_wf(effect);
    w.lemma_insert_frame(effect);
}

/// Two stacking effects that are spawned, of whatever kind and on whatever targets, are
/// both alive afterwards as they were spawned, and every effect that was there is as it
/// was.
pub proof fn lemma_spawn_stack_twice<B>(
    w: SimulationView<B>,
    first: EffectInstanceView<B>,
    second: EffectInstanceView<B>,
)
    requires
        w.wf(),
        w.slots.len() + 2 <= usize::MAX,
        first.mode == EffectMode::Stack,
        second.mode == EffectMode::Stack,
    ensures
        ({
            let both = w.spawn(first).spawn(second);
            let a = Entity(w.slots.len() as usize);
            let b = Entity((w.slots.len() + 1) as usize);
            &&& both.wf()
            &&& both.slots.len() == w.slots.len() + 2
            &&& both.is_effect(a)
            &&& both.effect(a) == first
            &&& both.is_effect(b)
            &&& both.effect(b) == second
            &&& forall|e: Entity|
                #[trigger] w.is_effect(e) ==> both.is_effect(e) && both.effect(e) == w.effect(e)
        }),
{
    let once = w.spawn(first);
    lemma_spawn_alone(w, first);
    lemma_spawn_alone(once, second);
    let both = once.spawn(second);
    assert forall|e: Entity| #[trigger] w.is_effect(e) implies both.is_effect(e) && both.effect(e)
        == w.effect(e) by {
        assert(once.is_effect(e));
    }
}

/// An effect of a resolved kind that is spawned where an effect of its own mode and kind
/// is on its target destroys the first such effect and stands in its place as the newest
/// effect, under a new identity. In `Replace` mode it stands as it was spawned.
pub proof fn lemma_spawn_collision<B>(
    w: SimulationView<B>,
    effect: EffectInstanceView<B>,
    old: Entity,
)
    requires
        w.wf(),
        w.slots.len() < usize::MAX,
        w.hooked(effect.kind),
        w.collision(effect.target, effect.mode, effect.kind) == Some(old),
    ensures
        w.spawn(effect).wf(),
        w.spawn(effect).slots.len() == w.slots.len() + 1,
        !w.spawn(effect).contains(old),
        w.spawn(effect).is_effect(w.next_entity()),
        w.spawn(effect).effect(w.next_entity()) == effect.reconciled_with(w.effect(old)),
        effect.mode == EffectMode::Replace ==> w.spawn(effect).effect(w.next_entity()) == effect,
        w.spawn(effect).effect(w.next_entity()).payload == effect.payload,
        forall|e: Entity| #[trigger]
            w.spawn(effect).is_effect(e) <==> (w.is_effect(e) && e != old) || e == w.next_entity(),
        forall|e: Entity|
            #[trigger] w.is_effect(e) && e != old ==> w.spawn(effect).effect(e) == w.effect(e),
        w.spawn(effect).is_target(effect.target),
        w.spawn(effect).effected_by(effect.target) == w.effected_by(effect.target).remove_value(
            old,
        ).push(w.next_entity()),
{
    w.lemma_collision(effect.target, effect.mode, effect.kind);
    w.lemma_without_effect_wf(old);
    w.lemma_without_effect_frame(old);
    let freed = w.despawn(old);
    let ready = effect.reconciled_with(w.effect(old));
    freed.lemma_insert_wf(ready);
    freed.lemma_insert_frame(ready);
    assert(freed.next_entity() == w.next_entity());
    assert(freed.is_target(effect.target));
    let after = w.spawn(effect);
    assert forall|e: Entity| #[trigger]
        after.is_effect(e) <==> (w.is_effect(e) && e != old) || e == w.next_entity() by {
        assert(freed.is_effect(e) <==> w.is_effect(e) && e != old);
    }
    assert forall|e: Entity| #[trigger] w.is_effect(e) && e != old implies after.effect(e)
        == w.effect(e) by {
        assert(freed.is_effect(e));
    }
}

/// An effect that is spawned on a living target is on the list of that target afterwards,
/// and it is destroyed with the target: after the target is destroyed no living effect
/// names it.
pub proof fn lemma_spawned_then_destroyed<B>(w: SimulationView<B>, effect: EffectInstanceView<B>)
    requires
        w.wf(),
        w.slots.len() < usize::MAX,
        w.is_target(effect.target),
    ensures
        ({
            let spawned = w.spawn(effect);
            let e = w.next_entity();
            &&& spawned.is_target(effect.target)
            &&& spawned.is_effect(e)
            &&& spawned.effect(e).target == effect.target
            &&& spawned.effected_by(effect.target).contains(e)
            &&& !spawned.despawn(effect.target).contains(e)
            &&& forall|x: Entity| #[trigger]
                spawned.despawn(effect.target).is_effect(x) ==> spawned.despawn(
                    effect.target,
                ).effect(x).target != effect.target
        }),
{
    let spawned = w.spawn(effect);
    lemma_spawn_wf(w, effect);
    lemma_spawn_touches_only_match(w, effect);
    match w.hook_collision(effect) {
        Some(old) => {
            lemma_spawn_collision(w, effect, old);
        },
        None => {
            w.lemma_insert_frame(effect);
        },
    }
    spawned.lemma_index_agrees(effect.target);
    spawned.lemma_cascade(effect.target);
}

/// An effect of a resolved kind that is spawned in `Merge` mode and collides has each of
/// its timers merged with the same timer of the old effect, by the timer's own merge mode.
/// A timer that the old effect lacks stands as it is, and the new effect gains no timer.
pub proof fn lemma_spawn_merge<B>(w: SimulationView<B>, effect: EffectInstanceView<B>, old: Entity)
    requires
        w.wf(),
        w.slots.len() < usize::MAX,
        w.hooked(effect.kind),
        effect.mode == EffectMode::Merge,
        w.collision(effect.target, effect.mode, effect.kind) == Some(old),
    ensures
        w.spawn(effect).effect(w.next_entity()).lifetime == (match (
            effect.lifetime,
            w.effect(old).lifetime,
        ) {
            (Some(new), Some(before)) => Some(new.merge(before)),
            (Some(new), None) => Some(new),
            (None, _) => None,
        }),
        w.spawn(effect).effect(w.next_entity()).delay == (match (effect.delay, w.effect(old).delay) {
            (Some(new), Some(before)) => Some(new.merge(before)),
            (Some(new), None) => Some(new),
            (None, _) => None,
        }),
{
    lemma_spawn_collision(w, effect, old);
}

/// Two effects of one resolved kind that are spawned in `Replace` mode on one living
/// target, which carried no such effect before, leave exactly one effect of that mode and
/// kind listed on the target: the second, as it was spawned. The first is gone.
pub proof fn lemma_spawn_replace_twice<B>(
    w: SimulationView<B>,
    first: EffectInstanceView<B>,
    second: EffectInstanceView<B>,
)
    requires
        w.wf(),
        w.slots.len() + 2 <= usize::MAX,
        w.is_target(first.target),
        w.hooked(first.kind),
        second.target == first.target,
        second.kind == first.kind,
        first.mode == EffectMode::Replace,
        second.mode == EffectMode::Replace,
        w.collision(first.target, EffectMode::Replace, first.kind) is None,
    ensures
        ({
            let target = first.target;
            let both = w.spawn(first).spawn(second);
            let a = Entity(w.slots.len() as usize);
            let b = Entity((w.slots.len() + 1) as usize);
            &&& both.wf()
            &&& !both.contains(a)
            &&& both.is_effect(b)
            &&& both.effect(b) == second
            &&& both.effected_by(target) == w.effected_by(target).push(b)
            &&& forall|e: Entity| #[trigger] both.is_effect(e) <==> w.is_effect(e) || e == b
            &&& forall|e: Entity| #[trigger] w.is_effect(e) ==> both.effect(e) == w.effect(e)
            &&& forall|k: int|
                0 <= k < both.effected_by(target).len() && both.effect(
                    #[trigger] both.effected_by(target)[k],
                ).candidate().is_match(EffectMode::Replace, first.kind) ==> both.effected_by(
                    target,
                )[k] == b
        }),
{
    let target = first.target;
    let kind = first.kind;
    let mode = EffectMode::Replace;
    let a = Entity(w.slots.len() as usize);
    let b = Entity((w.slots.len() + 1) as usize);
    let once = w.spawn(first);
    lemma_spawn_alone(w, first);
    w.lemma_insert_frame(first);
    w.lemma_insert_collision(first, target, mode, kind);
    assert(once.collision(target, mode, kind) == Some(a));
    assert(once.hooks == w.hooks);
    lemma_spawn_collision(once, second, a);
    let both = once.spawn(second);
    let list = w.effected_by(target);
    assert(w.index_sound(target));
    lemma_pushed_then_removed(list, a);
    assert(both.effected_by(target) == list.push(b));
    assert forall|e: Entity| #[trigger] both.is_effect(e) <==> w.is_effect(e) || e == b by {
        assert(once.is_effect(e) <==> w.is_effect(e) || e == a);
    }
    assert forall|e: Entity| #[trigger] w.is_effect(e) implies both.effect(e) == w.effect(e) by {
        assert(once.is_effect(e));
    }
    assert forall|k: int|
        0 <= k < both.effected_by(target).len() && both.effect(
            #[trigger] both.effected_by(target)[k],
        ).candidate().is_match(mode, kind) implies both.effected_by(target)[k] == b by {
        if k < list.len() {
            let e = list[k];
            assert(list.contains(e));
            w.lemma_listed_on_own_target(target, e);
            w.lemma_collision(target, mode, kind);
            assert(both.effect(e) == w.effect(e));
        }
    }
}

/// Effects of different modes do not meet: where two stacking effects and then two
/// effects in `Replace` mode are spawned, all of one resolved kind and on one living
/// target that carried no effect of that kind in `Replace` mode before, the two stacking
/// effects and the second effect in `Replace` mode are alive afterwards, as they were
/// spawned, and the first effect in `Replace` mode is gone.
pub proof fn lemma_spawn_mixed_modes<B>(
    w: SimulationView<B>,
    stack_1: EffectInstanceView<B>,
    stack_2: EffectInstanceView<B>,
    replace_1: EffectInstanceView<B>,
    replace_2: EffectInstanceView<B>,
)
    requires
        w.wf(),
        w.slots.len() + 4 <= usize::MAX,
        w.is_target(stack_1.target),
        w.hooked(stack_1.kind),
        stack_2.target == stack_1.target,
        replace_1.target == stack_1.target,
        replace_2.target == stack_1.target,
        stack_2.kind == stack_1.kind,
        replace_1.kind == stack_1.kind,
        replace_2.kind == stack_1.kind,
        stack_1.mode == EffectMode::Stack,
        stack_2.mode == EffectMode::Stack,
        replace_1.mode == EffectMode::Replace,
        replace_2.mode == EffectMode::Replace,
        w.collision(stack_1.target, EffectMode::Replace, stack_1.kind) is None,
    ensures
        ({
            let target = stack_1.target;
            let last = w.spawn(stack_1).spawn(stack_2).spawn(replace_1).spawn(replace_2);
            let a = Entity(w.slots.len() as usize);
            let b = Entity((w.slots.len() + 1) as usize);
            let c = Entity((w.slots.len() + 2) as usize);
            let d = Entity((w.slots.len() + 3) as usize);
            &&& last.wf()
            &&& last.slots.len() == w.slots.len() + 4
            &&& last.effected_by(target) == w.effected_by(target).push(a).push(b).push(d)
            &&& last.is_effect(a) && last.effect(a) == stack_1
            &&& last.is_effect(b) && last.effect(b) == stack_2
            &&& !last.contains(c)
            &&& last.is_effect(d) && last.effect(d) == replace_2
            &&& forall|e: Entity|
                #[trigger] w.is_effect(e) ==> last.is_effect(e) && last.effect(e) == w.effect(e)
        }),
{
    let target = stack_1.target;
    let kind = stack_1.kind;
    let mode = EffectMode::Replace;
    let a = Entity(w.slots.len() as usize);
    let b = Entity((w.slots.len() + 1) as usize);
    let c = Entity((w.slots.len() + 2) as usize);
    let w1 = w.spawn(stack_1);
    lemma_spawn_alone(w, stack_1);
    w.lemma_insert_frame(stack_1);
    w.lemma_insert_collision(stack_1, target, mode, kind);
    let w2 = w1.spawn(stack_2);
    lemma_spawn_alone(w1, stack_2);
    w1.lemma_insert_frame(stack_2);
    w1.lemma_insert_collision(stack_2, target, mode, kind);
    assert(w2.collision(target, mode, kind) is None);
    assert(w1.is_target(target));
    assert(w2.is_target(target));
    let w3 = w2.spawn(replace_1);
    lemma_spawn_alone(w2, replace_1);
    w2.lemma_insert_frame(replace_1);
    w2.lemma_insert_collision(replace_1, target, mode, kind);
    assert(w3.collision(target, mode, kind) == Some(c));
    assert(w3.hooks == w.hooks);
    lemma_spawn_collision(w3, replace_2, c);
    let last = w3.spawn(replace_2);
    let list = w.effected_by(target).push(a).push(b);
    assert(w3.effected_by(target) == list.push(c));
    assert(w2.index_sound(target));
    assert(!list.contains(c)) by {
        if list.contains(c) {
            assert(w2.effected_by(target) == list);
            w2.lemma_listed_on_own_target(target, c);
        }
    }
    lemma_pushed_then_removed(list, c);
    assert forall|e: Entity| #[trigger] w.is_effect(e) implies last.is_effect(e) && last.effect(e)
        == w.effect(e) by {
        assert(w1.is_effect(e));
        assert(w2.is_effect(e));
        assert(w3.is_effect(e));
    }
    assert(w1.is_effect(a));
    assert(w2.is_effect(a));
    assert(w3.is_effect(a));
    assert(w2.is_effect(b));
    assert(w3.is_effect(b));
}

/// Has effects of the given kind resolved against the effects on their target when they
/// are spawned. To do so twice is to do so once.
pub fn init_effect_hook<B>(world: &mut Simulation<B>, kind: u64)
    ensures
        final(world)@ == (SimulationView { hooks: old(world)@.hooks.insert(kind), ..old(world)@ }),
        old(world)@.wf() ==> final(world)@.wf(),
{
    world.add_hook(kind);
}

/// Resolves an effect that is about to be spawned against the effects on its target, and
/// returns the effect as it is to stand.
///
/// Nothing happens to an effect of a kind that is not resolved, to a stacking effect, to
/// an effect on a target that is gone and to one that meets no effect of its own mode and
/// kind. Any other effect has the first effect of its own mode and kind destroyed, and in
/// `Merge` mode takes over what its timers say of that effect's timers.
fn effect_refresh_hook<B>(world: &mut Simulation<B>, effect: EffectInstance<B>) -> (r:
    EffectInstance<B>)
    requires
        old(world)@.wf(),
    ensures
        final(world)@.wf(),
        match old(world)@.hook_collision(effect@) {
            Some(old_entity) => {
                &&& final(world)@ == old(world)@.despawn(old_entity)
                &&& r@ == effect@.reconciled_with(old(world)@.effect(old_entity))
            },
            None => final(world)@ == old(world)@ && r@ == effect@,
        },
{
    let mut effect = effect;
    let hooked = match &effect.kind {
        EffectKind::Type(tag) => world.has_hook(*tag),
        EffectKind::Name(_) => false,
    };
    if !hooked {
        return effect;
    }
    let mode = effect.mode;
    if mode == EffectMode::Stack {
        return effect;
    }
    let old_entity = match world.collision(effect.target.0, mode, &effect.kind) {
        Some(entity) => entity,
        None => {
            return effect;
        },
    };
    let (old_lifetime, old_delay) = match world.get(old_entity) {
        Some(old_effect) => (old_effect.lifetime, old_effect.delay),
        None => (None, None),
    };
    effect.lifetime = reconcile(mode, effect.lifetime, old_lifetime.as_ref());
    effect.delay = reconcile(mode, effect.delay, old_delay.as_ref());
    world.despawn(old_entity);
    effect
}

impl<B> Simulation<B> {
    /// Spawns an effect and returns its identity.
    ///
    /// An effect of a kind that is resolved first meets the effects on its target: see
    /// [`init_effect_hook`]. It is not among them yet, so it never meets itself.
    pub fn spawn(&mut self, effect: EffectInstance<B>) -> (r: Entity)
        requires
            old(self)@.wf(),
        ensures
            final(self)@ == old(self)@.spawn(effect@),
            final(self)@.wf(),
            r == old(self)@.next_entity(),
            final(self)@.is_effect(r),
    {
        let ghost before = self@;
        let ready = effect_refresh_hook(self, effect);
        proof {
            if let Some(old_entity) = before.hook_collision(effect@) {
                before.lemma_despawn_wf(old_entity);
            }
        }
        self.insert(ready)
    }
}

} // verus!
