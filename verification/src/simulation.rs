//! The simulation: targets, the effects on them, and the index from each target to its
//! effects.

use crate::command::AddEffectCommand;
use crate::effect::EffectInstance;
use crate::model::{SimulationView, SlotView};
use crate::relation::{EffectedBy, Entity};
use crate::resolver::{
    candidate_views, lemma_first_match, resolve, Candidate, EffectKind, Resolution,
};
use crate::EffectMode;
use std::collections::VecDeque;
use vstd::prelude::*;

verus! {

/// What stands under one identity.
#[derive(Debug)]
enum Slot<B> {
    Vacant,
    Target(EffectedBy),
    Effect(EffectInstance<B>),
}

impl<B> View for Slot<B> {
    type V = SlotView<B>;

    closed spec fn view(&self) -> SlotView<B> {
        match self {
            Slot::Vacant => SlotView::Vacant,
            Slot::Target(list) => SlotView::Target(list@),
            Slot::Effect(effect) => SlotView::Effect(effect@),
        }
    }
}

/// A simulation: targets and the effects on them.
///
/// An entity is either a target, made by [`Simulation::spawn_empty`], or an effect. Only a
/// target carries effects: an effect that is put on the identity of an effect stands
/// alone, as on any identity that is no living target.
///
/// Identities are given out in order, and none is given out twice. An identity whose
/// entity was destroyed stands for nothing from then on: an effect put on it stands alone.
/// An identity that has not been given out yet stands for nothing so far: an effect put on
/// it stands alone until a target gets that identity, and is on that target from then on.
/// So at all times the list of a living target holds exactly the living effects whose
/// target it is, and no living effect names a target that was destroyed after the effect
/// was put on it.
#[derive(Debug)]
pub struct Simulation<B> {
    entities: Vec<Slot<B>>,
    hooks: Vec<u64>,
    queue: VecDeque<AddEffectCommand<B>>,
}

impl<B> View for Simulation<B> {
    type V = SimulationView<B>;

    closed spec fn view(&self) -> SimulationView<B> {
        SimulationView {
            slots: Seq::new(self.entities@.len(), |i: int| self.entities@[i]@),
            hooks: Set::new(|kind: u64| self.hooks@.contains(kind)),
            queue: Seq::new(self.queue@.len(), |i: int| self.queue@[i]@),
        }
    }
}

impl<B> Simulation<B> {
    /// A simulation without anything in it.
    pub fn new() -> (r: Simulation<B>)
        ensures
            r@ == SimulationView::<B>::empty(),
            r@.wf(),
    {
        let r = Simulation { entities: Vec::new(), hooks: Vec::new(), queue: VecDeque::new() };
        assert(r@.slots =~= Seq::empty());
        assert(r@.hooks =~= Set::empty());
        assert(r@.queue =~= Seq::empty());
        r
    }

    /// The number of identities given out so far.
    pub fn len(&self) -> (r: usize)
        ensures
            r == self@.slots.len(),
            Entity(r) == self@.next_entity(),
    {
        self.entities.len()
    }

    /// Whether the entity is alive.
    pub fn contains(&self, entity: Entity) -> (r: bool)
        ensures
            r == self@.contains(entity),
    {
        if entity.0 < self.entities.len() {
            match &self.entities[entity.0] {
                Slot::Vacant => false,
                _ => true,
            }
        } else {
            false
        }
    }

    /// The effect under an identity, if it is alive.
    pub fn get(&self, entity: Entity) -> (r: Option<&EffectInstance<B>>)
        ensures
            match r {
                Some(effect) => self@.is_effect(entity) && effect@ == self@.effect(entity),
                None => !self@.is_effect(entity),
            },
    {
        if entity.0 < self.entities.len() {
            match &self.entities[entity.0] {
                Slot::Effect(effect) => Some(effect),
                _ => None,
            }
        } else {
            None
        }
    }

    /// The effects on a target, if it is alive.
    pub fn effected_by(&self, target: Entity) -> (r: Option<&EffectedBy>)
        ensures
            match r {
                Some(list) => self@.is_target(target) && list@ == self@.effected_by(target),
                None => !self@.is_target(target),
            },
    {
        if target.0 < self.entities.len() {
            match &self.entities[target.0] {
                Slot::Target(list) => Some(list),
                _ => None,
            }
        } else {
            None
        }
    }

    /// Makes a new target and returns its identity. Nothing affects it, unless an effect
    /// was put on that identity before it was given out: the target carries such effects
    /// from the start.
    pub fn spawn_empty(&mut self) -> (r: Entity)
        requires
            old(self)@.wf(),
        ensures
            final(self)@ == old(self)@.spawn_empty(),
            final(self)@.wf(),
            r == old(self)@.next_entity(),
    {
        let id = Entity(self.entities.len());
        let mut named = EffectedBy::new();
        let mut i: usize = 0;
        while i < self.entities.len()
            invariant
                i <= self.entities.len(),
                id.0 == self.entities.len(),
                named@ == self@.entities().take(i as int).filter(
                    |e: Entity| self@.is_effect(e) && self@.effect(e).target == id,
                ),
            decreases self.entities.len() - i,
        {
            let ghost all = self@.entities();
            let ghost pred = |e: Entity| self@.is_effect(e) && self@.effect(e).target == id;
            proof {
                assert(all.take(i + 1) =~= all.take(i as int).push(Entity(i)));
                all.take(i as int).lemma_filter_push(Entity(i), pred);
            }
            if let Slot::Effect(effect) = &self.entities[i] {
                if effect.target.0 == id {
                    named.add(Entity(i));
                }
            }
            i = i + 1;
        }
        proof {
            assert(self@.entities().take(i as int) =~= self@.entities());
            assert(named@ == self@.naming(id));
        }
        self.entities.push(Slot::Target(named));
        proof {
            assert(self.entities.len() == self.entities@.len());
            assert(self@.slots =~= old(self)@.spawn_empty().slots);
            old(self)@.lemma_spawn_empty_wf();
        }
        id
    }

    /// Puts an effect into the simulation as it is, and lists it on its target where that
    /// target is alive.
    pub fn insert(&mut self, effect: EffectInstance<B>) -> (r: Entity)
        requires
            old(self)@.wf(),
        ensures
            final(self)@ == old(self)@.insert(effect@),
            final(self)@.wf(),
            r == old(self)@.next_entity(),
    {
        let id = Entity(self.entities.len());
        let target = effect.target.0;
        self.entities.push(Slot::Effect(effect));
        if target.0 < id.0 {
            let mut slot = Slot::Vacant;
            self.entities.set_and_swap(target.0, &mut slot);
            match slot {
                Slot::Target(list) => {
                    let mut list = list;
                    list.add(id);
                    self.entities.set(target.0, Slot::Target(list));
                },
                other => {
                    self.entities.set(target.0, other);
                },
            }
        }
        proof {
            assert(self.entities.len() == self.entities@.len());
            assert(self@.slots =~= old(self)@.insert(effect@).slots);
            old(self)@.lemma_insert_wf(effect@);
        }
        id
    }

    /// The living effects, oldest first.
    pub fn effects(&self) -> (r: Vec<Entity>)
        ensures
            r@ == self@.effects(),
    {
        let mut found: Vec<Entity> = Vec::new();
        let mut i: usize = 0;
        while i < self.entities.len()
            invariant
                i <= self.entities.len(),
                found@ == self@.entities().take(i as int).filter(|e: Entity| self@.is_effect(e)),
            decreases self.entities.len() - i,
        {
            let ghost all = self@.entities();
            let ghost pred = |e: Entity| self@.is_effect(e);
            proof {
                assert(all.take(i + 1) =~= all.take(i as int).push(Entity(i)));
                all.take(i as int).lemma_filter_push(Entity(i), pred);
            }
            if let Slot::Effect(_) = &self.entities[i] {
                found.push(Entity(i));
            }
            i = i + 1;
        }
        assert(self@.entities().take(i as int) =~= self@.entities());
        found
    }

    /// What the resolver reads of the effects on a target, oldest first: nothing where the
    /// target is not alive.
    pub fn candidates(&self, target: Entity) -> (r: Option<Vec<Candidate>>)
        requires
            self@.wf(),
        ensures
            match r {
                Some(c) => self@.affecting(target) == Some(candidate_views(c@)),
                None => self@.affecting(target) is None,
            },
    {
        match self.effected_by(target) {
            None => None,
            Some(list) => {
                let mut found: Vec<Candidate> = Vec::new();
                let mut k: usize = 0;
                while k < list.len()
                    invariant
                        self@.wf(),
                        self@.is_target(target),
                        list@ == self@.effected_by(target),
                        k <= list@.len(),
                        found@.len() == k,
                        forall|j: int|
                            0 <= j < k ==> (#[trigger] found@[j])@ == self@.effect(
                                list@[j],
                            ).candidate(),
                    decreases list@.len() - k,
                {
                    let entity = list.collection()[k];
                    proof {
                        assert(self@.index_sound(target));
                        assert(self@.is_effect(list@[k as int]));
                    }
                    match self.get(entity) {
                        Some(effect) => {
                            found.push(Candidate { mode: effect.mode, kind: effect.kind.clone() });
                        },
                        None => {},
                    }
                    k = k + 1;
                }
                assert(candidate_views(found@) =~= self@.candidates(target));
                Some(found)
            },
        }
    }

    /// Puts another effect under the identity of a living effect on the same target, and
    /// hands back the effect that stood there. Where no such effect stands under the
    /// identity, nothing changes and the new effect comes back.
    pub fn replace(&mut self, entity: Entity, effect: EffectInstance<B>) -> (r: Result<
        EffectInstance<B>,
        EffectInstance<B>,
    >)
        requires
            old(self)@.wf(),
        ensures
            final(self)@.wf(),
            old(self)@.is_effect(entity) && old(self)@.effect(entity).target == effect@.target
                ==> r is Ok && r->Ok_0@ == old(self)@.effect(entity) && final(self)@ == old(
                self,
            )@.replace(entity, effect@),
            !(old(self)@.is_effect(entity) && old(self)@.effect(entity).target == effect@.target)
                ==> r == Err::<EffectInstance<B>, EffectInstance<B>>(effect) && final(self)@
                == old(self)@,
    {
        let same_target = match self.get(entity) {
            Some(old_effect) => old_effect.target.0 == effect.target.0,
            None => false,
        };
        if !same_target {
            return Err(effect);
        }
        let mut slot = Slot::Effect(effect);
        self.entities.set_and_swap(entity.0, &mut slot);
        proof {
            assert(self@.slots =~= old(self)@.replace(entity, effect@).slots);
            old(self)@.lemma_replace_wf(entity, effect@);
        }
        match slot {
            Slot::Effect(old_effect) => Ok(old_effect),
            _ => vstd::pervasive::unreached(),
        }
    }

    /// The effect that a new effect of the given mode and kind on `target` collides with:
    /// the first effect on the target with that mode and kind, unless the new effect
    /// stacks.
    pub fn collision(&self, target: Entity, mode: EffectMode, kind: &EffectKind) -> (r: Option<
        Entity,
    >)
        requires
            self@.wf(),
        ensures
            r == self@.collision(target, mode, kind@),
            r matches Some(e) ==> self@.is_effect(e) && self@.effect(e).target == target
                && self@.effect(e).candidate().is_match(mode, kind@),
    {
        if mode == EffectMode::Stack {
            return None;
        }
        let candidates = self.candidates(target);
        match resolve(mode, kind, candidates.as_ref()) {
            Resolution::StandAlone => None,
            Resolution::Collide(i) => {
                match self.effected_by(target) {
                    Some(list) => {
                        let found = list.collection()[i];
                        proof {
                            assert(self@.index_sound(target));
                            assert(self@.is_effect(list@[i as int]));
                            lemma_first_match(
                                self@.candidates(target),
                                mode,
                                kind@,
                            );
                        }
                        Some(found)
                    },
                    None => None,
                }
            },
        }
    }

    /// Lets the lifetime of an effect run for `delta` nanoseconds and says whether it has
    /// run out. Nothing happens where the entity is no living effect.
    pub fn advance_lifetime(&mut self, entity: Entity, delta: u64) -> (r: bool)
        requires
            old(self)@.wf(),
        ensures
            final(self)@ == old(self)@.advance_lifetime(entity, delta as nat),
            final(self)@.wf(),
            r == final(self)@.expired(entity),
    {
        if entity.0 >= self.entities.len() {
            return false;
        }
        let mut slot = Slot::Vacant;
        self.entities.set_and_swap(entity.0, &mut slot);
        match slot {
            Slot::Effect(effect) => {
                let mut effect = effect;
                let mut expired = false;
                if let Some(lifetime) = effect.lifetime {
                    let mut lifetime = lifetime;
                    lifetime.timer.advance(delta);
                    expired = lifetime.timer.finished();
                    effect.lifetime = Some(lifetime);
                }
                self.entities.set(entity.0, Slot::Effect(effect));
                proof {
                    let after = old(self)@.effect(entity).with_lifetime_advanced(delta as nat);
                    assert(self@.slots =~= old(self)@.replace(entity, after).slots);
                    old(self)@.lemma_replace_wf(entity, after);
                }
                expired
            },
            other => {
                self.entities.set(entity.0, other);
                assert(self@.slots =~= old(self)@.slots);
                false
            },
        }
    }

    /// Lets the delay of an effect run for `delta` nanoseconds and says how often it fired.
    /// Nothing happens where the entity is no living effect.
    pub fn advance_delay(&mut self, entity: Entity, delta: u64) -> (r: u128)
        requires
            old(self)@.wf(),
        ensures
            final(self)@ == old(self)@.advance_delay(entity, delta as nat),
            final(self)@.wf(),
            r == old(self)@.delay_fired(entity, delta as nat),
    {
        if entity.0 >= self.entities.len() {
            return 0;
        }
        let mut slot = Slot::Vacant;
        self.entities.set_and_swap(entity.0, &mut slot);
        match slot {
            Slot::Effect(effect) => {
                let mut effect = effect;
                let mut fired: u128 = 0;
                if let Some(delay) = effect.delay {
                    let mut delay = delay;
                    fired = delay.timer.advance(delta);
                    effect.delay = Some(delay);
                }
                self.entities.set(entity.0, Slot::Effect(effect));
                proof {
                    let after = old(self)@.effect(entity).with_delay_advanced(delta as nat);
                    assert(self@.slots =~= old(self)@.replace(entity, after).slots);
                    old(self)@.lemma_replace_wf(entity, after);
                }
                fired
            },
            other => {
                self.entities.set(entity.0, other);
                assert(self@.slots =~= old(self)@.slots);
                0
            },
        }
    }

    /// Destroys an entity and says whether it was alive. An effect leaves the list of its
    /// target. A target takes every effect on it along.
    pub fn despawn(&mut self, entity: Entity) -> (r: bool)
        requires
            old(self)@.wf(),
        ensures
            final(self)@ == old(self)@.despawn(entity),
            final(self)@.wf(),
            r == old(self)@.contains(entity),
    {
        let ghost before = self@;
        proof {
            before.lemma_despawn_wf(entity);
        }
        if entity.0 >= self.entities.len() {
            return false;
        }
        let mut slot = Slot::Vacant;
        self.entities.set_and_swap(entity.0, &mut slot);
        match slot {
            Slot::Vacant => {
                assert(self@.slots =~= before.slots);
                false
            },
            Slot::Effect(effect) => {
                let target = effect.target.0;
                if target.0 < self.entities.len() {
                    let mut target_slot = Slot::Vacant;
                    self.entities.set_and_swap(target.0, &mut target_slot);
                    match target_slot {
                        Slot::Target(list) => {
                            let mut list = list;
                            list.remove(entity);
                            self.entities.set(target.0, Slot::Target(list));
                        },
                        other => {
                            self.entities.set(target.0, other);
                        },
                    }
                }
                assert(self@.slots =~= before.without_effect(entity).slots);
                true
            },
            Slot::Target(list) => {
                let mut k: usize = 0;
                while k < list.len()
                    invariant
                        before.wf(),
                        before.is_target(entity),
                        list@ == before.effected_by(entity),
                        k <= list@.len(),
                        self.entities@.len() == before.slots.len(),
                        self.hooks == old(self).hooks,
                        self.queue == old(self).queue,
                        forall|i: int|
                            0 <= i < self.entities@.len() ==> (#[trigger] self.entities@[i])@ == (
                            if i == entity.0 || (exists|j: int|
                                0 <= j < k && (#[trigger] list@[j]).0 == i) {
                                SlotView::Vacant
                            } else {
                                before.slots[i]
                            }),
                    decreases list@.len() - k,
                {
                    let effect = list.collection()[k];
                    proof {
                        assert(before.index_sound(entity));
                        assert(before.is_effect(list@[k as int]));
                    }
                    self.entities.set(effect.0, Slot::Vacant);
                    k = k + 1;
                }
                proof {
                    let after = before.without_target(entity);
                    assert forall|i: int| 0 <= i < self@.slots.len() implies self@.slots[i]
                        == after.slots[i] by {
                        if list@.contains(Entity(i as usize)) {
                            let j = choose|j: int|
                                0 <= j < list@.len() && list@[j] == Entity(i as usize);
                            assert(list@[j].0 == i);
                        }
                    }
                    assert(self@.slots =~= after.slots);
                }
                true
            },
        }
    }

    /// Whether effects of this kind are resolved when they are spawned.
    pub fn has_hook(&self, kind: u64) -> (r: bool)
        ensures
            r == self@.hooks.contains(kind),
    {
        let mut i: usize = 0;
        while i < self.hooks.len()
            invariant
                i <= self.hooks.len(),
                forall|j: int| 0 <= j < i ==> self.hooks@[j] != kind,
            decreases self.hooks.len() - i,
        {
            if self.hooks[i] == kind {
                return true;
            }
            i = i + 1;
        }
        false
    }

    /// Has effects of this kind resolved when they are spawned, from now on. Says whether
    /// that is new: a kind is marked once, however often this is called.
    pub fn add_hook(&mut self, kind: u64) -> (r: bool)
        ensures
            final(self)@ == (SimulationView { hooks: old(self)@.hooks.insert(kind), ..old(self)@ }),
            r == !old(self)@.hooks.contains(kind),
            old(self)@.wf() ==> final(self)@.wf(),
    {
        proof {
            if self@.wf() {
                self@.lemma_same_slots_wf(
                    SimulationView { hooks: self@.hooks.insert(kind), ..self@ },
                );
            }
        }
        if self.has_hook(kind) {
            assert(self@.hooks =~= old(self)@.hooks.insert(kind));
            false
        } else {
            self.hooks.push(kind);
            assert forall|x: u64| self@.hooks.contains(x) == old(self)@.hooks.insert(
                kind,
            ).contains(x) by {
                if self.hooks@.contains(x) {
                    let j = choose|j: int| 0 <= j < self.hooks@.len() && self.hooks@[j] == x;
                    if j < old(self).hooks@.len() {
                        assert(old(self).hooks@[j] == x);
                    }
                }
                if old(self).hooks@.contains(x) {
                    let j = choose|j: int|
                        0 <= j < old(self).hooks@.len() && old(self).hooks@[j] == x;
                    assert(self.hooks@[j] == x);
                }
                if x == kind {
                    assert(self.hooks@[self.hooks@.len() - 1] == x);
                }
            }
            assert(self@.hooks =~= old(self)@.hooks.insert(kind));
            assert(self@.slots =~= old(self)@.slots);
            assert(self@.queue =~= old(self)@.queue);
            true
        }
    }

    /// The number of effects that wait to be applied.
    pub fn pending(&self) -> (r: usize)
        ensures
            r == self@.queue.len(),
    {
        self.queue.len()
    }

    /// Adds a command behind those that wait to be applied.
    pub(crate) fn push_command(&mut self, command: AddEffectCommand<B>)
        ensures
            final(self)@ == (SimulationView {
                queue: old(self)@.queue.push(command@),
                ..old(self)@
            }),
            old(self)@.wf() ==> final(self)@.wf(),
    {
        proof {
            if self@.wf() {
                self@.lemma_same_slots_wf(
                    SimulationView { queue: self@.queue.push(command@), ..self@ },
                );
            }
        }
        self.queue.push_back(command);
        assert(self@.queue =~= old(self)@.queue.push(command@));
        assert(self@.slots =~= old(self)@.slots);
        assert(self@.hooks =~= old(self)@.hooks);
    }

    /// Takes the command that has waited longest, if any waits.
    pub(crate) fn pop_command(&mut self) -> (r: Option<AddEffectCommand<B>>)
        ensures
            match r {
                Some(command) => {
                    &&& old(self)@.queue.len() > 0
                    &&& command@ == old(self)@.queue[0]
                    &&& final(self)@ == (SimulationView {
                        queue: old(self)@.queue.drop_first(),
                        ..old(self)@
                    })
                },
                None => old(self)@.queue.len() == 0 && final(self)@ == old(self)@,
            },
            old(self)@.wf() ==> final(self)@.wf(),
    {
        proof {
            if self@.wf() {
                self@.lemma_same_slots_wf(
                    SimulationView { queue: self@.queue.drop_first(), ..self@ },
                );
            }
        }
        let r = self.queue.pop_front();
        proof {
            assert(self@.slots =~= old(self)@.slots);
            assert(self@.hooks =~= old(self)@.hooks);
            if r is Some {
                assert(self@.queue =~= old(self)@.queue.drop_first());
            } else {
                assert(self@.queue =~= old(self)@.queue);
            }
        }
        r
    }
}

} // verus!
