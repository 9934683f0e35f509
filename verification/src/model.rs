//! The simulation as a mathematical value: what stands under each identity, what the
//! operations make of it, and why the index stays in agreement with the effects.

use crate::command::AddEffectCommandView;
use crate::effect::EffectInstanceView;
use crate::relation::Entity;
use crate::resolver::{first_match, lemma_first_match, resolution, CandidateView, EffectKindView};
use crate::seq_lemmas::{lemma_filter_members, lemma_remove_value};
use crate::EffectMode;
use vstd::prelude::*;

verus! {

/// What stands under one identity.
pub enum SlotView<B> {
    /// Nothing: the entity is gone.
    Vacant,
    /// A target, with the effects on it, oldest first.
    Target(Seq<Entity>),
    /// An effect.
    Effect(EffectInstanceView<B>),
}

/// A simulation as a mathematical value.
pub struct SimulationView<B> {
    /// What stands under each identity that was ever given out.
    pub slots: Seq<SlotView<B>>,
    /// The kinds of effect whose arrival is resolved against the effects that are there.
    pub hooks: Set<u64>,
    /// The effects that wait to be applied, in the order they were added.
    pub queue: Seq<AddEffectCommandView<B>>,
}

impl<B> SimulationView<B> {
    /// The simulation without anything in it.
    pub open spec fn empty() -> SimulationView<B> {
        SimulationView { slots: Seq::empty(), hooks: Set::empty(), queue: Seq::empty() }
    }

    /// Whether the entity is alive.
    pub open spec fn contains(self, e: Entity) -> bool {
        e.0 < self.slots.len() && !(self.slots[e.0 as int] is Vacant)
    }

    /// Whether the entity is a living target.
    pub open spec fn is_target(self, e: Entity) -> bool {
        e.0 < self.slots.len() && self.slots[e.0 as int] is Target
    }

    /// Whether the entity is a living effect.
    pub open spec fn is_effect(self, e: Entity) -> bool {
        e.0 < self.slots.len() && self.slots[e.0 as int] is Effect
    }

    /// The effects on a target, oldest first.
    pub open spec fn effected_by(self, t: Entity) -> Seq<Entity>
        recommends
            self.is_target(t),
    {
        self.slots[t.0 as int]->Target_0
    }

    /// The effect under an identity.
    pub open spec fn effect(self, e: Entity) -> EffectInstanceView<B>
        recommends
            self.is_effect(e),
    {
        self.slots[e.0 as int]->Effect_0
    }

    /// The identity that the next entity gets.
    pub open spec fn next_entity(self) -> Entity {
        Entity(self.slots.len() as usize)
    }

    /// What the resolver reads of the effects on a target, oldest first.
    pub open spec fn candidates(self, t: Entity) -> Seq<CandidateView>
        recommends
            self.is_target(t),
    {
        let list = self.effected_by(t);
        Seq::new(list.len(), |k: int| self.effect(list[k]).candidate())
    }

    /// The candidates that a new effect on `t` is resolved against: none where `t` is not
    /// a living target.
    pub open spec fn affecting(self, t: Entity) -> Option<Seq<CandidateView>> {
        if self.is_target(t) {
            Some(self.candidates(t))
        } else {
            None
        }
    }

    /// The effect that a new effect of the given mode and kind on `target` collides with.
    pub open spec fn collision(
        self,
        target: Entity,
        mode: EffectMode,
        kind: EffectKindView,
    ) -> Option<Entity> {
        match resolution(mode, kind, self.affecting(target)) {
            Some(i) => Some(self.effected_by(target)[i]),
            None => None,
        }
    }

    /// The effects listed on a target are living effects on that target, each listed once.
    pub open spec fn index_sound(self, t: Entity) -> bool
        recommends
            self.is_target(t),
    {
        let list = self.effected_by(t);
        &&& list.no_duplicates()
        &&& forall|k: int|
            0 <= k < list.len() ==> {
                let e = #[trigger] list[k];
                &&& self.is_effect(e)
                &&& self.effect(e).target == t
            }
    }

    /// An effect is listed on its target while the target lives.
    pub open spec fn index_complete(self, e: Entity) -> bool
        recommends
            self.is_effect(e),
    {
        let t = self.effect(e).target;
        self.is_target(t) ==> self.effected_by(t).contains(e)
    }

    /// The index and the effects agree: the effects listed on a living target are exactly
    /// the living effects whose target it is.
    pub open spec fn wf(self) -> bool {
        &&& self.slots.len() <= usize::MAX
        &&& forall|t: Entity| #[trigger] self.is_target(t) ==> self.index_sound(t)
        &&& forall|e: Entity| #[trigger] self.is_effect(e) ==> self.index_complete(e)
    }

    /// The living effects whose target is `t`, oldest first.
    pub open spec fn naming(self, t: Entity) -> Seq<Entity> {
        self.entities().filter(|e: Entity| self.is_effect(e) && self.effect(e).target == t)
    }

    /// The simulation with one more target. It carries the living effects that were put on
    /// its identity before the identity was given out: as a rule there are none.
    pub open spec fn spawn_empty(self) -> SimulationView<B> {
        SimulationView {
            slots: self.slots.push(SlotView::Target(self.naming(self.next_entity()))),
            ..self
        }
    }

    /// The simulation with one more effect, which is listed on its target as the newest
    /// where that target lives.
    pub open spec fn insert(self, effect: EffectInstanceView<B>) -> SimulationView<B> {
        let e = self.next_entity();
        let t = effect.target;
        let pushed = self.slots.push(SlotView::Effect(effect));
        SimulationView {
            slots: if self.is_target(t) {
                pushed.update(t.0 as int, SlotView::Target(self.effected_by(t).push(e)))
            } else {
                pushed
            },
            ..self
        }
    }

    /// The simulation with another effect under the identity `e`.
    pub open spec fn replace(self, e: Entity, effect: EffectInstanceView<B>) -> SimulationView<B>
        recommends
            self.is_effect(e),
            self.effect(e).target == effect.target,
    {
        SimulationView { slots: self.slots.update(e.0 as int, SlotView::Effect(effect)), ..self }
    }

    /// The simulation without the effect `e`.
    pub open spec fn without_effect(self, e: Entity) -> SimulationView<B>
        recommends
            self.is_effect(e),
    {
        let t = self.effect(e).target;
        let freed = self.slots.update(e.0 as int, SlotView::Vacant);
        SimulationView {
            slots: if self.is_target(t) {
                freed.update(t.0 as int, SlotView::Target(self.effected_by(t).remove_value(e)))
            } else {
                freed
            },
            ..self
        }
    }

    /// The simulation without the target `t` and without the effects on it.
    pub open spec fn without_target(self, t: Entity) -> SimulationView<B>
        recommends
            self.is_target(t),
    {
        let list = self.effected_by(t);
        SimulationView {
            slots: Seq::new(
                self.slots.len(),
                |i: int|
                    if i == t.0 || list.contains(Entity(i as usize)) {
                        SlotView::Vacant
                    } else {
                        self.slots[i]
                    },
            ),
            ..self
        }
    }

    /// The simulation after an entity was destroyed: an effect leaves the list of its
    /// target, and a target takes the effects on it along.
    pub open spec fn despawn(self, e: Entity) -> SimulationView<B> {
        if self.is_effect(e) {
            self.without_effect(e)
        } else if self.is_target(e) {
            self.without_target(e)
        } else {
            self
        }
    }

    /// The simulation after the lifetime of one effect ran for `delta` more nanoseconds.
    pub open spec fn advance_lifetime(self, e: Entity, delta: nat) -> SimulationView<B> {
        if self.is_effect(e) {
            self.replace(e, self.effect(e).with_lifetime_advanced(delta))
        } else {
            self
        }
    }

    /// The simulation after the delay of one effect ran for `delta` more nanoseconds.
    pub open spec fn advance_delay(self, e: Entity, delta: nat) -> SimulationView<B> {
        if self.is_effect(e) {
            self.replace(e, self.effect(e).with_delay_advanced(delta))
        } else {
            self
        }
    }

    /// Whether the entity is a living effect whose lifetime has run out.
    pub open spec fn expired(self, e: Entity) -> bool {
        self.is_effect(e) && self.effect(e).expired()
    }

    /// How often the delay of an entity fires in the next `delta` nanoseconds: never where
    /// the entity is no living effect.
    pub open spec fn delay_fired(self, e: Entity, delta: nat) -> nat {
        if self.is_effect(e) {
            self.effect(e).delay_fired(delta)
        } else {
            0
        }
    }

    /// Every identity given out so far, in the order they were given out.
    pub open spec fn entities(self) -> Seq<Entity> {
        Seq::new(self.slots.len(), |i: int| Entity(i as usize))
    }

    /// The living effects, oldest first.
    pub open spec fn effects(self) -> Seq<Entity> {
        self.entities().filter(|e: Entity| self.is_effect(e))
    }
}

impl<B> SimulationView<B> {
    /// The living effects whose target is `t` are just those, each once.
    pub proof fn lemma_naming(self, t: Entity)
        requires
            self.slots.len() <= usize::MAX,
        ensures
            self.naming(t).no_duplicates(),
            forall|e: Entity| #[trigger]
                self.naming(t).contains(e) <==> self.is_effect(e) && self.effect(e).target == t,
            (forall|e: Entity| #[trigger] self.is_effect(e) ==> self.effect(e).target != t)
                ==> self.naming(t) == Seq::<Entity>::empty(),
    {
        let all = self.entities();
        let pred = |e: Entity| self.is_effect(e) && self.effect(e).target == t;
        let found = self.naming(t);
        lemma_filter_members(all, pred);
        assert(all.no_duplicates());
        assert forall|e: Entity| #[trigger]
            found.contains(e) <==> self.is_effect(e) && self.effect(e).target == t by {
            if self.is_effect(e) {
                assert(all[e.0 as int] == e);
            }
        }
        if forall|e: Entity| #[trigger] self.is_effect(e) ==> self.effect(e).target != t {
            if found.len() > 0 {
                assert(found.contains(found[0]));
            }
            assert(found =~= Seq::<Entity>::empty());
        }
    }

    /// A new target leaves the index and the effects in agreement. Nothing affects it,
    /// unless an effect was put on its identity before the identity was given out.
    pub proof fn lemma_spawn_empty_wf(self)
        requires
            self.wf(),
            self.slots.len() < usize::MAX,
        ensures
            self.spawn_empty().wf(),
            self.spawn_empty().is_target(self.next_entity()),
            self.spawn_empty().effected_by(self.next_entity()) == self.naming(self.next_entity()),
            (forall|e: Entity|
                #[trigger] self.is_effect(e) ==> self.effect(e).target != self.next_entity())
                ==> self.spawn_empty().effected_by(self.next_entity()) == Seq::<Entity>::empty(),
            forall|e: Entity| #[trigger] self.spawn_empty().is_effect(e) <==> self.is_effect(e),
            forall|e: Entity|
                #[trigger] self.is_effect(e) ==> self.spawn_empty().effect(e) == self.effect(e),
            forall|t: Entity|
                #[trigger] self.is_target(t) ==> self.spawn_empty().is_target(t)
                    && self.spawn_empty().effected_by(t) == self.effected_by(t),
    {
        let after = self.spawn_empty();
        let new = self.next_entity();
        self.lemma_naming(new);
        assert forall|t: Entity| #[trigger] after.is_target(t) implies after.index_sound(t) by {
            if t.0 < self.slots.len() {
                assert(self.is_target(t));
                assert(self.index_sound(t));
                let list = self.effected_by(t);
                assert forall|k: int| 0 <= k < list.len() implies {
                    let e = #[trigger] list[k];
                    &&& after.is_effect(e)
                    &&& after.effect(e).target == t
                } by {
                    assert(self.is_effect(list[k]));
                }
            } else {
                assert(t == new);
                let list = self.naming(new);
                assert forall|k: int| 0 <= k < list.len() implies {
                    let e = #[trigger] list[k];
                    &&& after.is_effect(e)
                    &&& after.effect(e).target == t
                } by {
                    assert(list.contains(list[k]));
                    assert(self.is_effect(list[k]));
                }
            }
        }
        assert forall|e: Entity| #[trigger] after.is_effect(e) implies after.index_complete(e) by {
            assert(self.is_effect(e));
            assert(self.index_complete(e));
            let t = self.effect(e).target;
            if after.is_target(t) {
                if t == new {
                    assert(self.naming(new).contains(e));
                } else {
                    assert(self.is_target(t));
                }
            }
        }
    }

    /// A new effect leaves the index and the effects in agreement.
    pub proof fn lemma_insert_wf(self, effect: EffectInstanceView<B>)
        requires
            self.wf(),
            self.slots.len() < usize::MAX,
        ensures
            self.insert(effect).wf(),
            self.insert(effect).is_effect(self.next_entity()),
            self.insert(effect).effect(self.next_entity()) == effect,
    {
        let after = self.insert(effect);
        let new = self.next_entity();
        let target = effect.target;
        assert(new.0 == self.slots.len());
        assert forall|t: Entity| #[trigger] after.is_target(t) implies after.index_sound(t) by {
            assert(self.is_target(t));
            assert(self.index_sound(t));
            let before = self.effected_by(t);
            let list = after.effected_by(t);
            assert forall|k: int| 0 <= k < list.len() implies {
                let e = #[trigger] list[k];
                &&& after.is_effect(e)
                &&& after.effect(e).target == t
            } by {
                if k < before.len() {
                    assert(list[k] == before[k]);
                    assert(self.is_effect(before[k]));
                }
            }
            assert forall|i: int, j: int|
                0 <= i < list.len() && 0 <= j < list.len() && i != j implies list[i]
                != list[j] by {
                if i < before.len() {
                    assert(self.is_effect(before[i]));
                }
                if j < before.len() {
                    assert(self.is_effect(before[j]));
                }
            }
        }
        assert forall|e: Entity| #[trigger] after.is_effect(e) implies after.index_complete(e) by {
            let t = after.effect(e).target;
            if after.is_target(t) {
                assert(self.is_target(t));
                if e == new {
                    assert(t == target);
                    let list = after.effected_by(t);
                    assert(list[list.len() - 1] == e);
                } else {
                    assert(self.is_effect(e));
                    assert(self.index_complete(e));
                    let before = self.effected_by(t);
                    let k = choose|k: int| 0 <= k < before.len() && before[k] == e;
                    assert(after.effected_by(t)[k] == e);
                }
            }
        }
    }

    /// A simulation with the same targets, and with effects under the same identities on
    /// the same targets, has its index and its effects in agreement too.
    pub proof fn lemma_same_shape_wf(self, other: SimulationView<B>)
        requires
            self.wf(),
            self.slots.len() == other.slots.len(),
            forall|e: Entity| self.is_target(e) ==> #[trigger] other.is_target(e),
            forall|e: Entity| other.is_target(e) ==> #[trigger] self.is_target(e),
            forall|e: Entity|
                #[trigger] self.is_target(e) ==> self.effected_by(e) == other.effected_by(e),
            forall|e: Entity| self.is_effect(e) ==> #[trigger] other.is_effect(e),
            forall|e: Entity| other.is_effect(e) ==> #[trigger] self.is_effect(e),
            forall|e: Entity|
                #[trigger] self.is_effect(e) ==> self.effect(e).target == other.effect(e).target,
        ensures
            other.wf(),
    {
        assert forall|t: Entity| #[trigger] other.is_target(t) implies other.index_sound(t) by {
            assert(self.is_target(t));
            assert(self.index_sound(t));
            let list = self.effected_by(t);
            assert forall|k: int| 0 <= k < list.len() implies {
                let x = #[trigger] list[k];
                &&& other.is_effect(x)
                &&& other.effect(x).target == t
            } by {
                assert(self.is_effect(list[k]));
            }
        }
        assert forall|e: Entity| #[trigger] other.is_effect(e) implies other.index_complete(e) by {
            assert(self.is_effect(e));
            assert(self.index_complete(e));
            let t = self.effect(e).target;
            if other.is_target(t) {
                assert(self.is_target(t));
            }
        }
    }

    /// Another effect under the identity of an effect on the same target leaves the index
    /// and the effects in agreement.
    pub proof fn lemma_replace_wf(self, e: Entity, effect: EffectInstanceView<B>)
        requires
            self.wf(),
            self.is_effect(e),
            self.effect(e).target == effect.target,
        ensures
            self.replace(e, effect).wf(),
    {
        self.lemma_same_shape_wf(self.replace(e, effect));
    }

    /// In a simulation whose index agrees with its effects, an effect is listed on no
    /// target but its own.
    pub proof fn lemma_listed_on_own_target(self, t: Entity, e: Entity)
        requires
            self.wf(),
            self.is_target(t),
            self.effected_by(t).contains(e),
        ensures
            self.is_effect(e),
            self.effect(e).target == t,
    {
        assert(self.index_sound(t));
    }

    /// Taking an effect away leaves the index and the effects in agreement.
    pub proof fn lemma_without_effect_wf(self, e: Entity)
        requires
            self.wf(),
            self.is_effect(e),
        ensures
            self.without_effect(e).wf(),
            !self.without_effect(e).contains(e),
    {
        let after = self.without_effect(e);
        let target = self.effect(e).target;
        if self.is_target(target) {
            assert(self.index_sound(target));
            lemma_remove_value(self.effected_by(target), e);
        }
        assert forall|t: Entity| #[trigger] after.is_target(t) implies after.index_sound(t) by {
            assert(self.is_target(t));
            assert(self.index_sound(t));
            let before = self.effected_by(t);
            let list = after.effected_by(t);
            if t != target {
                assert(list == before);
            }
            assert forall|k: int| 0 <= k < list.len() implies {
                let x = #[trigger] list[k];
                &&& after.is_effect(x)
                &&& after.effect(x).target == t
            } by {
                let x = list[k];
                assert(list.contains(x));
                assert(before.contains(x));
                self.lemma_listed_on_own_target(t, x);
                if x == e {
                    assert(t == target);
                }
            }
        }
        assert forall|x: Entity| #[trigger] after.is_effect(x) implies after.index_complete(x) by {
            assert(self.is_effect(x));
            assert(self.index_complete(x));
            let t = after.effect(x).target;
            if after.is_target(t) {
                assert(self.is_target(t));
                assert(self.effected_by(t).contains(x));
            }
        }
    }

    /// Taking a target away, with the effects on it, leaves the index and the effects in
    /// agreement.
    pub proof fn lemma_without_target_wf(self, t: Entity)
        requires
            self.wf(),
            self.is_target(t),
        ensures
            self.without_target(t).wf(),
            !self.without_target(t).contains(t),
    {
        let after = self.without_target(t);
        let gone = self.effected_by(t);
        assert forall|u: Entity| #[trigger] after.is_target(u) implies after.index_sound(u) by {
            assert(self.is_target(u));
            assert(self.index_sound(u));
            assert(u != t);
            let list = self.effected_by(u);
            assert(after.effected_by(u) == list);
            assert forall|k: int| 0 <= k < list.len() implies {
                let x = #[trigger] list[k];
                &&& after.is_effect(x)
                &&& after.effect(x).target == u
            } by {
                let x = list[k];
                assert(list.contains(x));
                self.lemma_listed_on_own_target(u, x);
                if gone.contains(x) {
                    self.lemma_listed_on_own_target(t, x);
                }
                assert(Entity(x.0 as int as usize) == x);
            }
        }
        assert forall|x: Entity| #[trigger] after.is_effect(x) implies after.index_complete(x) by {
            assert(self.is_effect(x));
            assert(self.index_complete(x));
            let u = after.effect(x).target;
            if after.is_target(u) {
                assert(self.is_target(u));
            }
        }
    }

    /// Whether the index and the effects agree depends on the targets and effects alone.
    pub proof fn lemma_same_slots_wf(self, other: SimulationView<B>)
        requires
            self.wf(),
            self.slots == other.slots,
        ensures
            other.wf(),
    {
        self.lemma_same_shape_wf(other);
    }

    /// What a new effect collides with depends on the targets and effects alone.
    pub proof fn lemma_same_slots_collision(
        self,
        other: SimulationView<B>,
        target: Entity,
        mode: EffectMode,
        kind: EffectKindView,
    )
        requires
            self.slots == other.slots,
        ensures
            self.collision(target, mode, kind) == other.collision(target, mode, kind),
    {
        assert(self.is_target(target) == other.is_target(target));
        if self.is_target(target) {
            assert(self.effected_by(target) == other.effected_by(target));
            assert(self.candidates(target) =~= other.candidates(target));
        }
    }

    /// What a new effect collides with is a living effect on its target, of its own mode
    /// and kind, listed before every other such effect.
    pub proof fn lemma_collision(self, target: Entity, mode: EffectMode, kind: EffectKindView)
        requires
            self.wf(),
        ensures
            match self.collision(target, mode, kind) {
                Some(e) => {
                    &&& mode != EffectMode::Stack
                    &&& self.is_target(target)
                    &&& self.effected_by(target).contains(e)
                    &&& self.is_effect(e)
                    &&& self.effect(e).target == target
                    &&& self.effect(e).candidate().is_match(mode, kind)
                },
                None => mode == EffectMode::Stack || !self.is_target(target) || forall|k: int|
                    0 <= k < self.effected_by(target).len() ==> !self.effect(
                        #[trigger] self.effected_by(target)[k],
                    ).candidate().is_match(mode, kind),
            },
    {
        if mode != EffectMode::Stack && self.is_target(target) {
            let candidates = self.candidates(target);
            lemma_first_match(candidates, mode, kind);
            assert(self.index_sound(target));
            match first_match(candidates, mode, kind) {
                Some(i) => {
                    let e = self.effected_by(target)[i];
                    assert(self.effected_by(target).contains(e));
                },
                None => {
                    assert forall|k: int| 0 <= k < self.effected_by(target).len() implies !self.effect(
                        #[trigger] self.effected_by(target)[k],
                    ).candidate().is_match(mode, kind) by {
                        assert(!candidates[k].is_match(mode, kind));
                    }
                },
            }
        }
    }

    /// A new effect is never among the effects that it is resolved against: they all
    /// came before it.
    pub proof fn lemma_new_effect_is_not_scanned(self, target: Entity)
        requires
            self.wf(),
            self.is_target(target),
        ensures
            !self.effected_by(target).contains(self.next_entity()),
            forall|mode: EffectMode, kind: EffectKindView| #[trigger]
                self.collision(target, mode, kind) != Some(self.next_entity()),
    {
        let new = self.next_entity();
        if self.effected_by(target).contains(new) {
            self.lemma_listed_on_own_target(target, new);
        }
        assert forall|mode: EffectMode, kind: EffectKindView| #[trigger]
            self.collision(target, mode, kind) != Some(new) by {
            self.lemma_collision(target, mode, kind);
        }
    }

    /// Destroying an entity leaves the index and the effects in agreement.
    pub proof fn lemma_despawn_wf(self, e: Entity)
        requires
            self.wf(),
        ensures
            self.despawn(e).wf(),
            !self.despawn(e).contains(e),
            self.despawn(e).slots.len() == self.slots.len(),
    {
        if self.is_effect(e) {
            self.lemma_without_effect_wf(e);
        } else if self.is_target(e) {
            self.lemma_without_target_wf(e);
        }
    }

    /// A new effect is the only thing that a new effect changes, but for the list of its
    /// target, where it is the newest.
    pub proof fn lemma_insert_frame(self, effect: EffectInstanceView<B>)
        requires
            self.wf(),
            self.slots.len() < usize::MAX,
        ensures
            self.insert(effect).slots.len() == self.slots.len() + 1,
            self.insert(effect).hooks == self.hooks,
            self.insert(effect).queue == self.queue,
            self.insert(effect).is_effect(self.next_entity()),
            self.insert(effect).effect(self.next_entity()) == effect,
            forall|e: Entity| #[trigger]
                self.insert(effect).is_effect(e) <==> self.is_effect(e) || e == self.next_entity(),
            forall|e: Entity|
                #[trigger] self.is_effect(e) ==> self.insert(effect).effect(e) == self.effect(e),
            forall|t: Entity| #[trigger] self.insert(effect).is_target(t) <==> self.is_target(t),
            forall|t: Entity|
                #[trigger] self.is_target(t) ==> self.insert(effect).effected_by(t) == (if t
                    == effect.target {
                    self.effected_by(t).push(self.next_entity())
                } else {
                    self.effected_by(t)
                }),
            forall|t: Entity|
                #[trigger] self.is_target(t) ==> self.insert(effect).candidates(t) == (if t
                    == effect.target {
                    self.candidates(t).push(effect.candidate())
                } else {
                    self.candidates(t)
                }),
    {
        let after = self.insert(effect);
        let new = self.next_entity();
        assert(new.0 == self.slots.len());
        assert forall|t: Entity| #[trigger] self.is_target(t) implies after.candidates(t) == (if t
            == effect.target {
            self.candidates(t).push(effect.candidate())
        } else {
            self.candidates(t)
        }) by {
            assert(self.index_sound(t));
            let list = self.effected_by(t);
            let expected = if t == effect.target {
                self.candidates(t).push(effect.candidate())
            } else {
                self.candidates(t)
            };
            assert forall|k: int| 0 <= k < list.len() implies after.effect(list[k])
                == self.effect(list[k]) by {
                assert(self.is_effect(list[k]));
            }
            assert(after.candidates(t) =~= expected);
        }
    }

    /// What a new effect collides with after another effect came: what it collided with
    /// before, and where there was nothing, the effect that came, if that is on the same
    /// living target and of the same mode and kind.
    pub proof fn lemma_insert_collision(
        self,
        effect: EffectInstanceView<B>,
        target: Entity,
        mode: EffectMode,
        kind: EffectKindView,
    )
        requires
            self.wf(),
            self.slots.len() < usize::MAX,
        ensures
            self.insert(effect).collision(target, mode, kind) == (match self.collision(
                target,
                mode,
                kind,
            ) {
                Some(e) => Some(e),
                None => if mode != EffectMode::Stack && self.is_target(target) && effect.target
                    == target && effect.candidate().is_match(mode, kind) {
                    Some(self.next_entity())
                } else {
                    None
                },
            }),
    {
        self.lemma_insert_frame(effect);
        let after = self.insert(effect);
        if mode != EffectMode::Stack && self.is_target(target) {
            assert(after.is_target(target));
            let before = self.candidates(target);
            lemma_first_match(before, mode, kind);
            if effect.target == target {
                let grown = before.push(effect.candidate());
                assert(grown.drop_last() =~= before);
                assert(after.candidates(target) == grown);
            }
        } else {
            assert(after.is_target(target) == self.is_target(target));
        }
    }

    /// Another effect under an identity changes nothing else.
    pub proof fn lemma_replace_frame(self, e: Entity, effect: EffectInstanceView<B>)
        requires
            self.wf(),
            self.is_effect(e),
            self.effect(e).target == effect.target,
        ensures
            self.replace(e, effect).slots.len() == self.slots.len(),
            self.replace(e, effect).hooks == self.hooks,
            self.replace(e, effect).queue == self.queue,
            self.replace(e, effect).effect(e) == effect,
            forall|x: Entity| #[trigger] self.replace(e, effect).is_effect(x) <==> self.is_effect(x),
            forall|x: Entity|
                #[trigger] self.is_effect(x) && x != e ==> self.replace(e, effect).effect(x)
                    == self.effect(x),
            forall|t: Entity| #[trigger] self.replace(e, effect).is_target(t) <==> self.is_target(t),
            forall|t: Entity|
                #[trigger] self.is_target(t) ==> self.replace(e, effect).effected_by(t)
                    == self.effected_by(t),
            effect.candidate() == self.effect(e).candidate() ==> forall|t: Entity|
                #[trigger] self.is_target(t) ==> self.replace(e, effect).candidates(t)
                    == self.candidates(t),
            effect.candidate() == self.effect(e).candidate() ==> forall|
                t: Entity,
                mode: EffectMode,
                kind: EffectKindView,
            | #[trigger]
                self.replace(e, effect).collision(t, mode, kind) == self.collision(t, mode, kind),
    {
        let after = self.replace(e, effect);
        if effect.candidate() == self.effect(e).candidate() {
            assert forall|t: Entity| #[trigger] self.is_target(t) implies after.candidates(t)
                == self.candidates(t) by {
                assert(after.candidates(t) =~= self.candidates(t));
            }
            assert forall|t: Entity, mode: EffectMode, kind: EffectKindView| #[trigger]
                after.collision(t, mode, kind) == self.collision(t, mode, kind) by {
                assert(after.is_target(t) == self.is_target(t));
            }
        }
    }

    /// Taking an effect away changes nothing else, but for the list of its target, which
    /// it leaves.
    pub proof fn lemma_without_effect_frame(self, e: Entity)
        requires
            self.wf(),
            self.is_effect(e),
        ensures
            self.without_effect(e).slots.len() == self.slots.len(),
            self.without_effect(e).hooks == self.hooks,
            self.without_effect(e).queue == self.queue,
            forall|x: Entity| #[trigger]
                self.without_effect(e).is_effect(x) <==> self.is_effect(x) && x != e,
            forall|x: Entity|
                #[trigger] self.is_effect(x) && x != e ==> self.without_effect(e).effect(x)
                    == self.effect(x),
            forall|t: Entity| #[trigger] self.without_effect(e).is_target(t) <==> self.is_target(t),
            forall|t: Entity|
                #[trigger] self.is_target(t) ==> self.without_effect(e).effected_by(t) == (if t
                    == self.effect(e).target {
                    self.effected_by(t).remove_value(e)
                } else {
                    self.effected_by(t)
                }),
    {
    }

    /// The list of a living target holds exactly the living effects whose target it is,
    /// each once.
    pub proof fn lemma_index_agrees(self, t: Entity)
        requires
            self.wf(),
            self.is_target(t),
        ensures
            self.effected_by(t).no_duplicates(),
            forall|e: Entity| #[trigger]
                self.effected_by(t).contains(e) <==> self.is_effect(e) && self.effect(e).target
                    == t,
            forall|e: Entity| #[trigger]
                self.effected_by(t).contains(e) <==> self.naming(t).contains(e),
            self.effected_by(t).len() == self.naming(t).len(),
    {
        let list = self.effected_by(t);
        assert(self.index_sound(t));
        self.lemma_naming(t);
        assert forall|e: Entity| #[trigger]
            list.contains(e) <==> self.is_effect(e) && self.effect(e).target == t by {
            if list.contains(e) {
                self.lemma_listed_on_own_target(t, e);
            }
            if self.is_effect(e) && self.effect(e).target == t {
                assert(self.index_complete(e));
            }
        }
        assert forall|e: Entity| #[trigger] list.contains(e) <==> self.naming(t).contains(e) by {}
        assert(list.to_set() =~= self.naming(t).to_set());
        list.unique_seq_to_set();
        self.naming(t).unique_seq_to_set();
    }

    /// Destroying a target destroys every effect whose target it is, and nothing else: the
    /// other targets keep their effects, and no living effect names the target afterwards.
    pub proof fn lemma_cascade(self, t: Entity)
        requires
            self.wf(),
            self.is_target(t),
        ensures
            self.despawn(t).wf(),
            !self.despawn(t).contains(t),
            forall|e: Entity| #[trigger]
                self.despawn(t).is_effect(e) ==> self.despawn(t).effect(e).target != t,
            forall|e: Entity| #[trigger]
                self.effected_by(t).contains(e) ==> self.is_effect(e) && !self.despawn(t).contains(
                    e,
                ),
            forall|e: Entity|
                #[trigger] self.is_effect(e) && self.effect(e).target == t
                    ==> !self.despawn(t).contains(e),
            forall|e: Entity|
                #[trigger] self.is_effect(e) && !self.effected_by(t).contains(e) ==> self.despawn(
                    t,
                ).is_effect(e) && self.despawn(t).effect(e) == self.effect(e),
            forall|e: Entity| #[trigger] self.despawn(t).is_effect(e) ==> self.is_effect(e),
            forall|u: Entity|
                #[trigger] self.is_target(u) && u != t ==> self.despawn(t).is_target(u)
                    && self.despawn(t).effected_by(u) == self.effected_by(u),
            forall|u: Entity| #[trigger] self.despawn(t).is_target(u) ==> self.is_target(u),
    {
        self.lemma_without_target_wf(t);
        let after = self.despawn(t);
        assert forall|e: Entity| #[trigger] after.is_effect(e) implies after.effect(e).target
            != t by {
            assert(self.is_effect(e));
            assert(self.index_complete(e));
            assert(Entity(e.0 as int as usize) == e);
        }
        assert forall|e: Entity| #[trigger] self.effected_by(t).contains(e) implies self.is_effect(
            e,
        ) && !after.contains(e) by {
            self.lemma_listed_on_own_target(t, e);
            assert(Entity(e.0 as int as usize) == e);
        }
        assert forall|e: Entity|
            #[trigger] self.is_effect(e) && self.effect(e).target == t
                implies !after.contains(e) by {
            assert(self.index_complete(e));
            assert(Entity(e.0 as int as usize) == e);
        }
        assert forall|e: Entity|
            #[trigger] self.is_effect(e) && !self.effected_by(t).contains(e) implies after.is_effect(
            e,
        ) && after.effect(e) == self.effect(e) by {
            assert(Entity(e.0 as int as usize) == e);
        }
        assert forall|u: Entity| #[trigger] self.is_target(u) && u != t implies after.is_target(u)
            && after.effected_by(u) == self.effected_by(u) by {
            if self.effected_by(t).contains(u) {
                self.lemma_listed_on_own_target(t, u);
            }
            assert(Entity(u.0 as int as usize) == u);
        }
    }

    /// An effect that is put on a living target is on its list, and is destroyed with it:
    /// after the target is destroyed no living effect names it.
    pub proof fn lemma_inserted_then_destroyed(self, effect: EffectInstanceView<B>)
        requires
            self.wf(),
            self.slots.len() < usize::MAX,
            self.is_target(effect.target),
        ensures
            self.insert(effect).effected_by(effect.target).contains(self.next_entity()),
            !self.insert(effect).despawn(effect.target).contains(self.next_entity()),
            forall|e: Entity| #[trigger]
                self.insert(effect).despawn(effect.target).is_effect(e) ==> self.insert(
                    effect,
                ).despawn(effect.target).effect(e).target != effect.target,
    {
        let put = self.insert(effect);
        self.lemma_insert_wf(effect);
        self.lemma_insert_frame(effect);
        assert(put.is_target(effect.target));
        assert(put.index_complete(self.next_entity()));
        put.lemma_cascade(effect.target);
    }

    /// The living effects are the entities with an effect under their identity, each
    /// listed once.
    pub proof fn lemma_effects(self)
        requires
            self.slots.len() <= usize::MAX,
        ensures
            forall|e: Entity| #[trigger] self.effects().contains(e) <==> self.is_effect(e),
            self.effects().no_duplicates(),
            self.effects().len() <= self.slots.len(),
    {
        let all = self.entities();
        let pred = |e: Entity| self.is_effect(e);
        let found = self.effects();
        lemma_filter_members(all, pred);
        assert forall|e: Entity| #[trigger] found.contains(e) <==> self.is_effect(e) by {
            if self.is_effect(e) {
                assert(all[e.0 as int] == e);
            }
        }
        all.lemma_filter_len(pred);
    }
}

} // verus!
