//! What happens on every tick of the simulation: timers run, and effects whose lifetime
//! has run out are removed.

use crate::relation::Entity;
use crate::model::{SimulationView, SlotView};
use crate::simulation::Simulation;
use vstd::prelude::*;

verus! {

impl<B> SimulationView<B> {
    /// The simulation after the lifetime of every effect ran for `delta` more nanoseconds.
    pub open spec fn tick_lifetimes(self, delta: nat) -> SimulationView<B> {
        SimulationView {
            slots: Seq::new(
                self.slots.len(),
                |i: int|
                    match self.slots[i] {
                        SlotView::Effect(e) => SlotView::Effect(e.with_lifetime_advanced(delta)),
                        slot => slot,
                    },
            ),
            ..self
        }
    }

    /// The simulation after the delay of every effect ran for `delta` more nanoseconds.
    pub open spec fn tick_delay(self, delta: nat) -> SimulationView<B> {
        SimulationView {
            slots: Seq::new(
                self.slots.len(),
                |i: int|
                    match self.slots[i] {
                        SlotView::Effect(e) => SlotView::Effect(e.with_delay_advanced(delta)),
                        slot => slot,
                    },
            ),
            ..self
        }
    }

    /// How often the delay under each identity fires in the next `delta` nanoseconds.
    pub open spec fn delays_fired(self, delta: nat) -> Seq<nat> {
        Seq::new(self.slots.len(), |i: int| self.delay_fired(Entity(i as usize), delta))
    }

    /// The simulation after every effect with an identity from `from` on whose lifetime
    /// has run out was destroyed, in the order of their identities.
    pub open spec fn despawn_expired_from(self, from: nat) -> SimulationView<B>
        decreases self.slots.len() - from,
    {
        if from >= self.slots.len() {
            self
        } else {
            let e = Entity(from as usize);
            let next = if self.expired(e) {
                self.without_effect(e)
            } else {
                self
            };
            next.despawn_expired_from(from + 1)
        }
    }

    /// The simulation after the lifetime of every effect ran for `delta` more nanoseconds
    /// and every effect whose lifetime has run out was destroyed.
    pub open spec fn despawn_finished_lifetimes(self, delta: nat) -> SimulationView<B> {
        self.tick_lifetimes(delta).despawn_expired_from(0)
    }

    /// The simulation after one tick of `delta` nanoseconds: the lifetimes run and the
    /// effects whose lifetime has run out are destroyed, and then the delays of the effects
    /// that are left run.
    pub open spec fn tick(self, delta: nat) -> SimulationView<B> {
        self.despawn_finished_lifetimes(delta).tick_delay(delta)
    }

    /// Running the lifetimes leaves everything but the lifetimes as it is.
    pub proof fn lemma_tick_lifetimes(self, delta: nat)
        requires
            self.wf(),
        ensures
            self.tick_lifetimes(delta).wf(),
            self.tick_lifetimes(delta).slots.len() == self.slots.len(),
            forall|e: Entity|
                self.is_target(e) == #[trigger] self.tick_lifetimes(delta).is_target(e),
            forall|e: Entity|
                #[trigger] self.is_target(e) ==> self.tick_lifetimes(delta).effected_by(e)
                    == self.effected_by(e),
            forall|e: Entity|
                self.is_effect(e) == #[trigger] self.tick_lifetimes(delta).is_effect(e),
            forall|e: Entity|
                #[trigger] self.is_effect(e) ==> self.tick_lifetimes(delta).effect(e)
                    == self.effect(e).with_lifetime_advanced(delta),
    {
        self.lemma_same_shape_wf(self.tick_lifetimes(delta));
    }

    /// Running the delays leaves everything but the delays as it is.
    pub proof fn lemma_tick_delay(self, delta: nat)
        requires
            self.wf(),
        ensures
            self.tick_delay(delta).wf(),
            self.tick_delay(delta).slots.len() == self.slots.len(),
            forall|e: Entity| self.is_target(e) == #[trigger] self.tick_delay(delta).is_target(e),
            forall|e: Entity|
                #[trigger] self.is_target(e) ==> self.tick_delay(delta).effected_by(e)
                    == self.effected_by(e),
            forall|e: Entity| self.is_effect(e) == #[trigger] self.tick_delay(delta).is_effect(e),
            forall|e: Entity|
                #[trigger] self.is_effect(e) ==> self.tick_delay(delta).effect(e) == self.effect(
                    e,
                ).with_delay_advanced(delta),
    {
        self.lemma_same_shape_wf(self.tick_delay(delta));
    }

    /// Destroying the effects whose lifetime has run out destroys those and nothing else:
    /// the targets stay, and every other effect stays as it is.
    pub proof fn lemma_despawn_expired_from(self, from: nat)
        requires
            self.wf(),
        ensures
            self.despawn_expired_from(from).wf(),
            self.despawn_expired_from(from).slots.len() == self.slots.len(),
            self.despawn_expired_from(from).hooks == self.hooks,
            self.despawn_expired_from(from).queue == self.queue,
            forall|e: Entity|
                self.is_target(e) == #[trigger] self.despawn_expired_from(from).is_target(e),
            forall|e: Entity| #[trigger]
                self.despawn_expired_from(from).is_effect(e) <==> self.is_effect(e) && !(e.0
                    >= from && self.expired(e)),
            forall|e: Entity| #[trigger]
                self.despawn_expired_from(from).is_effect(e) ==> self.despawn_expired_from(
                    from,
                ).effect(e) == self.effect(e),
        decreases self.slots.len() - from,
    {
        if from < self.slots.len() {
            let e = Entity(from as usize);
            let next = if self.expired(e) {
                self.without_effect(e)
            } else {
                self
            };
            if self.expired(e) {
                self.lemma_without_effect_wf(e);
            }
            next.lemma_despawn_expired_from(from + 1);
            let last = next.despawn_expired_from(from + 1);
            assert forall|x: Entity| #[trigger]
                last.is_effect(x) <==> self.is_effect(x) && !(x.0 >= from && self.expired(x)) by {
                if x != e {
                    assert(next.is_effect(x) == self.is_effect(x));
                    if self.is_effect(x) {
                        assert(next.effect(x) == self.effect(x));
                    }
                }
            }
            assert forall|x: Entity| #[trigger] last.is_effect(x) implies last.effect(x)
                == self.effect(x) by {
                assert(next.is_effect(x));
            }
            assert forall|x: Entity| self.is_target(x) == #[trigger] last.is_target(x) by {
                assert(next.is_target(x) == self.is_target(x));
            }
        }
    }

    /// After a tick no effect is left whose lifetime has run out; the effects whose
    /// lifetime has not run out are all there, with their lifetimes run on; and the
    /// targets are as they were.
    pub proof fn lemma_despawn_finished_lifetimes(self, delta: nat)
        requires
            self.wf(),
        ensures
            self.despawn_finished_lifetimes(delta).wf(),
            self.despawn_finished_lifetimes(delta).slots.len() == self.slots.len(),
            forall|e: Entity|
                self.is_target(e) == #[trigger] self.despawn_finished_lifetimes(delta).is_target(
                    e,
                ),
            forall|e: Entity| #[trigger]
                self.despawn_finished_lifetimes(delta).is_effect(e) <==> self.is_effect(e)
                    && !self.effect(e).with_lifetime_advanced(delta).expired(),
            forall|e: Entity| #[trigger]
                self.despawn_finished_lifetimes(delta).is_effect(e)
                    ==> self.despawn_finished_lifetimes(delta).effect(e) == self.effect(
                    e,
                ).with_lifetime_advanced(delta),
            forall|e: Entity| !#[trigger] self.despawn_finished_lifetimes(delta).expired(e),
    {
        let ticked = self.tick_lifetimes(delta);
        let last = self.despawn_finished_lifetimes(delta);
        self.lemma_tick_lifetimes(delta);
        ticked.lemma_despawn_expired_from(0);
        assert forall|e: Entity| #[trigger]
            last.is_effect(e) <==> self.is_effect(e) && !self.effect(e).with_lifetime_advanced(
                delta,
            ).expired() by {
            assert(ticked.is_effect(e) == self.is_effect(e));
        }
        assert forall|e: Entity| #[trigger] last.is_effect(e) implies last.effect(e)
            == self.effect(e).with_lifetime_advanced(delta) by {
            assert(ticked.is_effect(e));
            assert(self.is_effect(e));
        }
        assert forall|e: Entity| self.is_target(e) == #[trigger] last.is_target(e) by {
            assert(ticked.is_target(e) == self.is_target(e));
        }
    }
}

/// Lets the lifetime of every effect run for `delta` nanoseconds, and destroys the effects
/// whose lifetime has run out.
pub fn despawn_finished_lifetimes<B>(world: &mut Simulation<B>, delta: u64)
    requires
        old(world)@.wf(),
    ensures
        final(world)@ == old(world)@.despawn_finished_lifetimes(delta as nat),
        final(world)@.wf(),
{
    let ghost before = world@;
    let count = world.len();
    let mut i: usize = 0;
    while i < count
        invariant
            before.wf(),
            world@.wf(),
            i <= count,
            count == before.slots.len(),
            world@.slots.len() == count,
            world@.hooks == before.hooks,
            world@.queue == before.queue,
            forall|j: int|
                0 <= j < count ==> #[trigger] world@.slots[j] == (if j < i {
                    before.tick_lifetimes(delta as nat).slots[j]
                } else {
                    before.slots[j]
                }),
        decreases count - i,
    {
        world.advance_lifetime(Entity(i), delta);
        i = i + 1;
    }
    assert(world@.slots =~= before.tick_lifetimes(delta as nat).slots);
    let ghost ticked = world@;
    let mut i: usize = 0;
    while i < count
        invariant
            world@.wf(),
            i <= count,
            world@.slots.len() == count,
            world@.despawn_expired_from(i as nat) == ticked.despawn_expired_from(0),
        decreases count - i,
    {
        let expired = match world.get(Entity(i)) {
            Some(effect) => match effect.lifetime {
                Some(lifetime) => lifetime.timer.finished(),
                None => false,
            },
            None => false,
        };
        if expired {
            world.despawn(Entity(i));
        }
        i = i + 1;
    }
}

/// Lets the delay of every effect run for `delta` nanoseconds, and says how often the
/// delay under each identity fired.
pub fn tick_delay<B>(world: &mut Simulation<B>, delta: u64) -> (fired: Vec<u128>)
    requires
        old(world)@.wf(),
    ensures
        final(world)@ == old(world)@.tick_delay(delta as nat),
        final(world)@.wf(),
        fired@.len() == old(world)@.slots.len(),
        forall|i: int|
            0 <= i < fired@.len() ==> #[trigger] fired@[i] == old(world)@.delays_fired(
                delta as nat,
            )[i],
{
    let ghost before = world@;
    let count = world.len();
    let mut fired: Vec<u128> = Vec::new();
    let mut i: usize = 0;
    while i < count
        invariant
            before.wf(),
            world@.wf(),
            i <= count,
            count == before.slots.len(),
            world@.slots.len() == count,
            world@.hooks == before.hooks,
            world@.queue == before.queue,
            fired@.len() == i,
            forall|j: int|
                0 <= j < count ==> #[trigger] world@.slots[j] == (if j < i {
                    before.tick_delay(delta as nat).slots[j]
                } else {
                    before.slots[j]
                }),
            forall|j: int|
                0 <= j < i ==> #[trigger] fired@[j] == before.delay_fired(
                    Entity(j as usize),
                    delta as nat,
                ),
        decreases count - i,
    {
        let times = world.advance_delay(Entity(i), delta);
        fired.push(times);
        i = i + 1;
    }
    assert(world@.slots =~= before.tick_delay(delta as nat).slots);
    fired
}

/// Lets one tick of `delta` nanoseconds pass: first the lifetimes run and the effects whose
/// lifetime has run out are destroyed, then the delays of the effects that are left run.
/// Says how often the delay under each identity fired.
pub fn tick<B>(world: &mut Simulation<B>, delta: u64) -> (fired: Vec<u128>)
    requires
        old(world)@.wf(),
    ensures
        final(world)@ == old(world)@.tick(delta as nat),
        final(world)@.wf(),
        fired@.len() == old(world)@.slots.len(),
        forall|i: int|
            0 <= i < fired@.len() ==> #[trigger] fired@[i] == old(
                world,
            )@.despawn_finished_lifetimes(delta as nat).delays_fired(delta as nat)[i],
{
    proof {
        old(world)@.lemma_despawn_finished_lifetimes(delta as nat);
    }
    despawn_finished_lifetimes(world, delta);
    tick_delay(world, delta)
}

} // verus!
