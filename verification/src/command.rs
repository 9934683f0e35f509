//! Applying an effect to a target by name.

use crate::effect::{EffectInstance, EffectInstanceView};
use crate::model::SimulationView;
use crate::relation::{Effecting, Entity};
use crate::resolver::{reconcile, reconciled, timer_model, EffectKind, EffectKindView};
use crate::simulation::Simulation;
use crate::timer::{Delay, EffectTimerView, Lifetime};
use crate::EffectMode;
use vstd::prelude::*;

verus! {

/// Applies an effect to a target entity.
/// This *might* spawn a new entity, depending on what effects are already applied to the
/// target.
#[derive(Debug, PartialEq, Eq)]
pub struct AddEffectCommand<B> {
    /// The entity to apply the effect to.
    pub target: Entity,
    /// The effect to apply.
    pub bundle: EffectBundle<B>,
}

/// A "bundle" of components/settings used when applying an effect.
#[derive(Debug, PartialEq, Eq)]
pub struct EffectBundle<B> {
    /// The name/ID of the effect. Effects with different IDs have no effect on one another.
    pub name: String,
    /// Describes the logic used when new effect collides with an existing one.
    pub mode: EffectMode,
    /// The duration of the effect.
    pub lifetime: Option<Lifetime>,
    /// Repeating timer used for the delay between effect applications.
    pub delay: Option<Delay>,
    /// What the effect carries. This is where the actual effect goes.
    pub bundle: B,
}

/// An [`EffectBundle`] as a mathematical value.
pub struct EffectBundleView<B> {
    pub name: Seq<char>,
    pub mode: EffectMode,
    pub lifetime: Option<EffectTimerView>,
    pub delay: Option<EffectTimerView>,
    pub bundle: B,
}

/// An [`AddEffectCommand`] as a mathematical value.
pub struct AddEffectCommandView<B> {
    pub target: Entity,
    pub bundle: EffectBundleView<B>,
}

impl<B> View for EffectBundle<B> {
    type V = EffectBundleView<B>;

    open spec fn view(&self) -> EffectBundleView<B> {
        EffectBundleView {
            name: self.name@,
            mode: self.mode,
            lifetime: timer_model(self.lifetime),
            delay: timer_model(self.delay),
            bundle: self.bundle,
        }
    }
}

impl<B> View for AddEffectCommand<B> {
    type V = AddEffectCommandView<B>;

    open spec fn view(&self) -> AddEffectCommandView<B> {
        AddEffectCommandView { target: self.target, bundle: self.bundle@ }
    }
}

impl<B: Default> Default for EffectBundle<B> {
    fn default() -> (r: EffectBundle<B>)
        ensures
            r@.name == Seq::<char>::empty(),
            r@.mode == EffectMode::Stack,
            r@.lifetime is None,
            r@.delay is None,
    {
        EffectBundle {
            name: String::new(),
            mode: EffectMode::Stack,
            lifetime: None,
            delay: None,
            bundle: B::default(),
        }
    }
}

impl<B> EffectBundle<B> {
    /// A stacking effect under a name, without timers.
    pub fn new(name: String, bundle: B) -> (r: EffectBundle<B>)
        ensures
            r@ == (EffectBundleView {
                name: name@,
                mode: EffectMode::Stack,
                lifetime: None,
                delay: None,
                bundle,
            }),
    {
        EffectBundle { name, mode: EffectMode::Stack, lifetime: None, delay: None, bundle }
    }

    /// The bundle with another mode.
    pub fn with_mode(self, mode: EffectMode) -> (r: EffectBundle<B>)
        ensures
            r@ == (EffectBundleView { mode, ..self@ }),
    {
        EffectBundle { mode, ..self }
    }

    /// The bundle with a lifetime.
    pub fn with_lifetime(self, lifetime: Lifetime) -> (r: EffectBundle<B>)
        ensures
            r@ == (EffectBundleView { lifetime: Some(lifetime@), ..self@ }),
    {
        EffectBundle { lifetime: Some(lifetime), ..self }
    }

    /// The bundle with a delay.
    pub fn with_delay(self, delay: Delay) -> (r: EffectBundle<B>)
        ensures
            r@ == (EffectBundleView { delay: Some(delay@), ..self@ }),
    {
        EffectBundle { delay: Some(delay), ..self }
    }
}

/// The timer that stands on an effect after a new effect was written onto it: the new
/// effect's timer, and the old timer where the new effect has none.
pub open spec fn written_onto(
    new: Option<EffectTimerView>,
    old: Option<EffectTimerView>,
) -> Option<EffectTimerView> {
    if new is Some {
        new
    } else {
        old
    }
}

impl<B> AddEffectCommandView<B> {
    /// What the effect is matched by: its name.
    pub open spec fn kind(self) -> EffectKindView {
        EffectKindView::Name(self.bundle.name)
    }

    /// The effect as it stands where it meets no other.
    pub open spec fn instance(self) -> EffectInstanceView<B> {
        EffectInstanceView {
            target: self.target,
            kind: self.kind(),
            mode: self.bundle.mode,
            lifetime: self.bundle.lifetime,
            delay: self.bundle.delay,
            payload: self.bundle.bundle,
        }
    }

    /// The command with its timers reconciled with those of the effect `old` that it
    /// collides with.
    pub open spec fn reconciled_with(self, old: EffectInstanceView<B>) -> AddEffectCommandView<B> {
        AddEffectCommandView {
            target: self.target,
            bundle: EffectBundleView {
                lifetime: reconciled(self.bundle.mode, self.bundle.lifetime, old.lifetime),
                delay: reconciled(self.bundle.mode, self.bundle.delay, old.delay),
                ..self.bundle
            },
        }
    }

    /// The effect that stands where the command is written onto the effect `old`: what the
    /// command brings takes the place of what was there, and a timer that the command does
    /// not bring stays.
    pub open spec fn written_over(self, old: EffectInstanceView<B>) -> EffectInstanceView<B> {
        EffectInstanceView {
            target: self.target,
            kind: self.kind(),
            mode: self.bundle.mode,
            lifetime: written_onto(self.bundle.lifetime, old.lifetime),
            delay: written_onto(self.bundle.delay, old.delay),
            payload: self.bundle.bundle,
        }
    }

    /// The effect that stands where the command collides with the effect `old`.
    pub open spec fn instance_over(self, old: EffectInstanceView<B>) -> EffectInstanceView<B> {
        self.reconciled_with(old).written_over(old)
    }
}

impl<B> SimulationView<B> {
    /// The simulation after an effect was applied by name.
    ///
    /// A stacking effect, an effect on a target that is gone and an effect that meets no
    /// effect of its own mode and name become a new entity. Any other effect is written
    /// over the first effect of its own mode and name, which keeps its identity.
    pub open spec fn apply(self, command: AddEffectCommandView<B>) -> SimulationView<B> {
        match self.collision(command.target, command.bundle.mode, command.kind()) {
            Some(old) => self.replace(old, command.instance_over(self.effect(old))),
            None => self.insert(command.instance()),
        }
    }

    /// The simulation after each of the commands was applied in turn.
    pub open spec fn apply_all(self, commands: Seq<AddEffectCommandView<B>>) -> SimulationView<B>
        decreases commands.len(),
    {
        if commands.len() == 0 {
            self
        } else {
            self.apply(commands[0]).apply_all(commands.drop_first())
        }
    }

    /// The simulation after the effects that waited were applied, oldest first.
    pub open spec fn flush(self) -> SimulationView<B> {
        SimulationView { queue: Seq::empty(), ..self.apply_all(self.queue) }
    }
}

/// A simulation with the same targets, effects and hooks applies a command alike, whatever
/// waits in its queue.
pub proof fn lemma_apply_ignores_queue<B>(
    a: SimulationView<B>,
    b: SimulationView<B>,
    command: AddEffectCommandView<B>,
)
    requires
        a.slots == b.slots,
        a.hooks == b.hooks,
    ensures
        a.apply(command).slots == b.apply(command).slots,
        a.apply(command).hooks == b.apply(command).hooks,
        a.apply(command).queue == a.queue,
{
    a.lemma_same_slots_collision(b, command.target, command.bundle.mode, command.kind());
    assert(a.is_target(command.target) == b.is_target(command.target));
}

/// A simulation with the same targets, effects and hooks applies commands alike, whatever
/// waits in its queue.
pub proof fn lemma_apply_all_ignores_queue<B>(
    a: SimulationView<B>,
    b: SimulationView<B>,
    commands: Seq<AddEffectCommandView<B>>,
)
    requires
        a.slots == b.slots,
        a.hooks == b.hooks,
    ensures
        a.apply_all(commands).slots == b.apply_all(commands).slots,
        a.apply_all(commands).hooks == b.apply_all(commands).hooks,
        a.apply_all(commands).queue == a.queue,
    decreases commands.len(),
{
    if commands.len() > 0 {
        lemma_apply_ignores_queue(a, b, commands[0]);
        lemma_apply_all_ignores_queue(
            a.apply(commands[0]),
            b.apply(commands[0]),
            commands.drop_first(),
        );
    }
}

/// Applying commands leaves the index and the effects in agreement.
pub proof fn lemma_apply_all_wf<B>(w: SimulationView<B>, commands: Seq<AddEffectCommandView<B>>)
    requires
        w.wf(),
        w.slots.len() + commands.len() <= usize::MAX,
    ensures
        w.apply_all(commands).wf(),
        w.apply_all(commands).slots.len() <= w.slots.len() + commands.len(),
    decreases commands.len(),
{
    if commands.len() > 0 {
        lemma_apply_wf(w, commands[0]);
        lemma_apply_all_wf(w.apply(commands[0]), commands.drop_first());
    }
}

/// Applying a command leaves the index and the effects in agreement.
pub proof fn lemma_apply_wf<B>(w: SimulationView<B>, command: AddEffectCommandView<B>)
    requires
        w.wf(),
        w.slots.len() < usize::MAX,
    ensures
        w.apply(command).wf(),
        w.slots.len() <= w.apply(command).slots.len() <= w.slots.len() + 1,
{
    match w.collision(command.target, command.bundle.mode, command.kind()) {
        Some(old) => {
            w.lemma_collision(command.target, command.bundle.mode, command.kind());
            w.lemma_replace_wf(old, command.instance_over(w.effect(old)));
        },
        None => {
            w.lemma_insert_wf(command.instance());
        },
    }
}

/// Commands are applied in the order in which they were added: to apply a sequence of
/// commands and then one more is to apply the sequence with that command at its end.
pub proof fn lemma_apply_all_push<B>(
    w: SimulationView<B>,
    commands: Seq<AddEffectCommandView<B>>,
    last: AddEffectCommandView<B>,
)
    ensures
        w.apply_all(commands.push(last)) == w.apply_all(commands).apply(last),
    decreases commands.len(),
{
    let all = commands.push(last);
    if commands.len() == 0 {
        assert(all.drop_first() =~= commands);
        assert(w.apply(last).apply_all(commands) == w.apply(last));
    } else {
        assert(all.drop_first() =~= commands.drop_first().push(last));
        lemma_apply_all_push(w.apply(commands[0]), commands.drop_first(), last);
    }
}

/// A flush leaves nothing waiting, and leaves the index and the effects in agreement.
pub proof fn lemma_flush<B>(w: SimulationView<B>)
    requires
        w.wf(),
        w.slots.len() + w.queue.len() <= usize::MAX,
    ensures
        w.flush().wf(),
        w.flush().queue.len() == 0,
        w.flush().hooks == w.hooks,
        w.flush().slots == w.apply_all(w.queue).slots,
        w.flush().flush() == w.flush(),
{
    lemma_apply_all_wf(w, w.queue);
    lemma_apply_all_ignores_queue(w, w, w.queue);
    w.apply_all(w.queue).lemma_same_slots_wf(w.flush());
    lemma_apply_all_hooks(w, w.queue);
    assert(w.flush().queue =~= Seq::empty());
}

/// Applying commands registers no hook and forgets none.
pub proof fn lemma_apply_all_hooks<B>(w: SimulationView<B>, commands: Seq<AddEffectCommandView<B>>)
    ensures
        w.apply_all(commands).hooks == w.hooks,
    decreases commands.len(),
{
    if commands.len() > 0 {
        lemma_apply_all_hooks(w.apply(commands[0]), commands.drop_first());
    }
}

/// An effect that is applied touches no effect but one of its own mode and name on its
/// own target: effects of another mode or under another name stay as they are.
pub proof fn lemma_apply_touches_only_match<B>(
    w: SimulationView<B>,
    command: AddEffectCommandView<B>,
)
    requires
        w.wf(),
        w.slots.len() < usize::MAX,
    ensures
        forall|e: Entity|
            #[trigger] w.is_effect(e) && !(w.effect(e).target == command.target && w.effect(
                e,
            ).candidate().is_match(command.bundle.mode, command.kind())) ==> w.apply(
                command,
            ).is_effect(e) && w.apply(command).effect(e) == w.effect(e),
        forall|e: Entity| #[trigger] w.is_effect(e) ==> w.apply(command).is_effect(e),
        forall|t: Entity| #[trigger] w.is_target(t) <==> w.apply(command).is_target(t),
{
    w.lemma_collision(command.target, command.bundle.mode, command.kind());
    match w.collision(command.target, command.bundle.mode, command.kind()) {
        Some(old) => {
            w.lemma_replace_frame(old, command.instance_over(w.effect(old)));
        },
        None => {
            w.lemma_insert_frame(command.instance());
        },
    }
}

/// A stacking effect that is applied becomes a new entity as it is, beside whatever is
/// there.
pub proof fn lemma_apply_stack<B>(w: SimulationView<B>, command: AddEffectCommandView<B>)
    requires
        w.wf(),
        w.slots.len() < usize::MAX,
        command.bundle.mode == EffectMode::Stack,
    ensures
        w.apply(command) == w.insert(command.instance()),
        w.apply(command).wf(),
        w.apply(command).slots.len() == w.slots.len() + 1,
        w.apply(command).is_effect(w.next_entity()),
        w.apply(command).effect(w.next_entity()) == command.instance(),
        forall|e: Entity|
            #[trigger] w.is_effect(e) ==> w.apply(command).is_effect(e) && w.apply(command).effect(
                e,
            ) == w.effect(e),
{
    w.lemma_insert_wf(command.instance());
    w.lemma_insert_frame(command.instance());
}

/// Two stacking effects that are applied, to whatever targets and under whatever names,
/// are both alive afterwards, each with what it carried and with its timers as they were,
/// and every effect that was there is as it was.
pub proof fn lemma_stack_twice<B>(
    w: SimulationView<B>,
    first: AddEffectCommandView<B>,
    second: AddEffectCommandView<B>,
)
    requires
        w.wf(),
        w.slots.len() + 2 <= usize::MAX,
        first.bundle.mode == EffectMode::Stack,
        second.bundle.mode == EffectMode::Stack,
    ensures
        ({
            let both = w.apply(first).apply(second);
            let a = Entity(w.slots.len() as usize);
            let b = Entity((w.slots.len() + 1) as usize);
            &&& both.wf()
            &&& both.slots.len() == w.slots.len() + 2
            &&& both.is_effect(a)
            &&& both.effect(a) == first.instance()
            &&& both.is_effect(b)
            &&& both.effect(b) == second.instance()
            &&& forall|e: Entity|
                #[trigger] w.is_effect(e) ==> both.is_effect(e) && both.effect(e) == w.effect(e)
        }),
{
    let once = w.apply(first);
    lemma_apply_stack(w, first);
    lemma_apply_stack(once, second);
    let both = once.apply(second);
    assert forall|e: Entity| #[trigger] w.is_effect(e) implies both.is_effect(e) && both.effect(e)
        == w.effect(e) by {
        assert(once.is_effect(e));
    }
}

/// An effect that is applied where an effect of its own mode and name is on its target
/// makes no new entity: it is written onto the first such effect, which from then on
/// carries what the new effect carried.
pub proof fn lemma_apply_collision<B>(
    w: SimulationView<B>,
    command: AddEffectCommandView<B>,
    old: Entity,
)
    requires
        w.wf(),
        w.collision(command.target, command.bundle.mode, command.kind()) == Some(old),
    ensures
        w.apply(command).wf(),
        w.apply(command).slots.len() == w.slots.len(),
        w.apply(command).is_effect(old),
        w.apply(command).effect(old) == command.instance_over(w.effect(old)),
        w.apply(command).effect(old).payload == command.bundle.bundle,
        w.apply(command).effect(old).candidate() == w.effect(old).candidate(),
        forall|e: Entity| #[trigger] w.apply(command).is_effect(e) <==> w.is_effect(e),
        forall|e: Entity|
            #[trigger] w.is_effect(e) && e != old ==> w.apply(command).effect(e) == w.effect(e),
        forall|t: Entity|
            #[trigger] w.is_target(t) ==> w.apply(command).is_target(t) && w.apply(
                command,
            ).effected_by(t) == w.effected_by(t),
        forall|t: Entity, mode: EffectMode, kind: EffectKindView| #[trigger]
            w.apply(command).collision(t, mode, kind) == w.collision(t, mode, kind),
{
    w.lemma_collision(command.target, command.bundle.mode, command.kind());
    let over = command.instance_over(w.effect(old));
    w.lemma_replace_wf(old, over);
    w.lemma_replace_frame(old, over);
}

/// An effect that is applied in `Merge` mode and collides has each of its timers merged with
/// the same timer of the old effect, by the timer's own merge mode: the lifetime with the
/// lifetime, the delay with the delay. A timer that only one of the two effects carries
/// stands as it is.
pub proof fn lemma_apply_merge<B>(
    w: SimulationView<B>,
    command: AddEffectCommandView<B>,
    old: Entity,
)
    requires
        w.wf(),
        command.bundle.mode == EffectMode::Merge,
        w.collision(command.target, command.bundle.mode, command.kind()) == Some(old),
    ensures
        w.apply(command).effect(old).lifetime == (match (
            command.bundle.lifetime,
            w.effect(old).lifetime,
        ) {
            (Some(new), Some(before)) => Some(new.merge(before)),
            (Some(new), None) => Some(new),
            (None, before) => before,
        }),
        w.apply(command).effect(old).delay == (match (command.bundle.delay, w.effect(old).delay) {
            (Some(new), Some(before)) => Some(new.merge(before)),
            (Some(new), None) => Some(new),
            (None, before) => before,
        }),
{
    lemma_apply_collision(w, command, old);
}

/// An effect that is applied to a living target is on the list of that target afterwards,
/// whether it became a new entity or was written onto an old one, and it is destroyed with
/// the target: after the target is destroyed no living effect names it.
pub proof fn lemma_applied_then_destroyed<B>(
    w: SimulationView<B>,
    command: AddEffectCommandView<B>,
)
    requires
        w.wf(),
        w.slots.len() < usize::MAX,
        w.is_target(command.target),
    ensures
        ({
            let applied = w.apply(command);
            let e = match w.collision(command.target, command.bundle.mode, command.kind()) {
                Some(old) => old,
                None => w.next_entity(),
            };
            &&& applied.is_target(command.target)
            &&& applied.is_effect(e)
            &&& applied.effect(e).target == command.target
            &&& applied.effect(e).payload == command.bundle.bundle
            &&& applied.effected_by(command.target).contains(e)
            &&& !applied.despawn(command.target).contains(e)
            &&& forall|x: Entity| #[trigger]
                applied.despawn(command.target).is_effect(x) ==> applied.despawn(
                    command.target,
                ).effect(x).target != command.target
        }),
{
    let applied = w.apply(command);
    lemma_apply_wf(w, command);
    lemma_apply_touches_only_match(w, command);
    match w.collision(command.target, command.bundle.mode, command.kind()) {
        Some(old) => {
            lemma_apply_collision(w, command, old);
        },
        None => {
            w.lemma_insert_frame(command.instance());
        },
    }
    applied.lemma_index_agrees(command.target);
    applied.lemma_cascade(command.target);
}

/// Two effects that are applied in `Replace` mode to one living target under one name
/// leave one effect where the first alone left one: the second is written onto the effect
/// that the first became or was written onto. On a target that carried no such effect
/// before, exactly one effect of that mode and name is listed afterwards, and it carries
/// what the second effect carried.
pub proof fn lemma_replace_twice<B>(
    w: SimulationView<B>,
    first: AddEffectCommandView<B>,
    second: AddEffectCommandView<B>,
)
    requires
        w.wf(),
        w.slots.len() < usize::MAX,
        w.is_target(first.target),
        second.target == first.target,
        second.bundle.name == first.bundle.name,
        first.bundle.mode == EffectMode::Replace,
        second.bundle.mode == EffectMode::Replace,
    ensures
        ({
            let target = first.target;
            let once = w.apply(first);
            let twice = once.apply(second);
            &&& twice.wf()
            &&& twice.slots.len() == once.slots.len()
            &&& forall|e: Entity| #[trigger] twice.is_effect(e) <==> once.is_effect(e)
            &&& twice.effected_by(target) == once.effected_by(target)
            &&& once.collision(target, EffectMode::Replace, first.kind()) matches Some(survivor)
                && {
                &&& twice.is_effect(survivor)
                &&& twice.effect(survivor).payload == second.bundle.bundle
                &&& twice.effect(survivor).lifetime == written_onto(
                    second.bundle.lifetime,
                    once.effect(survivor).lifetime,
                )
                &&& twice.effect(survivor).delay == written_onto(
                    second.bundle.delay,
                    once.effect(survivor).delay,
                )
                &&& forall|e: Entity|
                    #[trigger] once.is_effect(e) && e != survivor ==> twice.effect(e)
                        == once.effect(e)
                &&& w.collision(target, EffectMode::Replace, first.kind()) is None ==> {
                    &&& survivor == w.next_entity()
                    &&& twice.slots.len() == w.slots.len() + 1
                    &&& twice.effected_by(target) == w.effected_by(target).push(survivor)
                    &&& forall|k: int|
                        0 <= k < twice.effected_by(target).len() && twice.effect(
                            #[trigger] twice.effected_by(target)[k],
                        ).candidate().is_match(EffectMode::Replace, first.kind())
                            ==> twice.effected_by(target)[k] == survivor
                }
            }
        }),
{
    let target = first.target;
    let kind = first.kind();
    let mode = EffectMode::Replace;
    let once = w.apply(first);
    lemma_apply_wf(w, first);
    w.lemma_collision(target, mode, kind);
    match w.collision(target, mode, kind) {
        Some(old) => {
            lemma_apply_collision(w, first, old);
            assert(once.collision(target, mode, kind) == Some(old));
            lemma_apply_collision(once, second, old);
        },
        None => {
            let new = w.next_entity();
            w.lemma_insert_frame(first.instance());
            w.lemma_insert_collision(first.instance(), target, mode, kind);
            assert(once.collision(target, mode, kind) == Some(new));
            lemma_apply_collision(once, second, new);
            let twice = once.apply(second);
            let list = twice.effected_by(target);
            assert(list == w.effected_by(target).push(new));
            assert forall|k: int|
                0 <= k < list.len() && twice.effect(#[trigger] list[k]).candidate().is_match(
                    mode,
                    kind,
                ) implies list[k] == new by {
                if k < w.effected_by(target).len() {
                    let e = w.effected_by(target)[k];
                    assert(list[k] == e);
                    assert(w.effected_by(target).contains(e));
                    w.lemma_listed_on_own_target(target, e);
                    assert(e != new);
                    assert(once.effect(e) == w.effect(e));
                    assert(twice.effect(e) == once.effect(e));
                }
            }
        },
    }
}

/// Effects of different modes do not meet: where two stacking effects and then two
/// effects in `Replace` mode are applied to one living target under one name, and the
/// target carried no effect in `Replace` mode under that name before, three effects are
/// alive afterwards that were not there before: the two stacking effects as they were
/// applied, and one effect in `Replace` mode that carries what the second such effect
/// carried.
pub proof fn lemma_mixed_modes<B>(
    w: SimulationView<B>,
    stack_1: AddEffectCommandView<B>,
    stack_2: AddEffectCommandView<B>,
    replace_1: AddEffectCommandView<B>,
    replace_2: AddEffectCommandView<B>,
)
    requires
        w.wf(),
        w.slots.len() + 3 <= usize::MAX,
        w.is_target(stack_1.target),
        stack_2.target == stack_1.target,
        replace_1.target == stack_1.target,
        replace_2.target == stack_1.target,
        stack_2.bundle.name == stack_1.bundle.name,
        replace_1.bundle.name == stack_1.bundle.name,
        replace_2.bundle.name == stack_1.bundle.name,
        stack_1.bundle.mode == EffectMode::Stack,
        stack_2.bundle.mode == EffectMode::Stack,
        replace_1.bundle.mode == EffectMode::Replace,
        replace_2.bundle.mode == EffectMode::Replace,
        w.collision(stack_1.target, EffectMode::Replace, stack_1.kind()) is None,
    ensures
        ({
            let target = stack_1.target;
            let last = w.apply(stack_1).apply(stack_2).apply(replace_1).apply(replace_2);
            let a = Entity(w.slots.len() as usize);
            let b = Entity((w.slots.len() + 1) as usize);
            let c = Entity((w.slots.len() + 2) as usize);
            &&& last.wf()
            &&& last.slots.len() == w.slots.len() + 3
            &&& last.effected_by(target) == w.effected_by(target).push(a).push(b).push(c)
            &&& last.is_effect(a) && last.effect(a) == stack_1.instance()
            &&& last.is_effect(b) && last.effect(b) == stack_2.instance()
            &&& last.is_effect(c) && last.effect(c) == replace_2.instance_over(
                replace_1.instance(),
            )
            &&& last.effect(c).payload == replace_2.bundle.bundle
            &&& forall|e: Entity|
                #[trigger] w.is_effect(e) ==> last.is_effect(e) && last.effect(e) == w.effect(e)
        }),
{
    let target = stack_1.target;
    let kind = stack_1.kind();
    let mode = EffectMode::Replace;
    let a = Entity(w.slots.len() as usize);
    let b = Entity((w.slots.len() + 1) as usize);
    let c = Entity((w.slots.len() + 2) as usize);
    let w1 = w.apply(stack_1);
    lemma_apply_stack(w, stack_1);
    w.lemma_insert_frame(stack_1.instance());
    w.lemma_insert_collision(stack_1.instance(), target, mode, kind);
    let w2 = w1.apply(stack_2);
    lemma_apply_stack(w1, stack_2);
    w1.lemma_insert_frame(stack_2.instance());
    w1.lemma_insert_collision(stack_2.instance(), target, mode, kind);
    assert(w2.collision(target, mode, kind) is None);
    let w3 = w2.apply(replace_1);
    assert(w3 == w2.insert(replace_1.instance()));
    w2.lemma_insert_wf(replace_1.instance());
    w2.lemma_insert_frame(replace_1.instance());
    w2.lemma_insert_collision(replace_1.instance(), target, mode, kind);
    assert(w3.collision(target, mode, kind) == Some(c));
    lemma_apply_collision(w3, replace_2, c);
    let last = w3.apply(replace_2);
    assert forall|e: Entity| #[trigger] w.is_effect(e) implies last.is_effect(e) && last.effect(e)
        == w.effect(e) by {
        assert(w1.is_effect(e));
        assert(w2.is_effect(e));
        assert(w3.is_effect(e));
    }
    assert(w1.is_effect(a));
    assert(w2.is_effect(a));
    assert(w3.is_effect(a));
    assert(w2.is_effect(b));
    assert(w3.is_effect(b));
    assert(w1.is_target(target));
    assert(w2.is_target(target));
    assert(w3.is_target(target));
}

impl<B> AddEffectCommand<B> {
    /// The effect as it stands where it meets no other.
    pub fn into_instance(self) -> (r: EffectInstance<B>)
        ensures
            r@ == self@.instance(),
    {
        EffectInstance {
            target: Effecting(self.target),
            kind: EffectKind::Name(self.bundle.name),
            mode: self.bundle.mode,
            lifetime: self.bundle.lifetime,
            delay: self.bundle.delay,
            payload: self.bundle.bundle,
        }
    }

    /// Applies the effect to its target.
    ///
    /// A stacking effect always becomes a new entity, and so does any effect on a target
    /// that is gone or carries no effect of the same mode and name. Any other effect is
    /// written onto the first effect of its own mode and name, after its timers were
    /// merged with those of that effect where the mode is `Merge`.
    pub fn apply(self, world: &mut Simulation<B>)
        requires
            old(world)@.wf(),
        ensures
            final(world)@ == old(world)@.apply(self@),
            final(world)@.wf(),
    {
        let mut command = self;
        if command.bundle.mode == EffectMode::Stack {
            spawn_effect(world, command);
            return ;
        }
        let kind = EffectKind::Name(command.bundle.name.clone());
        let old_entity = match world.collision(command.target, command.bundle.mode, &kind) {
            Some(entity) => entity,
            None => {
                spawn_effect(world, command);
                return ;
            },
        };
        let (old_lifetime, old_delay) = match world.get(old_entity) {
            Some(old_effect) => (old_effect.lifetime, old_effect.delay),
            None => (None, None),
        };
        command.bundle.lifetime = reconcile(
            command.bundle.mode,
            command.bundle.lifetime,
            old_lifetime.as_ref(),
        );
        command.bundle.delay = reconcile(
            command.bundle.mode,
            command.bundle.delay,
            old_delay.as_ref(),
        );
        insert_effect(world, old_entity, command);
    }
}

/// Writes what the command brings onto a living effect on the same target. A timer that the
/// command does not bring stays as it is.
fn insert_effect<B>(world: &mut Simulation<B>, entity: Entity, effect: AddEffectCommand<B>)
    requires
        old(world)@.wf(),
        old(world)@.is_effect(entity),
        old(world)@.effect(entity).target == effect.target,
    ensures
        final(world)@ == old(world)@.replace(
            entity,
            effect@.written_over(old(world)@.effect(entity)),
        ),
        final(world)@.wf(),
{
    let (old_lifetime, old_delay) = match world.get(entity) {
        Some(old_effect) => (old_effect.lifetime, old_effect.delay),
        None => (None, None),
    };
    let mut instance = effect.into_instance();
    if instance.lifetime.is_none() {
        instance.lifetime = old_lifetime;
    }
    if instance.delay.is_none() {
        instance.delay = old_delay;
    }
    let _ = world.replace(entity, instance);
}

/// Makes the effect a new entity.
fn spawn_effect<B>(world: &mut Simulation<B>, effect: AddEffectCommand<B>)
    requires
        old(world)@.wf(),
    ensures
        final(world)@ == old(world)@.insert(effect@.instance()),
        final(world)@.wf(),
{
    world.insert(effect.into_instance());
}

/// Adding effects to the commands that wait for the next flush.
pub trait AddEffectExt<B>: Sized {
    /// The commands that wait, oldest first.
    spec fn waiting(&self) -> Seq<AddEffectCommandView<B>>;

    /// Applies an effect to a target entity at the next flush, and hands the receiver back
    /// for the next call.
    /// This *might* spawn a new entity, depending on what effects are already applied to
    /// the target.
    fn add_effect(&mut self, target: Entity, bundle: EffectBundle<B>) -> (r: &mut Self)
        ensures
            r.waiting() == old(self).waiting().push(
                AddEffectCommandView { target, bundle: bundle@ },
            ),
            *final(self) == *final(r),
    ;
}

impl<B> AddEffectExt<B> for Simulation<B> {
    open spec fn waiting(&self) -> Seq<AddEffectCommandView<B>> {
        self@.queue
    }

    fn add_effect(&mut self, target: Entity, bundle: EffectBundle<B>) -> (r: &mut Self)
        ensures
            r@ == (SimulationView {
                queue: old(self)@.queue.push(AddEffectCommandView { target, bundle: bundle@ }),
                ..old(self)@
            }),
            old(self)@.wf() ==> r@.wf(),
    {
        self.push_command(AddEffectCommand { target, bundle });
        self
    }
}

impl<B> Simulation<B> {
    /// Applies the effects that wait, oldest first, so that each sees what those before it
    /// have done.
    pub fn flush(&mut self)
        requires
            old(self)@.wf(),
        ensures
            final(self)@ == old(self)@.flush(),
            final(self)@.wf(),
    {
        loop
            invariant
                self@.wf(),
                self@.flush() == old(self)@.flush(),
            decreases self@.queue.len(),
        {
            let ghost before = self@;
            match self.pop_command() {
                Some(command) => {
                    let ghost popped = self@;
                    command.apply(self);
                    proof {
                        let rest = before.queue.drop_first();
                        lemma_apply_ignores_queue(before, popped, command@);
                        lemma_apply_all_ignores_queue(
                            before.apply(command@),
                            popped.apply(command@),
                            rest,
                        );
                        assert(self@.queue == rest);
                        assert(self@.flush() =~= before.flush());
                    }
                },
                None => {
                    proof {
                        assert(self@.queue =~= Seq::empty());
                        assert(self@.flush() =~= self@);
                    }
                    return ;
                },
            }
        }
    }
}

} // verus!
