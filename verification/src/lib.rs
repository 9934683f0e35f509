//! Status effects: time-bounded modifiers attached to targets, with the rules
//! that decide what happens when a new effect meets a matching one.
//!
//! An effect is on one target and has a mode. A stacking effect stands beside whatever is
//! there. An effect in `Replace` or `Merge` mode collides with the first effect on its
//! target that has its own mode and is matched by the same thing; in `Merge` mode the
//! timers of the two are reconciled, each by its own [`TimerMergeMode`].
//!
//! There are two ways to bring an effect in:
//! - [`Simulation::spawn`] matches by kind, for the kinds named to [`init_effect_hook`]. On
//!   a collision the old effect is destroyed and the new one stands, under a new identity.
//! - [`AddEffectExt::add_effect`] matches by name, at the next [`Simulation::flush`]. On a
//!   collision the new effect is written onto the old one, which keeps its identity.
//!
//! The parts, from the leaves up:
//! - [`timer`]: timers in whole nanoseconds, and the merge of two timers;
//! - [`resolver`]: which effect a new one collides with, and what becomes of its timers;
//! - [`relation`], [`effect`]: identities, the relation to a target, and one applied effect;
//! - [`model`]: the simulation as a mathematical value, with the proofs that the index from
//!   each target to its effects agrees with the effects;
//! - [`simulation`], [`command`], [`hook`], [`systems`]: the simulation itself, the two ways
//!   in, and what happens on every tick.
//!
//! Every type has a view, a mathematical value that the contracts speak of.

pub mod command;
pub mod effect;
pub mod hook;
pub mod model;
pub mod relation;
pub mod resolver;
pub mod seq_lemmas;
pub mod simulation;
pub mod systems;
pub mod timer;

pub use crate::command::{AddEffectCommand, AddEffectExt, EffectBundle};
pub use crate::hook::init_effect_hook;
pub use crate::relation::{EffectedBy, Effecting, Entity};
pub use crate::resolver::{
    find_match, reconcile, reconcile_clocks, reconcile_outcome, resolve, scans, Candidate,
    EffectKind, Resolution,
};
pub use crate::effect::EffectInstance;
pub use crate::simulation::Simulation;
pub use crate::systems::{despawn_finished_lifetimes, tick, tick_delay};
pub use crate::timer::{
    merge_clocks, Delay, EffectTimer, Lifetime, MergeOutcome, Timer, TimerError, TimerMergeMode,
    TimerMode, NANOS_PER_SECOND,
};

use vstd::prelude::*;

verus! {

/// Describes the logic used when multiple of the same effect are applied to the same entity.
#[derive(PartialEq, Eq, Structural, Debug, Copy, Clone)]
pub enum EffectMode {
    /// Multiple of the same effect can exist at once.
    Stack,
    /// When an effect is added, it will replace matching effects.
    Replace,
    /// When an effect is added, it will merge with matching effects.
    ///
    /// The timers ([`Lifetime`] and [`Delay`]) merge according to their [`TimerMergeMode`].
    Merge,
}

impl Default for EffectMode {
    fn default() -> (r: EffectMode)
        ensures
            r == EffectMode::Stack,
    {
        EffectMode::Stack
    }
}

} // verus!
