//! One applied effect.

use crate::relation::{Effecting, Entity};
use crate::resolver::{timer_model, CandidateView, EffectKind, EffectKindView};
use crate::timer::{Delay, EffectTimerView, Lifetime};
use crate::EffectMode;
use vstd::prelude::*;

verus! {

/// One applied effect.
#[derive(Debug, PartialEq, Eq)]
pub struct EffectInstance<B> {
    /// The entity the effect is on.
    pub target: Effecting,
    /// What the effect is matched by.
    pub kind: EffectKind,
    /// What the effect does when it meets a matching one.
    pub mode: EffectMode,
    /// The timer that ends the effect.
    pub lifetime: Option<Lifetime>,
    /// The timer between applications of the effect.
    pub delay: Option<Delay>,
    /// What the effect carries. The simulation never looks inside.
    pub payload: B,
}

/// An [`EffectInstance`] as a mathematical value.
pub struct EffectInstanceView<B> {
    pub target: Entity,
    pub kind: EffectKindView,
    pub mode: EffectMode,
    pub lifetime: Option<EffectTimerView>,
    pub delay: Option<EffectTimerView>,
    pub payload: B,
}

impl<B> View for EffectInstance<B> {
    type V = EffectInstanceView<B>;

    open spec fn view(&self) -> EffectInstanceView<B> {
        EffectInstanceView {
            target: self.target.0,
            kind: self.kind@,
            mode: self.mode,
            lifetime: timer_model(self.lifetime),
            delay: timer_model(self.delay),
            payload: self.payload,
        }
    }
}

impl<B> EffectInstance<B> {
    /// A stacking effect of the given kind on a target, without timers.
    pub fn new(kind: EffectKind, target: Entity, payload: B) -> (r: EffectInstance<B>)
        ensures
            r@ == (EffectInstanceView {
                target,
                kind: kind@,
                mode: EffectMode::Stack,
                lifetime: None,
                delay: None,
                payload,
            }),
    {
        EffectInstance {
            target: Effecting(target),
            kind,
            mode: EffectMode::Stack,
            lifetime: None,
            delay: None,
            payload,
        }
    }

    /// The effect with another mode.
    pub fn with_mode(self, mode: EffectMode) -> (r: EffectInstance<B>)
        ensures
            r@ == (EffectInstanceView { mode, ..self@ }),
    {
        EffectInstance { mode, ..self }
    }

    /// The effect with a lifetime.
    pub fn with_lifetime(self, lifetime: Lifetime) -> (r: EffectInstance<B>)
        ensures
            r@ == (EffectInstanceView { lifetime: Some(lifetime@), ..self@ }),
    {
        EffectInstance { lifetime: Some(lifetime), ..self }
    }

    /// The effect with a delay.
    pub fn with_delay(self, delay: Delay) -> (r: EffectInstance<B>)
        ensures
            r@ == (EffectInstanceView { delay: Some(delay@), ..self@ }),
    {
        EffectInstance { delay: Some(delay), ..self }
    }
}

/// A timer of an effect, if it has one, after `delta` more nanoseconds.
pub open spec fn advanced(timer: Option<EffectTimerView>, delta: nat) -> Option<EffectTimerView> {
    match timer {
        Some(t) => Some(t.advance(delta)),
        None => None,
    }
}

impl<B> EffectInstanceView<B> {
    /// What the resolver reads of the effect.
    pub open spec fn candidate(self) -> CandidateView {
        CandidateView { mode: self.mode, kind: self.kind }
    }

    /// The effect after its lifetime ran for `delta` more nanoseconds.
    pub open spec fn with_lifetime_advanced(self, delta: nat) -> EffectInstanceView<B> {
        EffectInstanceView { lifetime: advanced(self.lifetime, delta), ..self }
    }

    /// The effect after its delay ran for `delta` more nanoseconds.
    pub open spec fn with_delay_advanced(self, delta: nat) -> EffectInstanceView<B> {
        EffectInstanceView { delay: advanced(self.delay, delta), ..self }
    }

    /// Whether the lifetime of the effect has run out.
    pub open spec fn expired(self) -> bool {
        self.lifetime matches Some(l) && l.timer.finished()
    }

    /// How often the delay of the effect fires in the next `delta` nanoseconds.
    pub open spec fn delay_fired(self, delta: nat) -> nat {
        match self.delay {
            Some(d) => d.timer.fired(delta),
            None => 0,
        }
    }
}

} // verus!
