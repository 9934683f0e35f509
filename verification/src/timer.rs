//! Timers of status effects, and the rules by which two timers are reconciled.
//!
//! All times are whole nanoseconds.

use vstd::arithmetic::div_mod::*;
use vstd::arithmetic::mul::*;
use vstd::prelude::*;

verus! {

/// How a timer behaves once its duration has elapsed.
#[derive(PartialEq, Eq, Structural, Debug, Copy, Clone, Hash)]
pub enum TimerMode {
    /// The timer stops at its duration and stays finished.
    Once,
    /// The timer wraps around and starts over.
    Repeating,
}

/// Why a timer could not be made.
#[derive(PartialEq, Eq, Structural, Debug, Copy, Clone)]
pub enum TimerError {
    /// The duration was not positive.
    InvalidDuration,
}

/// Controls how a timer reconciles with the timer of an effect it merges with.
#[derive(PartialEq, Eq, Structural, Debug, Copy, Clone)]
pub enum TimerMergeMode {
    /// The new effect's time is used, ignoring the old one.
    Replace,
    /// The old effect's time is used, ignoring the new one.
    Inherit,
    /// The new timer is used, at the fraction of its duration that the old timer had reached.
    Fraction,
    /// The timer with the larger time remaining is used.
    Max,
}

/// What a merge does to the timer of the new effect.
#[derive(PartialEq, Eq, Structural, Debug, Copy, Clone)]
pub enum MergeOutcome {
    /// The new timer stays as it is.
    KeepNew,
    /// The new timer becomes a copy of the old one: elapsed time, duration and mode.
    TakeOld,
    /// The new timer keeps its duration and mode, with this much time elapsed.
    SetElapsed(u64),
}

impl MergeOutcome {
    /// The timer that the new effect goes on with.
    pub open spec fn applied(self, new: TimerView, old: TimerView) -> TimerView {
        match self {
            MergeOutcome::KeepNew => new,
            MergeOutcome::TakeOld => old,
            MergeOutcome::SetElapsed(elapsed) => TimerView { elapsed: elapsed as nat, ..new },
        }
    }
}

/// A timer as a mathematical value.
pub struct TimerView {
    pub elapsed: nat,
    pub duration: nat,
    pub mode: TimerMode,
}

impl TimerView {
    /// A timer has a positive duration and never runs past it.
    pub open spec fn wf(self) -> bool {
        0 < self.duration && self.elapsed <= self.duration
    }

    /// A fresh timer.
    pub open spec fn fresh(duration: nat, mode: TimerMode) -> TimerView {
        TimerView { elapsed: 0, duration, mode }
    }

    /// The clock that counts `elapsed` of `duration`, whatever the counts are: time counted
    /// beyond the duration is taken for the duration. The clock may lack a duration, which
    /// no [`Timer`] does. It stands for a timer that runs once or repeats alike, since no
    /// merge asks which.
    pub open spec fn counting(elapsed: nat, duration: nat) -> TimerView {
        TimerView {
            elapsed: if elapsed > duration {
                duration
            } else {
                elapsed
            },
            duration,
            mode: TimerMode::Once,
        }
    }

    /// Only a timer that runs once can be finished.
    pub open spec fn finished(self) -> bool {
        self.mode == TimerMode::Once && self.elapsed >= self.duration
    }

    /// The time left until the duration is reached.
    pub open spec fn remaining(self) -> nat {
        if self.elapsed >= self.duration {
            0
        } else {
            (self.duration - self.elapsed) as nat
        }
    }

    /// The part of `whole` that stands to `whole` as the elapsed time stands to the duration,
    /// rounded down.
    pub open spec fn fraction_elapsed(self, whole: nat) -> nat {
        if self.duration == 0 {
            0
        } else {
            (self.elapsed * whole) / self.duration
        }
    }

    /// The timer after `delta` more nanoseconds.
    pub open spec fn advance(self, delta: nat) -> TimerView {
        let total = self.elapsed + delta;
        match self.mode {
            TimerMode::Once => TimerView {
                elapsed: if total >= self.duration { self.duration } else { total },
                ..self
            },
            TimerMode::Repeating => TimerView {
                elapsed: if total >= self.duration { total % self.duration } else { total },
                ..self
            },
        }
    }

    /// How often the timer fires while it advances by `delta`: once for each wrap of a
    /// repeating timer, and once when a timer that runs once reaches its duration.
    pub open spec fn fired(self, delta: nat) -> nat {
        let total = self.elapsed + delta;
        match self.mode {
            TimerMode::Once => if self.elapsed < self.duration && total >= self.duration {
                1
            } else {
                0
            },
            TimerMode::Repeating => total / self.duration,
        }
    }

    /// The timer after each delta of `deltas` in turn.
    pub open spec fn advance_all(self, deltas: Seq<nat>) -> TimerView
        decreases deltas.len(),
    {
        if deltas.len() == 0 {
            self
        } else {
            self.advance(deltas[0]).advance_all(deltas.drop_first())
        }
    }

    /// What a merge does to the timer of a new effect (`self`) that meets the timer `old`.
    pub open spec fn merge_outcome(self, old: TimerView, mode: TimerMergeMode) -> MergeOutcome {
        match mode {
            TimerMergeMode::Replace => MergeOutcome::KeepNew,
            TimerMergeMode::Inherit => MergeOutcome::TakeOld,
            TimerMergeMode::Fraction => MergeOutcome::SetElapsed(
                old.fraction_elapsed(self.duration) as u64,
            ),
            TimerMergeMode::Max => if old.remaining() > self.remaining() {
                MergeOutcome::TakeOld
            } else {
                MergeOutcome::KeepNew
            },
        }
    }

    /// Reconciles the timer of a new effect (`self`) with that of the effect it meets (`old`).
    pub open spec fn merge(self, old: TimerView, mode: TimerMergeMode) -> TimerView {
        match mode {
            TimerMergeMode::Replace => self,
            TimerMergeMode::Inherit => old,
            TimerMergeMode::Fraction => TimerView {
                elapsed: old.fraction_elapsed(self.duration),
                ..self
            },
            TimerMergeMode::Max => if old.remaining() > self.remaining() {
                old
            } else {
                self
            },
        }
    }
}

/// The sum of a sequence of deltas.
pub open spec fn total_of(deltas: Seq<nat>) -> nat
    decreases deltas.len(),
{
    if deltas.len() == 0 {
        0
    } else {
        deltas[0] + total_of(deltas.drop_first())
    }
}

/// A clock that counts up to its duration, once or over and over.
#[derive(PartialEq, Eq, Structural, Debug, Copy, Clone)]
pub struct Timer {
    elapsed: u64,
    duration: u64,
    mode: TimerMode,
}

impl View for Timer {
    type V = TimerView;

    closed spec fn view(&self) -> TimerView {
        TimerView { elapsed: self.elapsed as nat, duration: self.duration as nat, mode: self.mode }
    }
}

impl Timer {
    /// Holds of every timer there is.
    #[verifier::type_invariant]
    pub open spec fn inv(&self) -> bool {
        self@.wf()
    }

    /// Makes a fresh timer. A duration of zero is refused.
    pub fn new(duration: u64, mode: TimerMode) -> (r: Result<Timer, TimerError>)
        ensures
            duration == 0 <==> r is Err,
            r matches Ok(t) ==> t@ == TimerView::fresh(duration as nat, mode) && t@.wf(),
    {
        if duration == 0 {
            Err(TimerError::InvalidDuration)
        } else {
            Ok(Timer { elapsed: 0, duration, mode })
        }
    }

    /// The time that has passed, in nanoseconds.
    pub fn elapsed(&self) -> (r: u64)
        ensures
            r == self@.elapsed,
            self@.wf(),
    {
        proof {
            use_type_invariant(self);
        }
        self.elapsed
    }

    /// The time the timer runs for, in nanoseconds.
    pub fn duration(&self) -> (r: u64)
        ensures
            r == self@.duration,
            r > 0,
            self@.wf(),
    {
        proof {
            use_type_invariant(self);
        }
        self.duration
    }

    /// Whether the timer runs once or repeats.
    pub fn mode(&self) -> (r: TimerMode)
        ensures
            r == self@.mode,
    {
        self.mode
    }

    /// Whether the timer has run out. A repeating timer never has.
    pub fn finished(&self) -> (r: bool)
        ensures
            r == self@.finished(),
    {
        match self.mode {
            TimerMode::Once => self.elapsed >= self.duration,
            TimerMode::Repeating => false,
        }
    }

    /// The time left, in nanoseconds.
    pub fn remaining(&self) -> (r: u64)
        ensures
            r == self@.remaining(),
    {
        if self.elapsed >= self.duration {
            0
        } else {
            self.duration - self.elapsed
        }
    }

    /// The part of `whole` that corresponds to the elapsed fraction of the timer, rounded
    /// down.
    pub fn fraction_elapsed(&self, whole: u64) -> (r: u64)
        ensures
            r == self@.fraction_elapsed(whole as nat),
            r <= whole,
    {
        proof {
            use_type_invariant(self);
        }
        if self.duration == 0 {
            0
        } else {
            let scaled: u128 = scaled_product(self.elapsed, whole);
            let part: u128 = scaled / (self.duration as u128);
            proof {
                lemma_fraction_bounded(self.elapsed as nat, self.duration as nat, whole as nat);
            }
            part as u64
        }
    }

    /// Sets the time that has passed. A time beyond the duration counts as the duration.
    pub fn set_elapsed(&mut self, elapsed: u64)
        ensures
            final(self)@ == (TimerView {
                elapsed: if elapsed as nat >= old(self)@.duration {
                    old(self)@.duration
                } else {
                    elapsed as nat
                },
                ..old(self)@
            }),
            final(self)@.wf(),
    {
        proof {
            use_type_invariant(&*self);
        }
        if elapsed >= self.duration {
            self.elapsed = self.duration;
        } else {
            self.elapsed = elapsed;
        }
    }

    /// Lets `delta` nanoseconds pass and says how often the timer fired.
    ///
    /// A timer that runs once stops at its duration. A repeating timer that reaches its
    /// duration starts over, keeping the time that is left over.
    pub fn advance(&mut self, delta: u64) -> (fired: u128)
        ensures
            final(self)@ == old(self)@.advance(delta as nat),
            fired == old(self)@.fired(delta as nat),
            final(self)@.wf(),
    {
        proof {
            use_type_invariant(&*self);
        }
        match self.mode {
            TimerMode::Once => {
                if self.elapsed >= self.duration {
                    0
                } else if delta >= self.duration - self.elapsed {
                    self.elapsed = self.duration;
                    1
                } else {
                    self.elapsed = self.elapsed + delta;
                    0
                }
            },
            TimerMode::Repeating => {
                let total: u128 = self.elapsed as u128 + delta as u128;
                let period: u128 = self.duration as u128;
                if total >= period {
                    proof {
                        lemma_mod_bound(total as int, period as int);
                    }
                    self.elapsed = (total % period) as u64;
                    total / period
                } else {
                    proof {
                        lemma_basic_div(total as int, period as int);
                    }
                    self.elapsed = total as u64;
                    0
                }
            },
        }
    }

    /// Decides what a merge does to `new`, the timer of a new effect, where `old` is the
    /// timer of the effect it meets.
    pub fn merge_outcome(new: &Timer, old: &Timer, mode: TimerMergeMode) -> (r: MergeOutcome)
        ensures
            r == new@.merge_outcome(old@, mode),
            r.applied(new@, old@) == new@.merge(old@, mode),
            r matches MergeOutcome::SetElapsed(elapsed) ==> elapsed <= new@.duration,
    {
        proof {
            use_type_invariant(new);
            use_type_invariant(old);
            lemma_fraction_bounded(old@.elapsed, old@.duration, new@.duration);
        }
        merge_clocks((new.elapsed, new.duration), (old.elapsed, old.duration), mode)
    }

    /// Reconciles `new`, the timer of a new effect, with `old`, the timer of the effect it
    /// meets, and returns the timer that the new effect goes on with.
    pub fn merge(new: Timer, old: &Timer, mode: TimerMergeMode) -> (r: Timer)
        ensures
            r@ == new@.merge(old@, mode),
            r@.wf(),
    {
        proof {
            use_type_invariant(&new);
            use_type_invariant(old);
        }
        match Timer::merge_outcome(&new, old, mode) {
            MergeOutcome::KeepNew => new,
            MergeOutcome::TakeOld => *old,
            MergeOutcome::SetElapsed(elapsed) => Timer {
                elapsed,
                duration: new.duration,
                mode: new.mode,
            },
        }
    }
}

/// Decides what a merge does to the timer of a new effect, from what the two clocks
/// count: each is given as the time elapsed and the duration, in nanoseconds, the new
/// effect's first. Any counts are taken. Time counted beyond the duration is taken for the
/// duration, and a clock without a duration has no progress to hand on and no time left.
pub fn merge_clocks(new: (u64, u64), old: (u64, u64), mode: TimerMergeMode) -> (r: MergeOutcome)
    ensures
        r == TimerView::counting(new.0 as nat, new.1 as nat).merge_outcome(
            TimerView::counting(old.0 as nat, old.1 as nat),
            mode,
        ),
        r matches MergeOutcome::SetElapsed(elapsed) ==> elapsed <= new.1,
{
    let new_elapsed: u64 = if new.0 > new.1 {
        new.1
    } else {
        new.0
    };
    let old_elapsed: u64 = if old.0 > old.1 {
        old.1
    } else {
        old.0
    };
    match mode {
        TimerMergeMode::Replace => MergeOutcome::KeepNew,
        TimerMergeMode::Inherit => MergeOutcome::TakeOld,
        TimerMergeMode::Fraction => {
            if old.1 == 0 {
                MergeOutcome::SetElapsed(0)
            } else {
                let scaled: u128 = scaled_product(old_elapsed, new.1);
                let part: u128 = scaled / (old.1 as u128);
                proof {
                    lemma_fraction_bounded(old_elapsed as nat, old.1 as nat, new.1 as nat);
                }
                MergeOutcome::SetElapsed(part as u64)
            }
        },
        TimerMergeMode::Max => {
            if old.1 - old_elapsed > new.1 - new_elapsed {
                MergeOutcome::TakeOld
            } else {
                MergeOutcome::KeepNew
            }
        },
    }
}

/// The product of two counters, which always fits in twice their width.
fn scaled_product(a: u64, b: u64) -> (r: u128)
    ensures
        r == a * b,
{
    proof {
        lemma_mul_upper_bound(a as int, u64::MAX as int, b as int, u64::MAX as int);
    }
    (a as u128) * (b as u128)
}

/// A fraction of a whole is no more than the whole.
pub proof fn lemma_fraction_bounded(elapsed: nat, duration: nat, whole: nat)
    requires
        0 < duration,
        elapsed <= duration,
    ensures
        (elapsed * whole) / duration <= whole,
{
    lemma_mul_inequality(elapsed as int, duration as int, whole as int);
    lemma_div_is_ordered((elapsed * whole) as int, (duration * whole) as int, duration as int);
    lemma_div_multiples_vanish(whole as int, duration as int);
    lemma_mul_is_commutative(duration as int, whole as int);
}

/// The number of nanoseconds in a second.
pub const NANOS_PER_SECOND: u64 = 1_000_000_000;

/// A timer of a status effect as a mathematical value: the clock and the rule by which it
/// merges.
pub struct EffectTimerView {
    pub timer: TimerView,
    pub mode: TimerMergeMode,
}

impl EffectTimerView {
    /// The timer that a new effect goes on with after it met an effect with the timer `old`.
    /// The new timer's own mode decides.
    pub open spec fn merge(self, old: EffectTimerView) -> EffectTimerView {
        EffectTimerView { timer: self.timer.merge(old.timer, self.mode), mode: self.mode }
    }

    /// The timer after `delta` more nanoseconds.
    pub open spec fn advance(self, delta: nat) -> EffectTimerView {
        EffectTimerView { timer: self.timer.advance(delta), mode: self.mode }
    }
}

/// A timer which is used for status effects and carries a [`TimerMergeMode`].
pub trait EffectTimer: Sized {
    /// The timer as a mathematical value.
    spec fn model(&self) -> EffectTimerView;

    /// Whether the clocks of this kind of timer run once or repeat.
    spec fn clock_mode() -> TimerMode;

    /// The merge mode that a new timer of this kind starts with.
    spec fn initial_merge_mode() -> TimerMergeMode;

    /// Creates a new timer from a duration in nanoseconds. A duration of zero is refused.
    fn new(duration: u64) -> (r: Result<Self, TimerError>)
        ensures
            duration == 0 <==> r is Err,
            r matches Ok(t) ==> t.model() == (EffectTimerView {
                timer: TimerView::fresh(duration as nat, Self::clock_mode()),
                mode: Self::initial_merge_mode(),
            }),
    ;

    /// Creates a new timer from a duration in whole seconds. A duration of zero is refused.
    fn from_seconds(seconds: u32) -> (r: Result<Self, TimerError>)
        ensures
            seconds == 0 <==> r is Err,
            r matches Ok(t) ==> t.model() == (EffectTimerView {
                timer: TimerView::fresh(
                    (seconds * NANOS_PER_SECOND) as nat,
                    Self::clock_mode(),
                ),
                mode: Self::initial_merge_mode(),
            }),
    {
        let nanos: u64 = (seconds as u64) * NANOS_PER_SECOND;
        Self::new(nanos)
    }

    /// A builder that overwrites the current merge mode with a new value.
    fn with_mode(self, mode: TimerMergeMode) -> (r: Self)
        ensures
            r.model() == (EffectTimerView { timer: self.model().timer, mode }),
    ;

    /// Decides what merging an existing timer (`other`) into the new one (`self`) does to
    /// the new one.
    fn merge_outcome(&self, other: &Self) -> (r: MergeOutcome)
        ensures
            r == self.model().timer.merge_outcome(other.model().timer, self.model().mode),
    ;

    /// Merges an existing timer (`other`) into the new one (`self`).
    /// What happens depends on the merge mode of `self`.
    fn merge(&mut self, other: &Self)
        ensures
            final(self).model() == old(self).model().merge(other.model()),
    ;
}

/// Ends the effect when the timer finishes.
#[derive(PartialEq, Eq, Structural, Debug, Copy, Clone)]
pub struct Lifetime {
    /// Tracks the elapsed time. Once the timer is finished, the effect is removed.
    pub timer: Timer,
    /// Controls the merge behaviour when the effect merges with another.
    pub mode: TimerMergeMode,
}

impl View for Lifetime {
    type V = EffectTimerView;

    open spec fn view(&self) -> EffectTimerView {
        EffectTimerView { timer: self.timer@, mode: self.mode }
    }
}

impl EffectTimer for Lifetime {
    open spec fn model(&self) -> EffectTimerView {
        self@
    }

    open spec fn clock_mode() -> TimerMode {
        TimerMode::Once
    }

    open spec fn initial_merge_mode() -> TimerMergeMode {
        TimerMergeMode::Max
    }

    fn new(duration: u64) -> (r: Result<Self, TimerError>) {
        match Timer::new(duration, TimerMode::Once) {
            Ok(timer) => Ok(Lifetime { timer, mode: TimerMergeMode::Max }),
            Err(e) => Err(e),
        }
    }

    fn with_mode(self, mode: TimerMergeMode) -> (r: Self) {
        Lifetime { timer: self.timer, mode }
    }

    fn merge_outcome(&self, other: &Self) -> (r: MergeOutcome) {
        Timer::merge_outcome(&self.timer, &other.timer, self.mode)
    }

    fn merge(&mut self, other: &Self) {
        self.timer = Timer::merge(self.timer, &other.timer, self.mode);
    }
}

/// Repeating timer used for the delay between applications of an effect.
#[derive(PartialEq, Eq, Structural, Debug, Copy, Clone)]
pub struct Delay {
    /// Tracks the elapsed time.
    pub timer: Timer,
    /// Controls the merge behaviour when the effect merges with another.
    pub mode: TimerMergeMode,
}

impl View for Delay {
    type V = EffectTimerView;

    open spec fn view(&self) -> EffectTimerView {
        EffectTimerView { timer: self.timer@, mode: self.mode }
    }
}

impl EffectTimer for Delay {
    open spec fn model(&self) -> EffectTimerView {
        self@
    }

    open spec fn clock_mode() -> TimerMode {
        TimerMode::Repeating
    }

    open spec fn initial_merge_mode() -> TimerMergeMode {
        TimerMergeMode::Fraction
    }

    fn new(duration: u64) -> (r: Result<Self, TimerError>) {
        match Timer::new(duration, TimerMode::Repeating) {
            Ok(timer) => Ok(Delay { timer, mode: TimerMergeMode::Fraction }),
            Err(e) => Err(e),
        }
    }

    fn with_mode(self, mode: TimerMergeMode) -> (r: Self) {
        Delay { timer: self.timer, mode }
    }

    fn merge_outcome(&self, other: &Self) -> (r: MergeOutcome) {
        Timer::merge_outcome(&self.timer, &other.timer, self.mode)
    }

    fn merge(&mut self, other: &Self) {
        self.timer = Timer::merge(self.timer, &other.timer, self.mode);
    }
}

/// Advancing keeps a timer well formed.
pub proof fn lemma_advance_wf(t: TimerView, delta: nat)
    requires
        t.wf(),
    ensures
        t.advance(delta).wf(),
        t.advance(delta).duration == t.duration,
        t.advance(delta).mode == t.mode,
{
    if t.mode == TimerMode::Repeating && t.elapsed + delta >= t.duration {
        lemma_mod_bound((t.elapsed + delta) as int, t.duration as int);
    }
}

/// Merging well-formed timers gives a well-formed timer.
pub proof fn lemma_merge_wf(new: TimerView, old: TimerView, mode: TimerMergeMode)
    requires
        new.wf(),
        old.wf(),
    ensures
        new.merge(old, mode).wf(),
{
    lemma_fraction_bounded(old.elapsed, old.duration, new.duration);
}

/// For a timer that runs once, advancing in steps is advancing by their sum.
pub proof fn lemma_once_advance_all(t: TimerView, deltas: Seq<nat>)
    requires
        t.wf(),
        t.mode == TimerMode::Once,
    ensures
        t.advance_all(deltas) == t.advance(total_of(deltas)),
    decreases deltas.len(),
{
    if deltas.len() > 0 {
        let next = t.advance(deltas[0]);
        lemma_once_advance_all(next, deltas.drop_first());
    }
}

/// A timer that runs once is finished, with no time remaining, as soon as the time that
/// has passed in all reaches its duration, in however many steps it passed.
pub proof fn lemma_once_finishes(t: TimerView, deltas: Seq<nat>)
    requires
        t.wf(),
        t.mode == TimerMode::Once,
        t.elapsed + total_of(deltas) >= t.duration,
    ensures
        t.advance_all(deltas).finished(),
        t.advance_all(deltas).remaining() == 0,
{
    lemma_once_advance_all(t, deltas);
}

/// A timer that runs once and is advanced by at least its duration is finished, with no
/// time remaining.
pub proof fn lemma_once_finishes_in_one_step(t: TimerView, delta: nat)
    requires
        t.wf(),
        t.mode == TimerMode::Once,
        delta >= t.duration,
    ensures
        t.advance(delta).finished(),
        t.advance(delta).remaining() == 0,
{
}

/// A finished timer stays as it is and does not fire again.
pub proof fn lemma_finished_is_final(t: TimerView, delta: nat)
    requires
        t.wf(),
        t.finished(),
    ensures
        t.advance(delta) == t,
        t.fired(delta) == 0,
{
}

/// A repeating timer that has not reached its duration and is advanced by exactly its
/// duration fires exactly once and stands where it stood: a fresh one is back at zero.
pub proof fn lemma_repeating_full_period(t: TimerView)
    requires
        t.wf(),
        t.mode == TimerMode::Repeating,
        t.elapsed < t.duration,
    ensures
        t.fired(t.duration) == 1,
        t.advance(t.duration).elapsed == t.elapsed,
        t.elapsed == 0 ==> t.advance(t.duration).elapsed == 0,
        !t.advance(t.duration).finished(),
{
    let d = t.duration as int;
    let total = (t.elapsed + t.duration) as int;
    lemma_fundamental_div_mod_converse(total, d, 1, t.elapsed as int);
}

/// A repeating timer fires once for each full duration in the time that has passed, and
/// keeps what is left over.
pub proof fn lemma_repeating_wraps(t: TimerView, delta: nat)
    requires
        t.wf(),
        t.mode == TimerMode::Repeating,
    ensures
        t.elapsed + delta == t.fired(delta) * t.duration + t.advance(delta).elapsed,
        t.elapsed + delta >= t.duration ==> t.advance(delta).elapsed < t.duration,
{
    let d = t.duration as int;
    let total = (t.elapsed + delta) as int;
    lemma_fundamental_div_mod(total, d);
    lemma_mod_bound(total, d);
    lemma_mul_is_commutative(d, total / d);
    if total < d {
        lemma_basic_div(total, d);
        lemma_small_mod(total as nat, d as nat);
    }
}

/// Merging by `Replace` leaves the new timer unchanged.
pub proof fn lemma_merge_replace(new: TimerView, old: TimerView)
    ensures
        new.merge(old, TimerMergeMode::Replace) == new,
{
}

/// Merging by `Inherit` gives the old timer: elapsed time, duration and mode.
pub proof fn lemma_merge_inherit(new: TimerView, old: TimerView)
    ensures
        new.merge(old, TimerMergeMode::Inherit) == old,
        new.merge(old, TimerMergeMode::Inherit).elapsed == old.elapsed,
        new.merge(old, TimerMergeMode::Inherit).duration == old.duration,
        new.merge(old, TimerMergeMode::Inherit).mode == old.mode,
{
}

/// Merging by `Fraction` keeps the new timer's duration and mode and carries the old
/// timer's progress over: the elapsed time is the largest whole number of nanoseconds
/// that is no further along the new duration than the old timer was along its own.
pub proof fn lemma_merge_fraction(new: TimerView, old: TimerView)
    requires
        old.wf(),
    ensures
        ({
            let r = new.merge(old, TimerMergeMode::Fraction);
            &&& r.duration == new.duration
            &&& r.mode == new.mode
            &&& r.elapsed <= new.duration
            &&& r.elapsed * old.duration <= old.elapsed * new.duration
            &&& old.elapsed * new.duration < (r.elapsed + 1) * old.duration
            &&& old.elapsed == old.duration ==> r.elapsed == new.duration
            &&& old.elapsed == 0 ==> r.elapsed == 0
        }),
{
    let r = new.merge(old, TimerMergeMode::Fraction);
    let x = (old.elapsed * new.duration) as int;
    let d = old.duration as int;
    lemma_fraction_bounded(old.elapsed, old.duration, new.duration);
    lemma_fundamental_div_mod(x, d);
    lemma_mod_bound(x, d);
    lemma_mul_is_commutative(d, x / d);
    lemma_mul_is_distributive_add_other_way(d, r.elapsed as int, 1);
    if old.elapsed == old.duration {
        lemma_div_multiples_vanish(new.duration as int, d);
    }
    if old.elapsed == 0 {
        lemma_mul_basics(new.duration as int);
        lemma_div_basics(d);
    }
}

/// Merging by `Max` gives the old timer where it has strictly more time remaining, and
/// the new timer otherwise: a tie keeps the new one.
pub proof fn lemma_merge_max(new: TimerView, old: TimerView)
    ensures
        old.remaining() > new.remaining() ==> new.merge(old, TimerMergeMode::Max) == old,
        old.remaining() <= new.remaining() ==> new.merge(old, TimerMergeMode::Max) == new,
        new.merge(old, TimerMergeMode::Max).remaining() >= old.remaining(),
        new.merge(old, TimerMergeMode::Max).remaining() >= new.remaining(),
{
}

/// Merging a timer with itself changes nothing, whatever the mode.
pub proof fn lemma_merge_idempotent(t: TimerView, mode: TimerMergeMode)
    requires
        t.wf(),
    ensures
        t.merge(t, mode) == t,
{
    lemma_div_multiples_vanish(t.elapsed as int, t.duration as int);
    lemma_mul_is_commutative(t.elapsed as int, t.duration as int);
}

} // verus!
