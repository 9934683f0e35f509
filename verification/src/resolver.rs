//! The conflict resolver: what a new effect does when its target already carries effects.

use crate::timer::{
    merge_clocks, EffectTimer, EffectTimerView, MergeOutcome, TimerMergeMode, TimerView,
};
use crate::EffectMode;
use vstd::prelude::*;

verus! {

/// What effects are matched by: the kind of thing they are, or the name they were applied
/// under.
#[derive(Debug, PartialEq, Eq, Hash)]
pub enum EffectKind {
    /// A tag that stands for a type of effect.
    Type(u64),
    /// The name an effect was applied under.
    Name(String),
}

/// An [`EffectKind`] as a mathematical value.
pub enum EffectKindView {
    Type(u64),
    Name(Seq<char>),
}

impl View for EffectKind {
    type V = EffectKindView;

    open spec fn view(&self) -> EffectKindView {
        match self {
            EffectKind::Type(tag) => EffectKindView::Type(*tag),
            EffectKind::Name(name) => EffectKindView::Name(name@),
        }
    }
}

impl EffectKind {
    /// Whether two kinds are the same kind.
    pub fn matches(&self, other: &EffectKind) -> (r: bool)
        ensures
            r == (self@ == other@),
    {
        match (self, other) {
            (EffectKind::Type(a), EffectKind::Type(b)) => *a == *b,
            (EffectKind::Name(a), EffectKind::Name(b)) => *a == *b,
            _ => false,
        }
    }

}

impl Clone for EffectKind {
    fn clone(&self) -> (r: EffectKind)
        ensures
            r@ == self@,
    {
        match self {
            EffectKind::Type(tag) => EffectKind::Type(*tag),
            EffectKind::Name(name) => EffectKind::Name(name.clone()),
        }
    }
}

/// What the resolver reads of an effect that is already on the target.
#[derive(Debug, PartialEq, Eq)]
pub struct Candidate {
    /// The mode the effect was applied with.
    pub mode: EffectMode,
    /// What the effect is matched by.
    pub kind: EffectKind,
}

/// A [`Candidate`] as a mathematical value.
pub struct CandidateView {
    pub mode: EffectMode,
    pub kind: EffectKindView,
}

impl View for Candidate {
    type V = CandidateView;

    open spec fn view(&self) -> CandidateView {
        CandidateView { mode: self.mode, kind: self.kind@ }
    }
}

impl Clone for Candidate {
    fn clone(&self) -> (r: Candidate)
        ensures
            r@ == self@,
    {
        Candidate { mode: self.mode, kind: self.kind.clone() }
    }
}

/// The candidates of a vector as mathematical values.
pub open spec fn candidate_views(candidates: Seq<Candidate>) -> Seq<CandidateView> {
    Seq::new(candidates.len(), |i: int| candidates[i]@)
}

impl CandidateView {
    /// A new effect collides with an effect of the same mode and the same kind.
    pub open spec fn is_match(self, mode: EffectMode, kind: EffectKindView) -> bool {
        self.mode == mode && self.kind == kind
    }
}

/// The position of the first candidate that a new effect of the given mode and kind
/// collides with, if there is one.
pub open spec fn first_match(
    candidates: Seq<CandidateView>,
    mode: EffectMode,
    kind: EffectKindView,
) -> Option<int>
    decreases candidates.len(),
{
    if candidates.len() == 0 {
        None
    } else {
        match first_match(candidates.drop_last(), mode, kind) {
            Some(i) => Some(i),
            None => if candidates.last().is_match(mode, kind) {
                Some(candidates.len() - 1)
            } else {
                None
            },
        }
    }
}

/// `first_match` finds a match, and the earliest one there is.
pub proof fn lemma_first_match(
    candidates: Seq<CandidateView>,
    mode: EffectMode,
    kind: EffectKindView,
)
    ensures
        match first_match(candidates, mode, kind) {
            Some(i) => {
                &&& 0 <= i < candidates.len()
                &&& candidates[i].is_match(mode, kind)
                &&& forall|j: int| 0 <= j < i ==> !(#[trigger] candidates[j]).is_match(mode, kind)
            },
            None => forall|j: int|
                0 <= j < candidates.len() ==> !(#[trigger] candidates[j]).is_match(mode, kind),
        },
    decreases candidates.len(),
{
    if candidates.len() > 0 {
        let front = candidates.drop_last();
        lemma_first_match(front, mode, kind);
        assert forall|j: int| 0 <= j < front.len() implies front[j] == candidates[j] by {}
        if first_match(front, mode, kind) is None {
            assert forall|j: int| 0 <= j < front.len() implies !(#[trigger] candidates[j]).is_match(
                mode,
                kind,
            ) by {
                assert(front[j] == candidates[j]);
            }
        }
    }
}

/// A position that matches, with none before it that does, is the first match.
pub proof fn lemma_first_match_is(
    candidates: Seq<CandidateView>,
    mode: EffectMode,
    kind: EffectKindView,
    i: int,
)
    requires
        0 <= i < candidates.len(),
        candidates[i].is_match(mode, kind),
        forall|j: int| 0 <= j < i ==> !(#[trigger] candidates[j]).is_match(mode, kind),
    ensures
        first_match(candidates, mode, kind) == Some(i),
{
    lemma_first_match(candidates, mode, kind);
}

/// Where nothing matches, there is no first match.
pub proof fn lemma_first_match_none(
    candidates: Seq<CandidateView>,
    mode: EffectMode,
    kind: EffectKindView,
)
    requires
        forall|j: int|
            0 <= j < candidates.len() ==> !(#[trigger] candidates[j]).is_match(mode, kind),
    ensures
        first_match(candidates, mode, kind) is None,
{
    lemma_first_match(candidates, mode, kind);
}

/// Finds the first candidate that a new effect of the given mode and kind collides with.
pub fn find_match(candidates: &Vec<Candidate>, mode: EffectMode, kind: &EffectKind) -> (r: Option<
    usize,
>)
    ensures
        match r {
            Some(i) => first_match(candidate_views(candidates@), mode, kind@) == Some(i as int),
            None => first_match(candidate_views(candidates@), mode, kind@) is None,
        },
        match r {
            Some(i) => {
                &&& i < candidates.len()
                &&& candidates[i as int]@.is_match(mode, kind@)
                &&& forall|j: int| 0 <= j < i ==> !(#[trigger] candidates[j])@.is_match(mode, kind@)
            },
            None => forall|j: int|
                0 <= j < candidates.len() ==> !(#[trigger] candidates[j])@.is_match(mode, kind@),
        },
{
    let ghost views = candidate_views(candidates@);
    let mut i: usize = 0;
    while i < candidates.len()
        invariant
            i <= candidates.len(),
            views == candidate_views(candidates@),
            forall|j: int| 0 <= j < i ==> !(#[trigger] candidates[j])@.is_match(mode, kind@),
        decreases candidates.len() - i,
    {
        let candidate = &candidates[i];
        if candidate.mode == mode && candidate.kind.matches(kind) {
            proof {
                lemma_first_match_is(views, mode, kind@, i as int);
            }
            return Some(i);
        }
        i = i + 1;
    }
    proof {
        lemma_first_match_none(views, mode, kind@);
    }
    None
}

/// What the resolver decides for a new effect.
#[derive(PartialEq, Eq, Structural, Debug, Copy, Clone)]
pub enum Resolution {
    /// The new effect stands beside whatever is there.
    StandAlone,
    /// The new effect collides with the candidate at this position.
    Collide(usize),
}

/// What the resolver decides for a new effect of the given mode and kind, where
/// `candidates` are the effects on its target, or `None` where the target has none or is
/// gone.
pub open spec fn resolution(
    mode: EffectMode,
    kind: EffectKindView,
    candidates: Option<Seq<CandidateView>>,
) -> Option<int> {
    match candidates {
        Some(candidates) if mode != EffectMode::Stack => first_match(candidates, mode, kind),
        _ => None,
    }
}

/// Decides what a new effect of the given mode and kind does.
///
/// A stacking effect always stands alone, and so does any effect on a target without
/// effects. Any other effect collides with the first effect of its own mode and kind, and
/// stands alone where there is none.
pub fn resolve(mode: EffectMode, kind: &EffectKind, candidates: Option<&Vec<Candidate>>) -> (r:
    Resolution)
    ensures
        match resolution(
            mode,
            kind@,
            match candidates {
                Some(c) => Some(candidate_views(c@)),
                None => None,
            },
        ) {
            Some(i) => r == Resolution::Collide(i as usize) && 0 <= i < candidates.unwrap().len(),
            None => r == Resolution::StandAlone,
        },
{
    if mode == EffectMode::Stack {
        return Resolution::StandAlone;
    }
    match candidates {
        None => Resolution::StandAlone,
        Some(candidates) => match find_match(candidates, mode, kind) {
            Some(i) => Resolution::Collide(i),
            None => Resolution::StandAlone,
        },
    }
}

/// The timer that a new effect goes on with after a collision, where `new` is its own
/// timer and `old` the timer of the effect it collided with. Only in `Merge` mode, and only
/// where both effects carry the timer, does the old timer count.
pub open spec fn reconciled(
    mode: EffectMode,
    new: Option<EffectTimerView>,
    old: Option<EffectTimerView>,
) -> Option<EffectTimerView> {
    match (new, old) {
        (Some(n), Some(o)) => Some(
            if mode == EffectMode::Merge {
                n.merge(o)
            } else {
                n
            },
        ),
        (Some(n), None) => Some(n),
        (None, _) => None,
    }
}

/// What a collision does to a timer of the new effect, where `new` is its own timer and
/// `old` the same timer of the effect it collided with.
pub open spec fn reconciled_outcome(
    mode: EffectMode,
    new: Option<EffectTimerView>,
    old: Option<EffectTimerView>,
) -> MergeOutcome {
    match (new, old) {
        (Some(n), Some(o)) if mode == EffectMode::Merge => n.timer.merge_outcome(o.timer, n.mode),
        _ => MergeOutcome::KeepNew,
    }
}

/// A timer of either kind, if there is one, as a mathematical value.
pub open spec fn timer_model<T: EffectTimer>(timer: Option<T>) -> Option<EffectTimerView> {
    match timer {
        Some(t) => Some(t.model()),
        None => None,
    }
}

/// Decides what a collision does to a timer of the new effect. Only in `Merge` mode, and
/// only where both effects carry the timer, is it anything but to keep the new timer.
pub fn reconcile_outcome<T: EffectTimer>(mode: EffectMode, new: Option<&T>, old: Option<&T>) -> (r:
    MergeOutcome)
    ensures
        r == reconciled_outcome(
            mode,
            match new {
                Some(n) => Some(n.model()),
                None => None,
            },
            match old {
                Some(o) => Some(o.model()),
                None => None,
            },
        ),
{
    if mode == EffectMode::Merge {
        if let Some(new_timer) = new {
            if let Some(old_timer) = old {
                return new_timer.merge_outcome(old_timer);
            }
        }
    }
    MergeOutcome::KeepNew
}

/// What a collision does to a timer of the new effect, from what the clocks count. The new
/// effect's clock is given as the time elapsed and the duration, and so is the clock of the
/// same timer of the old effect, if it carries one.
pub open spec fn reconciled_clocks(
    mode: EffectMode,
    merge_mode: TimerMergeMode,
    new: (u64, u64),
    old: Option<(u64, u64)>,
) -> MergeOutcome {
    match old {
        Some(o) if mode == EffectMode::Merge => TimerView::counting(
            new.0 as nat,
            new.1 as nat,
        ).merge_outcome(TimerView::counting(o.0 as nat, o.1 as nat), merge_mode),
        _ => MergeOutcome::KeepNew,
    }
}

/// Decides what a collision does to a timer of the new effect, from what the clocks count:
/// see [`merge_clocks`]. Only in `Merge` mode, and only where the old effect carries the
/// timer too, is it anything but to keep the new timer.
pub fn reconcile_clocks(
    mode: EffectMode,
    merge_mode: TimerMergeMode,
    new: (u64, u64),
    old: Option<(u64, u64)>,
) -> (r: MergeOutcome)
    ensures
        r == reconciled_clocks(mode, merge_mode, new, old),
{
    if mode == EffectMode::Merge {
        if let Some(old_clock) = old {
            return merge_clocks(new, old_clock, merge_mode);
        }
    }
    MergeOutcome::KeepNew
}

/// Whether a new effect of this mode is resolved against the effects on its target at all:
/// a stacking effect is not.
pub fn scans(mode: EffectMode) -> (r: bool)
    ensures
        r == (mode != EffectMode::Stack),
        !r ==> forall|kind: EffectKindView, candidates: Option<Seq<CandidateView>>|
            #[trigger] resolution(mode, kind, candidates) is None,
{
    mode != EffectMode::Stack
}

/// To decide from what the clocks of two timers count is to decide from the timers.
pub proof fn lemma_reconciled_clocks(
    mode: EffectMode,
    new: EffectTimerView,
    old: Option<EffectTimerView>,
)
    requires
        new.timer.wf(),
        new.timer.duration <= u64::MAX,
        old matches Some(o) ==> o.timer.wf() && o.timer.duration <= u64::MAX,
    ensures
        reconciled_clocks(
            mode,
            new.mode,
            (new.timer.elapsed as u64, new.timer.duration as u64),
            match old {
                Some(o) => Some((o.timer.elapsed as u64, o.timer.duration as u64)),
                None => None,
            },
        ) == reconciled_outcome(mode, Some(new), old),
{
}

/// The outcome that is decided for a timer is what reconciling does to it.
pub proof fn lemma_reconciled_outcome(
    mode: EffectMode,
    new: EffectTimerView,
    old: Option<EffectTimerView>,
)
    requires
        new.timer.wf(),
        new.timer.duration <= u64::MAX,
        old matches Some(o) ==> o.timer.wf(),
    ensures
        reconciled(mode, Some(new), old) == Some(
            EffectTimerView {
                timer: reconciled_outcome(mode, Some(new), old).applied(
                    new.timer,
                    match old {
                        Some(o) => o.timer,
                        None => new.timer,
                    },
                ),
                mode: new.mode,
            },
        ),
{
    if let Some(o) = old {
        crate::timer::lemma_fraction_bounded(o.timer.elapsed, o.timer.duration, new.timer.duration);
    }
}

/// Reconciles a timer of a new effect with the same timer of the effect it collided with.
pub fn reconcile<T: EffectTimer>(mode: EffectMode, new: Option<T>, old: Option<&T>) -> (r: Option<
    T,
>)
    ensures
        timer_model(r) == reconciled(
            mode,
            timer_model(new),
            match old {
                Some(o) => Some(o.model()),
                None => None,
            },
        ),
{
    match new {
        Some(timer) => {
            let mut timer = timer;
            if mode == EffectMode::Merge {
                if let Some(old_timer) = old {
                    timer.merge(old_timer);
                }
            }
            Some(timer)
        },
        None => None,
    }
}

} // verus!
