//! The hatch observation session: the blinks recorded so far, the
//! candidates they leave, and the SFMT position the predicted blinks have
//! reached. Clock readings and sounds stay with the caller, which hands in
//! each interval in display frames and the cache values to match against.

use vstd::prelude::*;
use crate::encounter::blink_interval_ticks;
use crate::field::MAX_BLINK_OBSERVATIONS;
use crate::field_session::MIN_BLINK_INTERVALS;
use crate::hatch_match::{auto_tolerance, candidates_of, matches_at, rematch_with_auto_tolerance, starting_tolerance};
use crate::state_types::{Mode, TimelineCandidate};

verus! {

/// What the session holds besides clock readings.
#[derive(Clone, Debug)]
pub struct ObservationSession {
    pub mode: Mode,
    /// Blinks recorded; the first one is only the reference.
    pub blinks: usize,
    /// Intervals between consecutive recorded blinks, in display frames.
    pub intervals: Vec<i64>,
    pub candidates: Vec<TimelineCandidate>,
    pub selected: usize,
    /// The tolerance the last match used.
    pub match_tolerance: i64,
    /// The last match found no start at the widest tolerance.
    pub search_exhausted: bool,
    /// The SFMT position of the next predicted blink, once scheduled.
    pub next_blink_index: Option<i64>,
}

/// What a recorded blink leads to.
#[derive(Clone, Copy, Debug, PartialEq, Eq, Structural)]
pub enum ObserveStep {
    /// The session is not observing: nothing is recorded.
    Ignored,
    /// `MAX_BLINK_OBSERVATIONS` blinks are recorded already.
    Full,
    /// The first blink only sets the reference.
    Reference,
    /// Fewer than `MIN_BLINK_INTERVALS` intervals: wait for more blinks.
    WaitForBlinks,
    /// The observation cache is not ready yet.
    WaitForTimeline,
    /// Enough intervals and a cache: match them now.
    MatchDue,
}

/// The outcome of matching the recorded intervals.
#[derive(Clone, Copy, Debug, PartialEq, Eq, Structural)]
pub enum MatchOutcome {
    /// No start matched, even at the given (widest reached) tolerance.
    NotFound { tolerance: i64 },
    /// Exactly one start matched: the timeline is settled.
    Settled,
    /// Several starts matched at the given tolerance.
    Narrowing { count: usize, tolerance: i64 },
}

/// What advancing the predicted blink did.
#[derive(Clone, Copy, Debug, PartialEq, Eq, Structural)]
pub enum PredictionStep {
    /// No prediction is running any more.
    Stopped,
    /// The prediction restarts from the selected candidate's next blink.
    Rescheduled,
    /// The prediction moved one position on; the blink after it comes
    /// `interval_ticks` checks later.
    Advanced { interval_ticks: u64 },
}

/// Everything but the listed observation fields is the same.
pub open spec fn same_session(a: ObservationSession, b: ObservationSession) -> bool {
    &&& a.mode == b.mode
    &&& a.blinks == b.blinks
    &&& a.intervals@ == b.intervals@
    &&& a.candidates@ == b.candidates@
    &&& a.selected == b.selected
    &&& a.match_tolerance == b.match_tolerance
    &&& a.search_exhausted == b.search_exhausted
    &&& a.next_blink_index == b.next_blink_index
}

/// A session with nothing recorded, in `mode`, the tolerance back at the
/// configured one.
pub open spec fn fresh_session(s: ObservationSession, mode: Mode, configured_tolerance: i64) -> bool {
    &&& s.mode == mode
    &&& s.blinks == 0
    &&& s.intervals@.len() == 0
    &&& s.candidates@.len() == 0
    &&& s.selected == 0
    &&& s.match_tolerance == configured_tolerance
    &&& !s.search_exhausted
    &&& s.next_blink_index is None
}

/// The position the hatch table follows: the predicted blink position of
/// the only candidate, or its first position while no blink was predicted.
pub open spec fn display_position_spec(s: ObservationSession) -> Option<i64> {
    if s.candidates@.len() != 1 || s.selected >= s.candidates@.len() {
        None
    } else {
        match s.next_blink_index {
            Some(i) => Some(i),
            None => Some(s.candidates@[s.selected as int].sfmt_position),
        }
    }
}

/// A position one after `i`, saturating.
pub open spec fn next_position(i: i64) -> i64 {
    if i == i64::MAX { i } else { (i + 1) as i64 }
}

/// The position each candidate is judged at: the selected one where its
/// predicted blink has reached, the others at their first position.
pub open spec fn candidate_position_spec(s: ObservationSession, index: int) -> i64 {
    if index == s.selected {
        match s.next_blink_index {
            Some(i) => i,
            None => s.candidates@[index].sfmt_position,
        }
    } else {
        s.candidates@[index].sfmt_position
    }
}

/// `c` with its reachability set to `reachable`.
pub open spec fn with_reachability(c: TimelineCandidate, reachable: bool) -> TimelineCandidate {
    TimelineCandidate { target_reachable: reachable, ..c }
}

/// The candidates after applying the reachability answers in order; an
/// answer for a row that does not exist is skipped.
pub open spec fn applied_reachability(cands: Seq<TimelineCandidate>, results: Seq<(usize, bool)>) -> Seq<
    TimelineCandidate,
>
    decreases results.len(),
{
    if results.len() == 0 {
        cands
    } else {
        let prev = applied_reachability(cands, results.drop_last());
        let (p, reachable) = results.last();
        if (p as int) < prev.len() {
            prev.update(p as int, with_reachability(prev[p as int], reachable))
        } else {
            prev
        }
    }
}

impl ObservationSession {
    /// A session that starts observing.
    pub fn start(configured_tolerance: i64) -> (r: Self)
        ensures
            fresh_session(r, Mode::Observing, configured_tolerance),
    {
        ObservationSession {
            mode: Mode::Observing,
            blinks: 0,
            intervals: Vec::new(),
            candidates: Vec::new(),
            selected: 0,
            match_tolerance: configured_tolerance,
            search_exhausted: false,
            next_blink_index: None,
        }
    }

    /// Cancels the observation: idle, with everything recorded dropped.
    pub fn cancel(&mut self, configured_tolerance: i64)
        ensures
            fresh_session(*final(self), Mode::Idle, configured_tolerance),
    {
        *self = ObservationSession {
            mode: Mode::Idle,
            blinks: 0,
            intervals: Vec::new(),
            candidates: Vec::new(),
            selected: 0,
            match_tolerance: configured_tolerance,
            search_exhausted: false,
            next_blink_index: None,
        };
    }

    /// A new observation cache makes the earlier candidates meaningless:
    /// they are dropped with the selection and the predicted blink; the
    /// recorded blinks stay, to be matched again.
    pub fn forget_candidates(&mut self)
        ensures
            final(self).candidates@.len() == 0,
            final(self).selected == 0,
            final(self).next_blink_index is None,
            final(self).mode == old(self).mode,
            final(self).blinks == old(self).blinks,
            final(self).intervals@ == old(self).intervals@,
            final(self).match_tolerance == old(self).match_tolerance,
            final(self).search_exhausted == old(self).search_exhausted,
    {
        self.candidates = Vec::new();
        self.selected = 0;
        self.next_blink_index = None;
    }

    /// Records a blink seen `interval_frames` display frames after the
    /// previous one (ignored for the first blink), and says what comes next.
    /// Waiting steps clear the candidates.
    pub fn observe(&mut self, interval_frames: i64, cache_ready: bool) -> (r: ObserveStep)
        ensures
            old(self).mode != Mode::Observing ==> r == ObserveStep::Ignored && same_session(*final(self), *old(self)),
            old(self).mode == Mode::Observing && old(self).blinks >= MAX_BLINK_OBSERVATIONS ==> r == ObserveStep::Full
                && same_session(*final(self), *old(self)),
            old(self).mode == Mode::Observing && old(self).blinks < MAX_BLINK_OBSERVATIONS ==> {
                let intervals = if old(self).blinks > 0 {
                    old(self).intervals@.push(interval_frames)
                } else {
                    old(self).intervals@
                };
                &&& final(self).blinks == old(self).blinks + 1
                &&& final(self).intervals@ == intervals
                &&& final(self).mode == old(self).mode
                &&& final(self).selected == old(self).selected
                &&& final(self).match_tolerance == old(self).match_tolerance
                &&& final(self).next_blink_index == old(self).next_blink_index
                &&& if intervals.len() == 0 {
                    &&& r == ObserveStep::Reference
                    &&& final(self).candidates@ == old(self).candidates@
                    &&& final(self).search_exhausted == old(self).search_exhausted
                } else if intervals.len() < MIN_BLINK_INTERVALS || !cache_ready {
                    &&& r == (if intervals.len() < MIN_BLINK_INTERVALS {
                        ObserveStep::WaitForBlinks
                    } else {
                        ObserveStep::WaitForTimeline
                    })
                    &&& final(self).candidates@.len() == 0
                    &&& !final(self).search_exhausted
                } else {
                    &&& r == ObserveStep::MatchDue
                    &&& final(self).candidates@ == old(self).candidates@
                    &&& final(self).search_exhausted == old(self).search_exhausted
                }
            },
    {
        if self.mode != Mode::Observing {
            return ObserveStep::Ignored;
        }
        if self.blinks >= MAX_BLINK_OBSERVATIONS {
            return ObserveStep::Full;
        }
        if self.blinks > 0 {
            self.intervals.push(interval_frames);
        }
        self.blinks = self.blinks + 1;
        if self.intervals.len() == 0 {
            return ObserveStep::Reference;
        }
        self.waiting_step(cache_ready)
    }

    /// Whether the recorded intervals can be matched now; the waiting steps
    /// clear the candidates.
    fn waiting_step(&mut self, cache_ready: bool) -> (r: ObserveStep)
        ensures
            final(self).mode == old(self).mode,
            final(self).blinks == old(self).blinks,
            final(self).intervals@ == old(self).intervals@,
            final(self).selected == old(self).selected,
            final(self).match_tolerance == old(self).match_tolerance,
            final(self).next_blink_index == old(self).next_blink_index,
            if old(self).intervals@.len() < MIN_BLINK_INTERVALS || !cache_ready {
                &&& r == (if old(self).intervals@.len() < MIN_BLINK_INTERVALS {
                    ObserveStep::WaitForBlinks
                } else {
                    ObserveStep::WaitForTimeline
                })
                &&& final(self).candidates@.len() == 0
                &&& !final(self).search_exhausted
            } else {
                &&& r == ObserveStep::MatchDue
                &&& final(self).candidates@ == old(self).candidates@
                &&& final(self).search_exhausted == old(self).search_exhausted
            },
    {
        if self.intervals.len() < MIN_BLINK_INTERVALS {
            self.candidates = Vec::new();
            self.search_exhausted = false;
            return ObserveStep::WaitForBlinks;
        }
        if !cache_ready {
            self.candidates = Vec::new();
            self.search_exhausted = false;
            return ObserveStep::WaitForTimeline;
        }
        ObserveStep::MatchDue
    }

    /// After the observation cache became ready: whether the intervals
    /// recorded meanwhile can be matched now.
    pub fn rematch_observations(&mut self, cache_ready: bool) -> (r: ObserveStep)
        ensures
            old(self).mode != Mode::Observing ==> r == ObserveStep::Ignored && same_session(*final(self), *old(self)),
            old(self).mode == Mode::Observing ==> {
                &&& final(self).mode == old(self).mode
                &&& final(self).blinks == old(self).blinks
                &&& final(self).intervals@ == old(self).intervals@
                &&& final(self).selected == old(self).selected
                &&& final(self).match_tolerance == old(self).match_tolerance
                &&& final(self).next_blink_index == old(self).next_blink_index
                &&& if old(self).intervals@.len() < MIN_BLINK_INTERVALS || !cache_ready {
                    &&& r == (if old(self).intervals@.len() < MIN_BLINK_INTERVALS {
                        ObserveStep::WaitForBlinks
                    } else {
                        ObserveStep::WaitForTimeline
                    })
                    &&& final(self).candidates@.len() == 0
                    &&& !final(self).search_exhausted
                } else {
                    &&& r == ObserveStep::MatchDue
                    &&& final(self).candidates@ == old(self).candidates@
                    &&& final(self).search_exhausted == old(self).search_exhausted
                }
            },
    {
        if self.mode != Mode::Observing {
            return ObserveStep::Ignored;
        }
        self.waiting_step(cache_ready)
    }

    /// Matches the recorded intervals against the cache values `values`
    /// (the first at absolute position `base`), widening the tolerance from
    /// the last one used (or the configured one, when wider). The first
    /// candidate is selected; a single candidate settles the timeline and
    /// schedules its next blink, otherwise no blink is scheduled.
    pub fn rematch(&mut self, values: &[u64], base: i64, configured_tolerance: i64) -> (r: MatchOutcome)
        requires
            old(self).blinks > 0,
            0 <= base,
            base + values@.len() <= i64::MAX,
        ensures
            ({
                let t = auto_tolerance(
                    values@,
                    base as int,
                    old(self).intervals@,
                    starting_tolerance(old(self).match_tolerance, configured_tolerance),
                );
                let found = candidates_of(matches_at(values@, base as int, old(self).intervals@, t));
                &&& final(self).candidates@ == found
                &&& final(self).match_tolerance == t
                &&& final(self).search_exhausted == (found.len() == 0)
                &&& final(self).selected == 0
                &&& final(self).blinks == old(self).blinks
                &&& final(self).intervals@ == old(self).intervals@
                &&& final(self).mode == (if found.len() == 1 { Mode::Ready } else { old(self).mode })
                &&& final(self).next_blink_index == (if found.len() == 1 {
                    Some(found[0].sfmt_position)
                } else {
                    None
                })
                &&& r == (if found.len() == 0 {
                    MatchOutcome::NotFound { tolerance: t }
                } else if found.len() == 1 {
                    MatchOutcome::Settled
                } else {
                    MatchOutcome::Narrowing { count: found.len() as usize, tolerance: t }
                })
            }),
    {
        let (found, tolerance) = rematch_with_auto_tolerance(
            values,
            base,
            self.intervals.as_slice(),
            self.match_tolerance,
            configured_tolerance,
        );
        let count = found.len();
        self.candidates = found;
        self.match_tolerance = tolerance;
        self.search_exhausted = count == 0;
        self.selected = 0;
        if count == 1 {
            self.mode = Mode::Ready;
            self.next_blink_index = Some(self.candidates[0].sfmt_position);
            MatchOutcome::Settled
        } else {
            self.next_blink_index = None;
            if count == 0 {
                MatchOutcome::NotFound { tolerance }
            } else {
                MatchOutcome::Narrowing { count, tolerance }
            }
        }
    }

    /// The position whose cache value gives the interval after the current
    /// predicted blink: one after it, while a candidate is selected and a
    /// blink is predicted.
    pub fn next_prediction_position(&self) -> (r: Option<i64>)
        ensures
            r == (if self.selected < self.candidates@.len() && self.next_blink_index is Some {
                Some(next_position(self.next_blink_index->0))
            } else {
                None
            }),
    {
        if self.selected >= self.candidates.len() {
            return None;
        }
        match self.next_blink_index {
            Some(i) => Some(if i == i64::MAX { i } else { i + 1 }),
            None => None,
        }
    }

    /// Moves the predicted blink on after it sounded. `next_value` is the
    /// cache value at `next_prediction_position()`, when it could be read.
    /// Without a selected candidate, or without that value, the prediction
    /// stops; with no blink predicted yet, it restarts from the only
    /// candidate's next blink, once a blink was recorded.
    pub fn advance_predicted_blink(&mut self, next_value: Option<u64>) -> (r: PredictionStep)
        ensures
            final(self).mode == old(self).mode,
            final(self).blinks == old(self).blinks,
            final(self).intervals@ == old(self).intervals@,
            final(self).candidates@ == old(self).candidates@,
            final(self).selected == old(self).selected,
            final(self).match_tolerance == old(self).match_tolerance,
            final(self).search_exhausted == old(self).search_exhausted,
            old(self).selected >= old(self).candidates@.len() ==> r == PredictionStep::Stopped
                && final(self).next_blink_index is None,
            old(self).selected < old(self).candidates@.len() && old(self).next_blink_index is None ==> {
                let c = old(self).candidates@[old(self).selected as int];
                if old(self).candidates@.len() == 1 && old(self).blinks > 0 && c.next_blink_ticks is Some {
                    r == PredictionStep::Rescheduled && final(self).next_blink_index == Some(c.sfmt_position)
                } else {
                    r == PredictionStep::Stopped && final(self).next_blink_index is None
                }
            },
            old(self).selected < old(self).candidates@.len() && old(self).next_blink_index is Some ==> match next_value {
                Some(v) => r == PredictionStep::Advanced { interval_ticks: (v % 120 + 130) as u64 }
                    && final(self).next_blink_index == Some(next_position(old(self).next_blink_index->0)),
                None => r == PredictionStep::Stopped && final(self).next_blink_index is None,
            },
    {
        if self.selected >= self.candidates.len() {
            self.next_blink_index = None;
            return PredictionStep::Stopped;
        }
        match self.next_blink_index {
            None => {
                let c = self.candidates[self.selected];
                if self.candidates.len() == 1 && self.blinks > 0 && c.next_blink_ticks.is_some() {
                    self.next_blink_index = Some(c.sfmt_position);
                    PredictionStep::Rescheduled
                } else {
                    PredictionStep::Stopped
                }
            },
            Some(i) => match next_value {
                Some(v) => {
                    self.next_blink_index = Some(if i == i64::MAX { i } else { i + 1 });
                    PredictionStep::Advanced { interval_ticks: blink_interval_ticks(v) }
                },
                None => {
                    self.next_blink_index = None;
                    PredictionStep::Stopped
                },
            },
        }
    }

    /// The positions the candidates are judged at, with their row numbers;
    /// see `candidate_position_spec`.
    pub fn candidate_positions(&self) -> (r: Vec<(usize, i64)>)
        ensures
            r@.len() == self.candidates@.len(),
            forall|i: int| 0 <= i < r@.len() ==> #[trigger] r@[i] == (i as usize, candidate_position_spec(*self, i)),
    {
        let mut out: Vec<(usize, i64)> = Vec::new();
        let mut i: usize = 0;
        while i < self.candidates.len()
            invariant
                i <= self.candidates@.len(),
                out@.len() == i,
                forall|j: int| 0 <= j < i ==> #[trigger] out@[j] == (j as usize, candidate_position_spec(*self, j)),
            decreases self.candidates@.len() - i,
        {
            let c = self.candidates[i];
            let position = if i == self.selected {
                match self.next_blink_index {
                    Some(p) => p,
                    None => c.sfmt_position,
                }
            } else {
                c.sfmt_position
            };
            out.push((i, position));
            i = i + 1;
        }
        out
    }

    /// After the selected candidate's production run was worked out: only
    /// the selected candidate may show as reaching the target, and only when
    /// its run does; the others wait for their own answers.
    pub fn mark_selected_reachability(&mut self, selected_reachable: bool)
        ensures
            final(self).candidates@.len() == old(self).candidates@.len(),
            forall|i: int|
                0 <= i < old(self).candidates@.len() ==> #[trigger] final(self).candidates@[i] == with_reachability(
                    old(self).candidates@[i],
                    i == old(self).selected && selected_reachable,
                ),
            final(self).mode == old(self).mode,
            final(self).blinks == old(self).blinks,
            final(self).intervals@ == old(self).intervals@,
            final(self).selected == old(self).selected,
            final(self).match_tolerance == old(self).match_tolerance,
            final(self).search_exhausted == old(self).search_exhausted,
            final(self).next_blink_index == old(self).next_blink_index,
    {
        let mut i: usize = 0;
        while i < self.candidates.len()
            invariant
                i <= self.candidates@.len(),
                self.candidates@.len() == old(self).candidates@.len(),
                self.selected == old(self).selected,
                forall|j: int|
                    0 <= j < i ==> #[trigger] self.candidates@[j] == with_reachability(
                        old(self).candidates@[j],
                        j == old(self).selected && selected_reachable,
                    ),
                forall|j: int| i <= j < self.candidates@.len() ==> #[trigger] self.candidates@[j] == old(self).candidates@[j],
                self.mode == old(self).mode,
                self.blinks == old(self).blinks,
                self.intervals@ == old(self).intervals@,
                self.match_tolerance == old(self).match_tolerance,
                self.search_exhausted == old(self).search_exhausted,
                self.next_blink_index == old(self).next_blink_index,
            decreases self.candidates@.len() - i,
        {
            let mut c = self.candidates[i];
            c.target_reachable = i == self.selected && selected_reachable;
            self.candidates.set(i, c);
            i = i + 1;
        }
    }

    /// Applies the answers of a candidate reachability request, in order.
    pub fn apply_candidate_reachability(&mut self, results: &[(usize, bool)])
        ensures
            final(self).candidates@ == applied_reachability(old(self).candidates@, results@),
            final(self).mode == old(self).mode,
            final(self).blinks == old(self).blinks,
            final(self).intervals@ == old(self).intervals@,
            final(self).selected == old(self).selected,
            final(self).match_tolerance == old(self).match_tolerance,
            final(self).search_exhausted == old(self).search_exhausted,
            final(self).next_blink_index == old(self).next_blink_index,
    {
        let mut i: usize = 0;
        while i < results.len()
            invariant
                i <= results@.len(),
                self.candidates@ == applied_reachability(old(self).candidates@, results@.subrange(0, i as int)),
                self.mode == old(self).mode,
                self.blinks == old(self).blinks,
                self.intervals@ == old(self).intervals@,
                self.selected == old(self).selected,
                self.match_tolerance == old(self).match_tolerance,
                self.search_exhausted == old(self).search_exhausted,
                self.next_blink_index == old(self).next_blink_index,
            decreases results@.len() - i,
        {
            let (p, reachable) = results[i];
            proof {
                assert(results@.subrange(0, i + 1).drop_last() =~= results@.subrange(0, i as int));
                assert(results@.subrange(0, i + 1).last() == results@[i as int]);
            }
            if p < self.candidates.len() {
                let mut c = self.candidates[p];
                c.target_reachable = reachable;
                self.candidates.set(p, c);
            }
            i = i + 1;
        }
        proof {
            assert(results@.subrange(0, results@.len() as int) =~= results@);
        }
    }

    /// The position the hatch table and guidance follow; see
    /// `display_position_spec`.
    pub fn timeline_display_position(&self) -> (r: Option<i64>)
        ensures
            r == display_position_spec(*self),
    {
        if self.candidates.len() != 1 || self.selected >= self.candidates.len() {
            return None;
        }
        match self.next_blink_index {
            Some(i) => Some(i),
            None => Some(self.candidates[self.selected].sfmt_position),
        }
    }
}

} // verus!
