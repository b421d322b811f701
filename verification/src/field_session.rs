//! The phase rules of a field observation session: which phase a session is
//! in and what the user may edit or start there.

use vstd::prelude::*;
use crate::state_types::SessionPhase;
use crate::text::{parsed_i64, trimmed, trim_text, parse_i64};
use crate::field::{MAX_BLINK_OBSERVATIONS, MAX_SEARCH_FRAME, MAX_SEARCH_SPAN};
use crate::field_target::clamp_i64;
use crate::field_types::{FieldResult, FieldTargetMode, FieldTimelineRow, same_untargeted};
use crate::field_target::saturating_sub_i64;

verus! {

#[derive(Clone, Copy, Debug, PartialEq, Eq, Structural)]
pub enum FieldMode {
    Idle,
    Observing,
    Correction,
}

#[derive(Clone, Copy, Debug, PartialEq, Eq, Structural)]
pub enum FieldTimerKind {
    NextBlink,
    Target,
}

/// The phase of a field session: correction first, then a running or
/// finished timer, then observing, then a unique candidate, else input.
pub open spec fn field_phase_spec(
    mode: FieldMode,
    timer_running: bool,
    timer_finished: bool,
    result_count: nat,
) -> SessionPhase {
    if mode == FieldMode::Correction {
        SessionPhase::Correction
    } else if timer_running || timer_finished {
        SessionPhase::Timer
    } else if mode == FieldMode::Observing {
        SessionPhase::Observing
    } else if result_count == 1 {
        SessionPhase::TimelineReady
    } else {
        SessionPhase::Input
    }
}

pub fn field_session_phase(
    mode: FieldMode,
    timer_running: bool,
    timer_finished: bool,
    result_count: usize,
) -> (r: SessionPhase)
    ensures
        r == field_phase_spec(mode, timer_running, timer_finished, result_count as nat),
{
    match mode {
        FieldMode::Correction => SessionPhase::Correction,
        _ => {
            if timer_running || timer_finished {
                SessionPhase::Timer
            } else {
                match mode {
                    FieldMode::Observing => SessionPhase::Observing,
                    _ => {
                        if result_count == 1 {
                            SessionPhase::TimelineReady
                        } else {
                            SessionPhase::Input
                        }
                    },
                }
            }
        },
    }
}

/// General settings stay editable until a timer runs or a correction starts.
pub fn can_edit_general_settings(phase: SessionPhase) -> (r: bool)
    ensures
        r == (phase == SessionPhase::Input || phase == SessionPhase::Observing || phase
            == SessionPhase::TimelineReady),
{
    match phase {
        SessionPhase::Input | SessionPhase::Observing | SessionPhase::TimelineReady => true,
        _ => false,
    }
}

/// Range, tolerance and observed model are fixed once observing starts.
pub fn can_edit_observation_settings(phase: SessionPhase) -> (r: bool)
    ensures
        r == (phase == SessionPhase::Input),
{
    match phase {
        SessionPhase::Input => true,
        _ => false,
    }
}

pub fn can_edit_correction_inputs(phase: SessionPhase) -> (r: bool)
    ensures
        r == (phase == SessionPhase::Correction),
{
    match phase {
        SessionPhase::Correction => true,
        _ => false,
    }
}

/// A timer can start only from a unique candidate.
pub fn can_start_timer(phase: SessionPhase) -> (r: bool)
    ensures
        r == (phase == SessionPhase::TimelineReady),
{
    match phase {
        SessionPhase::TimelineReady => true,
        _ => false,
    }
}

/// The target stays editable until the user explicitly enters correction.
pub fn can_edit_target(mode: FieldMode, target_input_locked: bool) -> (r: bool)
    ensures
        r == (!target_input_locked && mode != FieldMode::Correction),
{
    !target_input_locked && match mode {
        FieldMode::Correction => false,
        _ => true,
    }
}

/// New blink observations are accepted while observing, unless the search
/// has already narrowed the candidates to one.
pub fn is_observation_input_enabled(mode: FieldMode, result_count: usize) -> (r: bool)
    ensures
        r == (mode == FieldMode::Observing && result_count != 1),
{
    match mode {
        FieldMode::Observing => result_count != 1,
        _ => false,
    }
}

/// Blink intervals needed before a search can run.
pub const MIN_BLINK_INTERVALS: usize = 2;

/// The blinks of a field observation: how many were recorded, and the
/// intervals between them in display frames. Clock readings stay with the
/// caller.
#[derive(Clone, Debug)]
pub struct FieldObservation {
    pub blinks: usize,
    pub intervals: Vec<i64>,
}

/// What pressing the blink key did.
#[derive(Clone, Copy, Debug, PartialEq, Eq, Structural)]
pub enum FieldBlinkStep {
    /// Observation input is not enabled: nothing is recorded.
    Ignored,
    /// `MAX_BLINK_OBSERVATIONS` blinks are recorded already.
    Full,
    /// The blink was recorded (with its interval after the first).
    Recorded,
}

impl FieldObservation {
    pub fn new() -> (r: Self)
        ensures
            r.blinks == 0,
            r.intervals@.len() == 0,
    {
        FieldObservation { blinks: 0, intervals: Vec::new() }
    }

    /// Records a blink seen `interval_frames` display frames after the
    /// previous one (the first blink only counts), while observation input
    /// is enabled and fewer than `MAX_BLINK_OBSERVATIONS` were recorded.
    pub fn observe(&mut self, mode: FieldMode, result_count: usize, interval_frames: i64) -> (r: FieldBlinkStep)
        ensures
            !(mode == FieldMode::Observing && result_count != 1) ==> r == FieldBlinkStep::Ignored
                && final(self).blinks == old(self).blinks && final(self).intervals@ == old(self).intervals@,
            (mode == FieldMode::Observing && result_count != 1) && old(self).blinks >= MAX_BLINK_OBSERVATIONS ==> r
                == FieldBlinkStep::Full && final(self).blinks == old(self).blinks && final(self).intervals@ == old(
                self,
            ).intervals@,
            (mode == FieldMode::Observing && result_count != 1) && old(self).blinks < MAX_BLINK_OBSERVATIONS ==> r
                == FieldBlinkStep::Recorded && final(self).blinks == old(self).blinks + 1 && final(self).intervals@ == (
            if old(self).blinks > 0 {
                old(self).intervals@.push(interval_frames)
            } else {
                old(self).intervals@
            }),
    {
        if !is_observation_input_enabled(mode, result_count) {
            return FieldBlinkStep::Ignored;
        }
        if self.blinks >= MAX_BLINK_OBSERVATIONS {
            return FieldBlinkStep::Full;
        }
        if self.blinks > 0 {
            self.intervals.push(interval_frames);
        }
        self.blinks = self.blinks + 1;
        FieldBlinkStep::Recorded
    }
}

/// Whether a finished search may replace the candidates: a target re-search
/// is awaited, observation is under way, or the session is idle with enough
/// intervals, no candidates and no running timer (a search started before
/// the observation was cancelled is dropped).
pub fn accepts_search_result(
    target_research_pending: bool,
    mode: FieldMode,
    result_count: usize,
    interval_count: usize,
    timer_running: bool,
) -> (r: bool)
    ensures
        r == (target_research_pending || mode == FieldMode::Observing || (mode == FieldMode::Idle && result_count == 0
            && interval_count >= MIN_BLINK_INTERVALS && !timer_running)),
{
    if target_research_pending {
        return true;
    }
    match mode {
        FieldMode::Observing => true,
        FieldMode::Idle => result_count == 0 && interval_count >= MIN_BLINK_INTERVALS && !timer_running,
        FieldMode::Correction => false,
    }
}

/// The target timer can be shown once one candidate is left and it places
/// the target.
pub fn target_timer_available(result_count: usize, selected_has_target: bool) -> (r: bool)
    ensures
        r == (result_count == 1 && selected_has_target),
{
    result_count == 1 && selected_has_target
}

pub open spec fn correction_locked_message() -> Seq<char> {
    "ずれ検証中はタイマーを再開できません。リセットしてください。"@
}

pub open spec fn target_timer_unavailable_message() -> Seq<char> {
    "TargetFrameのタイマーはまだ利用できません。"@
}

/// The timer kind after a toggle: refused during correction, and towards
/// the target timer while it is not available.
pub fn toggled_timer_kind(mode: FieldMode, current: FieldTimerKind, target_available: bool) -> (r: Result<
    FieldTimerKind,
    String,
>)
    ensures
        mode == FieldMode::Correction ==> r is Err && r->Err_0@ == correction_locked_message(),
        mode != FieldMode::Correction && current == FieldTimerKind::Target ==> r == Ok::<FieldTimerKind, String>(
            FieldTimerKind::NextBlink,
        ),
        mode != FieldMode::Correction && current == FieldTimerKind::NextBlink ==> if target_available {
            r == Ok::<FieldTimerKind, String>(FieldTimerKind::Target)
        } else {
            r is Err && r->Err_0@ == target_timer_unavailable_message()
        },
{
    match mode {
        FieldMode::Correction => return Err("ずれ検証中はタイマーを再開できません。リセットしてください。".to_owned()),
        _ => {},
    }
    match current {
        FieldTimerKind::Target => Ok(FieldTimerKind::NextBlink),
        FieldTimerKind::NextBlink => if target_available {
            Ok(FieldTimerKind::Target)
        } else {
            Err("TargetFrameのタイマーはまだ利用できません。".to_owned())
        },
    }
}

/// Forgets where the target was located on every candidate, keeping all
/// else.
pub fn clear_target_fields(results: &mut Vec<FieldResult>)
    ensures
        final(results)@.len() == old(results)@.len(),
        forall|i: int| 0 <= i < final(results)@.len() ==> {
            let a = #[trigger] final(results)@[i];
            let b = old(results)@[i];
            &&& same_untargeted(a, b)
            &&& a.target_wait_frame is None
            &&& a.target_exact is None
            &&& a.target_frame_before is None
            &&& a.target_frame_after is None
            &&& a.target_blink_count is None
        },
{
    let ghost before = results@;
    let n = results.len();
    let mut out: Vec<FieldResult> = Vec::new();
    let mut i: usize = 0;
    while i < n
        invariant
            n == before.len(),
            i <= n,
            results@ == before,
            out@.len() == i,
            forall|j: int| 0 <= j < i ==> {
                let a = #[trigger] out@[j];
                let b = before[j];
                &&& same_untargeted(a, b)
                &&& a.target_wait_frame is None
                &&& a.target_exact is None
                &&& a.target_frame_before is None
                &&& a.target_frame_after is None
                &&& a.target_blink_count is None
            },
        decreases n - i,
    {
        let mut r = results[i].clone();
        r.target_wait_frame = None;
        r.target_exact = None;
        r.target_frame_before = None;
        r.target_frame_after = None;
        r.target_blink_count = None;
        out.push(r);
        i = i + 1;
    }
    *results = out;
}

/// The first start position the field timeline table can show.
pub const MIN_TIMELINE_FRAME: i64 = 477;

/// The start position the timeline table jumps to: with a known observed
/// model and a single candidate, that candidate's start when the table can
/// show it.
pub open spec fn nearest_timeline_frame_spec(target_mode: FieldTargetMode, starts: Seq<i64>) -> Option<i64> {
    if target_mode == FieldTargetMode::Known && starts.len() == 1 && starts[0] >= MIN_TIMELINE_FRAME {
        Some(starts[0])
    } else {
        None
    }
}

pub fn nearest_timeline_frame(target_mode: FieldTargetMode, results: &Vec<FieldResult>) -> (r: Option<i64>)
    ensures
        r == nearest_timeline_frame_spec(target_mode, results@.map_values(|x: FieldResult| x.start_consumption)),
{
    let ghost starts = results@.map_values(|x: FieldResult| x.start_consumption);
    if target_mode == FieldTargetMode::Known && results.len() == 1 && results[0].start_consumption >= MIN_TIMELINE_FRAME {
        proof {
            assert(starts[0] == results@[0].start_consumption);
        }
        Some(results[0].start_consumption)
    } else {
        None
    }
}

/// The timeline row the table highlights at display frame `current`: the
/// last row whose blink is not after it, else the first row.
pub fn timeline_row_at(rows: &Vec<FieldTimelineRow>, current: i64) -> (r: usize)
    ensures
        (exists|i: int| 0 <= i < rows@.len() && rows@[i].timeline_frame <= current) ==> {
            &&& (r as int) < rows@.len()
            &&& rows@[r as int].timeline_frame <= current
            &&& forall|j: int| r < j < rows@.len() ==> #[trigger] rows@[j].timeline_frame > current
        },
        !(exists|i: int| 0 <= i < rows@.len() && rows@[i].timeline_frame <= current) ==> r == 0,
{
    let mut i: usize = rows.len();
    while i > 0
        invariant
            i <= rows@.len(),
            forall|j: int| i <= j < rows@.len() ==> #[trigger] rows@[j].timeline_frame > current,
        decreases i,
    {
        if rows[i - 1].timeline_frame <= current {
            return i - 1;
        }
        i = i - 1;
    }
    0
}

/// Display frames from the last observed blink to the first timeline blink
/// after display frame `current` (saturating), if there is one.
pub fn next_row_wait_frame(result: &FieldResult, current: i64) -> (r: Option<i64>)
    ensures
        !(exists|i: int| 0 <= i < result.timeline@.len() && result.timeline@[i].timeline_frame > current) ==> r is None,
        (exists|i: int| 0 <= i < result.timeline@.len() && result.timeline@[i].timeline_frame > current) ==> exists|i: int|
            0 <= i < result.timeline@.len() && result.timeline@[i].timeline_frame > current && (forall|j: int|
                0 <= j < i ==> #[trigger] result.timeline@[j].timeline_frame <= current) && r == Some(
                clamp_i64(result.timeline@[i].timeline_frame - result.last_wait_frame) as i64,
            ),
{
    let mut i: usize = 0;
    while i < result.timeline.len()
        invariant
            i <= result.timeline@.len(),
            forall|j: int| 0 <= j < i ==> #[trigger] result.timeline@[j].timeline_frame <= current,
        decreases result.timeline@.len() - i,
    {
        if result.timeline[i].timeline_frame > current {
            return Some(saturating_sub_i64(result.timeline[i].timeline_frame, result.last_wait_frame));
        }
        i = i + 1;
    }
    None
}

/// Once a session is in correction, no timer can be started until reset.
pub proof fn lemma_correction_locks_timer(timer_running: bool, timer_finished: bool, result_count: nat)
    ensures
        field_phase_spec(FieldMode::Correction, timer_running, timer_finished, result_count)
            == SessionPhase::Correction,
        field_phase_spec(FieldMode::Correction, timer_running, timer_finished, result_count)
            != SessionPhase::TimelineReady,
{
}

/// The range end `start + width`, when the start and width fields read as
/// integers, the start lies in `0..=MAX_SEARCH_FRAME`, the width in
/// `0..=MAX_SEARCH_SPAN` and the end stays within `MAX_SEARCH_FRAME`.
pub open spec fn range_end_from_start_spec(start: Seq<char>, width: Seq<char>) -> Option<i64> {
    match (parsed_i64(trimmed(start)), parsed_i64(trimmed(width))) {
        (Some(s), Some(w)) => if 0 <= s <= MAX_SEARCH_FRAME && 0 <= w <= MAX_SEARCH_SPAN && s + w
            <= MAX_SEARCH_FRAME {
            Some((s + w) as i64)
        } else {
            None
        },
        _ => None,
    }
}

pub fn range_end_from_start(start: &str, width: &str) -> (r: Option<i64>)
    ensures
        r == range_end_from_start_spec(start@, width@),
{
    let s = match parse_i64(trim_text(start)) {
        Some(v) => v,
        None => return None,
    };
    let w = match parse_i64(trim_text(width)) {
        Some(v) => v,
        None => return None,
    };
    if s < 0 || s > MAX_SEARCH_FRAME || w < 0 || w > MAX_SEARCH_SPAN {
        return None;
    }
    let end = s + w;
    if end > MAX_SEARCH_FRAME {
        return None;
    }
    Some(end)
}

/// The target wait with the field offset applied: the offset field is read
/// only when in use (blank means 0) and must be an even number within
/// `MAX_SEARCH_FRAME` of zero; the sum saturates.
pub open spec fn target_wait_with_offset_spec(wait: Option<i64>, use_offset: bool, offset: Seq<char>) -> Option<i64> {
    match wait {
        None => None,
        Some(w) => if !use_offset {
            Some(w)
        } else {
            let t = trimmed(offset);
            let o: Option<int> = if t.len() == 0 {
                Some(0)
            } else {
                match parsed_i64(t) {
                    Some(v) => Some(v as int),
                    None => None,
                }
            };
            match o {
                None => None,
                Some(v) => if -MAX_SEARCH_FRAME <= v <= MAX_SEARCH_FRAME && v % 2 == 0 {
                    Some(clamp_i64(w + v) as i64)
                } else {
                    None
                },
            }
        },
    }
}

pub fn target_wait_frame_with_offset(target_wait_frame: Option<i64>, use_offset: bool, offset: &str) -> (r: Option<
    i64,
>)
    ensures
        r == target_wait_with_offset_spec(target_wait_frame, use_offset, offset@),
{
    let wait = match target_wait_frame {
        Some(w) => w,
        None => return None,
    };
    if !use_offset {
        return Some(wait);
    }
    let t = trim_text(offset);
    let v: i64 = if t.is_empty() {
        0
    } else {
        match parse_i64(t) {
            Some(v) => v,
            None => return None,
        }
    };
    if v < -MAX_SEARCH_FRAME || v > MAX_SEARCH_FRAME || v % 2 != 0 {
        return None;
    }
    Some(match wait.checked_add(v) {
        Some(x) => x,
        None => if v > 0 {
            i64::MAX
        } else {
            i64::MIN
        },
    })
}

} // verus!
