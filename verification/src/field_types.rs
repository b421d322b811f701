//! The values a field search takes and gives back.

use vstd::prelude::*;
use crate::model_status::ModelStatus;

verus! {

/// Input of a field timeline search. `range_start..=range_end` are the
/// candidate start positions; intervals are in display frames (two per
/// 1/30-second tick).
#[derive(Clone, Debug)]
pub struct FieldConfig {
    pub seed: u32,
    pub range_start: i64,
    pub range_end: i64,
    /// Number of models whose counters run (the player included).
    pub models: usize,
    /// The model whose blinks were observed: 0 the player, NPCs from 1.
    pub target_model: usize,
    pub observed_intervals: Vec<i64>,
    pub tolerance: i64,
    pub target_consumption: Option<i64>,
}

/// One row of a candidate's blink timeline.
#[derive(Clone, Copy, Debug, PartialEq, Eq, Structural)]
pub struct FieldTimelineRow {
    /// SFMT position right after the blink.
    pub frame: i64,
    /// Display frame of the blink counted from the candidate start.
    pub timeline_frame: i64,
    /// Display frames until the next row's blink (0 on the last row).
    pub duration_frames: i64,
    /// The blink was one of the observed ones.
    pub observed: bool,
}

/// Where a candidate's timeline can be continued from: the counters, the
/// SFMT position they read next, the position count and the tick.
#[derive(Debug)]
pub struct TimelineCursor {
    pub status: ModelStatus,
    pub stream_cursor: i64,
    pub consumption: i64,
    pub tick: i64,
}

/// A candidate start whose blinks match the observation.
#[derive(Debug)]
pub struct FieldResult {
    pub start_consumption: i64,
    /// Display frames from the start to the first and last observed blink.
    pub first_wait_frame: i64,
    pub last_wait_frame: i64,
    /// SFMT positions right after the first and last observed blink.
    pub first_consumption: i64,
    pub last_consumption: i64,
    pub intervals: Vec<i64>,
    /// Display frames from the last observed blink to the next one.
    pub next_blink_wait_frame: i64,
    /// Display frames from the last observed blink to the target, if any.
    pub target_wait_frame: Option<i64>,
    /// The target is met exactly; `false` also when it is only crossed.
    pub target_exact: Option<bool>,
    pub target_frame_before: Option<i64>,
    pub target_frame_after: Option<i64>,
    pub observed_model: usize,
    /// Number of models of the timeline (the player included).
    pub models: usize,
    pub timeline: Vec<FieldTimelineRow>,
    /// Blinks of the observed model until the target, when it is reached.
    pub target_blink_count: Option<usize>,
    /// State at the end of the materialized timeline.
    pub timeline_cursor: Option<TimelineCursor>,
    /// State right after the last observed blink.
    pub target_cursor: Option<TimelineCursor>,
}

/// Two optional cursors hold the same state.
pub open spec fn same_cursor(a: Option<TimelineCursor>, b: Option<TimelineCursor>) -> bool {
    &&& (a is None <==> b is None)
    &&& a is Some ==> {
        &&& a->0.status.remain@ == b->0.status.remain@
        &&& a->0.stream_cursor == b->0.stream_cursor
        &&& a->0.consumption == b->0.consumption
        &&& a->0.tick == b->0.tick
    }
}

/// Every field but the target ones agrees.
pub open spec fn same_untargeted(a: FieldResult, b: FieldResult) -> bool {
    &&& a.start_consumption == b.start_consumption
    &&& a.first_wait_frame == b.first_wait_frame
    &&& a.last_wait_frame == b.last_wait_frame
    &&& a.first_consumption == b.first_consumption
    &&& a.last_consumption == b.last_consumption
    &&& a.intervals@ == b.intervals@
    &&& a.next_blink_wait_frame == b.next_blink_wait_frame
    &&& a.observed_model == b.observed_model
    &&& a.models == b.models
    &&& a.timeline@ == b.timeline@
    &&& same_cursor(a.timeline_cursor, b.timeline_cursor)
    &&& same_cursor(a.target_cursor, b.target_cursor)
}

/// The target fields agree.
pub open spec fn same_target(a: FieldResult, b: FieldResult) -> bool {
    &&& a.target_wait_frame == b.target_wait_frame
    &&& a.target_exact == b.target_exact
    &&& a.target_frame_before == b.target_frame_before
    &&& a.target_frame_after == b.target_frame_after
    &&& a.target_blink_count == b.target_blink_count
}

impl Clone for TimelineCursor {
    fn clone(&self) -> (r: Self)
        ensures
            r.status.remain@ == self.status.remain@,
            r.stream_cursor == self.stream_cursor,
            r.consumption == self.consumption,
            r.tick == self.tick,
    {
        TimelineCursor {
            status: self.status.clone(),
            stream_cursor: self.stream_cursor,
            consumption: self.consumption,
            tick: self.tick,
        }
    }
}

fn clone_cursor(c: &Option<TimelineCursor>) -> (r: Option<TimelineCursor>)
    ensures
        same_cursor(r, *c),
{
    match c {
        Some(x) => Some(x.clone()),
        None => None,
    }
}

impl Clone for FieldResult {
    fn clone(&self) -> (r: Self)
        ensures
            same_untargeted(r, *self),
            same_target(r, *self),
    {
        FieldResult {
            start_consumption: self.start_consumption,
            first_wait_frame: self.first_wait_frame,
            last_wait_frame: self.last_wait_frame,
            first_consumption: self.first_consumption,
            last_consumption: self.last_consumption,
            intervals: self.intervals.clone(),
            next_blink_wait_frame: self.next_blink_wait_frame,
            target_wait_frame: self.target_wait_frame,
            target_exact: self.target_exact,
            target_frame_before: self.target_frame_before,
            target_frame_after: self.target_frame_after,
            observed_model: self.observed_model,
            models: self.models,
            timeline: self.timeline.clone(),
            target_blink_count: self.target_blink_count,
            timeline_cursor: clone_cursor(&self.timeline_cursor),
            target_cursor: clone_cursor(&self.target_cursor),
        }
    }
}

/// Whether the observed model is known.
#[derive(Clone, Copy, Debug, PartialEq, Eq, Structural)]
pub enum FieldTargetMode {
    Known,
    Unknown,
}

/// Candidates for the observed model, derived from a measured position.
#[derive(Clone, Debug)]
pub struct FieldIdxInference {
    pub indices: Vec<usize>,
    pub results: Vec<(usize, Vec<FieldResult>)>,
    pub suggested_offset: Option<i64>,
}

/// Search results, and the model indices found when the search had to fall
/// back to every model.
#[derive(Clone, Debug)]
pub struct FieldSearchOutcome {
    pub results: Vec<FieldResult>,
    pub fallback_indices: Option<Vec<usize>>,
}

} // verus!
