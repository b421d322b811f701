//! Snapshots handed between the session, the background searches and the
//! timers, and the phase vocabulary shared by the hatch and field sessions.

use vstd::prelude::*;
use crate::observation::ObservationMatch;

verus! {

/// Input of one background chunk of the hatch guidance search. The UI only
/// assembles this value; the SFMT work happens elsewhere.
#[derive(Clone, Copy, Debug, PartialEq, Eq, Structural)]
pub struct GuidanceSearchRequest {
    pub session_generation: u64,
    pub observed_start: i64,
    pub observed_end: i64,
    pub range_start: i64,
    pub range_end: i64,
    pub seed: u32,
    pub target: i64,
    pub models: usize,
    pub offset: i64,
    pub consider_rotom: bool,
    pub rotom_threshold: u64,
    pub observed_rotom_talk: Option<bool>,
    pub pre_rotom_consumption: i64,
    pub npc_initial_load: i64,
    pub fastest_ticks: Option<i64>,
}

/// Two requests describe the same search when every setting other than the
/// observed window agrees.
pub open spec fn same_configuration_spec(a: GuidanceSearchRequest, b: GuidanceSearchRequest) -> bool {
    &&& a.session_generation == b.session_generation
    &&& a.range_start == b.range_start
    &&& a.range_end == b.range_end
    &&& a.seed == b.seed
    &&& a.target == b.target
    &&& a.models == b.models
    &&& a.offset == b.offset
    &&& a.consider_rotom == b.consider_rotom
    &&& a.rotom_threshold == b.rotom_threshold
    &&& a.observed_rotom_talk == b.observed_rotom_talk
    &&& a.pre_rotom_consumption == b.pre_rotom_consumption
    &&& a.npc_initial_load == b.npc_initial_load
    &&& a.fastest_ticks == b.fastest_ticks
}

fn same_flag(a: Option<bool>, b: Option<bool>) -> (r: bool)
    ensures
        r == (a == b),
{
    match (a, b) {
        (Some(x), Some(y)) => x == y,
        (None, None) => true,
        _ => false,
    }
}

fn same_ticks(a: Option<i64>, b: Option<i64>) -> (r: bool)
    ensures
        r == (a == b),
{
    match (a, b) {
        (Some(x), Some(y)) => x == y,
        (None, None) => true,
        _ => false,
    }
}

impl GuidanceSearchRequest {
    /// Whether `other` asks for the same search, ignoring the observed window.
    pub fn same_configuration(self, other: Self) -> (r: bool)
        ensures
            r == same_configuration_spec(self, other),
    {
        self.session_generation == other.session_generation
            && self.range_start == other.range_start
            && self.range_end == other.range_end
            && self.seed == other.seed
            && self.target == other.target
            && self.models == other.models
            && self.offset == other.offset
            && self.consider_rotom == other.consider_rotom
            && self.rotom_threshold == other.rotom_threshold
            && same_flag(self.observed_rotom_talk, other.observed_rotom_talk)
            && self.pre_rotom_consumption == other.pre_rotom_consumption
            && self.npc_initial_load == other.npc_initial_load
            && same_ticks(self.fastest_ticks, other.fastest_ticks)
    }
}

/// Same-configuration is an equivalence: every request agrees with itself,
/// the relation is symmetric and it is transitive.
pub proof fn lemma_same_configuration_equivalence(
    a: GuidanceSearchRequest,
    b: GuidanceSearchRequest,
    c: GuidanceSearchRequest,
)
    ensures
        same_configuration_spec(a, a),
        same_configuration_spec(a, b) ==> same_configuration_spec(b, a),
        same_configuration_spec(a, b) && same_configuration_spec(b, c) ==> same_configuration_spec(a, c),
{
}

/// Input of the per-candidate reachability check run off the UI thread.
#[derive(Clone, Debug, PartialEq, Eq)]
pub struct CandidateReachabilityRequest {
    pub session_generation: u64,
    pub seed: u32,
    pub target: i64,
    pub models: usize,
    pub offset: i64,
    pub consider_rotom: bool,
    pub rotom_threshold: u64,
    pub observed_rotom_talk: Option<bool>,
    pub pre_rotom_consumption: i64,
    pub npc_initial_load: i64,
    pub fastest_ticks: Option<i64>,
    pub candidate_positions: Vec<(usize, i64)>,
}

/// What the offset-correction dialog confirms: the computed offset and the
/// reachability of the current timeline start.
#[derive(Clone, Copy, Debug, PartialEq, Eq, Structural)]
pub struct CorrectionPreview {
    pub suggested_offset: i64,
    /// Production timeline start after the Rotom roll and the NPC load.
    pub timeline_start: i64,
    /// The shown start lands exactly on the target position.
    pub target_on_timeline: bool,
    /// The shown start lands exactly on the measured position.
    pub actual_on_timeline: bool,
    pub actual_frame: i64,
    pub target_frame: i64,
    /// Proposed change of the Rotom decision, set when only one of the two
    /// timelines matches the measured position.
    pub rotom_correction: Option<RotomCorrection>,
}

#[derive(Clone, Copy, Debug, PartialEq, Eq, Structural)]
pub struct RotomCorrection {
    pub roll: u8,
    pub predicted_talk: bool,
    pub observed_talk: bool,
    pub current_threshold: u64,
    pub suggested_threshold: u64,
}

#[derive(Clone, Copy, Debug, PartialEq, Eq, Structural)]
pub enum Mode {
    Idle,
    Observing,
    Ready,
    Production,
    Countdown,
    Encounter,
    Finished,
    Correction,
}

/// The phase of an observation session, shared by the hatch and field tabs.
#[derive(Clone, Copy, Debug, PartialEq, Eq, Structural)]
pub enum SessionPhase {
    Input,
    Observing,
    TimelineReady,
    Timer,
    ProductionFinished,
    Correction,
}

/// One candidate that matched the observed intervals.
#[derive(Clone, Copy, Debug, PartialEq, Eq, Structural)]
pub struct TimelineCandidate {
    pub start_position: i64,
    pub sfmt_position: i64,
    /// Checks until the next blink.
    pub next_blink_ticks: Option<i64>,
    pub target_reachable: bool,
}

impl TimelineCandidate {
    /// The candidate row for a matched observation: its positions and the
    /// checks until the next blink. Whether the target is reached is worked
    /// out afterwards under the current settings, so it starts as `false`.
    pub fn from_match(matched: ObservationMatch) -> (r: Self)
        ensures
            r.start_position == matched.start_position,
            r.sfmt_position == matched.sfmt_position,
            r.next_blink_ticks == Some(matched.next_blink_ticks),
            !r.target_reachable,
    {
        TimelineCandidate {
            start_position: matched.start_position,
            sfmt_position: matched.sfmt_position,
            next_blink_ticks: Some(matched.next_blink_ticks),
            target_reachable: false,
        }
    }
}

#[derive(Clone, Copy, Debug, PartialEq, Eq, Structural)]
pub enum ArticleTimerStage {
    Offset,
    ToTarget,
}

/// A segment of the plain countdown timer: one of the offsets, by index, or
/// the actual wait.
#[derive(Clone, Copy, Debug, PartialEq, Eq, Structural)]
pub enum NormalTimerSegment {
    Offset(usize),
    Wait,
}

} // verus!
