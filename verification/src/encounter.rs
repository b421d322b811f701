//! From the observed hatch position to the start of the production
//! timeline: the Rotom chatter roll, its consumption and the NPC initial load.

use vstd::prelude::*;
use crate::sfmt::{sfmt_u64_at, sfmt_value_at};

verus! {

/// Default Rotom chatter threshold: chatter when the roll is below it.
pub const DEFAULT_ROTOM_THRESHOLD: u64 = 79;

/// The production start computed from a hatch observation.
#[derive(Clone, Copy, Debug, PartialEq, Eq)]
pub struct EncounterPlan {
    /// Observed position right after the B press.
    pub observed_position: i64,
    /// Position where Rotom's chatter is decided (after extra consumption).
    pub b_position: i64,
    /// Rotom's total consumption: 1 when silent, 2 when chatting, 0 when
    /// Rotom is not considered.
    pub rotom_consumption: i64,
    /// User-measured time offset after B; never added to SFMT positions.
    pub offset: i64,
    /// Start of the production timeline.
    pub encounter_start: i64,
}

/// Whether Rotom chats: the observed answer when known, otherwise the roll of
/// the value at `b` against `threshold`.
pub open spec fn rotom_talks(seed: u32, b: int, threshold: u64, observed_talk: Option<bool>) -> bool {
    match observed_talk {
        Some(t) => t,
        None => sfmt_u64_at(seed, b as nat) % 100 < threshold,
    }
}

/// The plan for the given inputs, over mathematical integers.
pub open spec fn spec_encounter_plan(
    seed: u32,
    observed_position: i64,
    offset: i64,
    consider_rotom: bool,
    threshold: u64,
    observed_talk: Option<bool>,
    pre_rotom_consumption: i64,
    initial_load: i64,
) -> Option<EncounterPlan> {
    let b = observed_position + pre_rotom_consumption;
    let rotom: int = if consider_rotom {
        if rotom_talks(seed, b, threshold, observed_talk) { 2 } else { 1 }
    } else {
        0
    };
    let start = b + rotom + initial_load;
    if observed_position < 0 || initial_load < 0 || pre_rotom_consumption < 0 || start > i64::MAX {
        None
    } else {
        Some(
            EncounterPlan {
                observed_position,
                b_position: b as i64,
                rotom_consumption: rotom as i64,
                offset,
                encounter_start: start as i64,
            },
        )
    }
}

fn encounter_plan_with_rotom_rule(
    seed: u32,
    observed_position: i64,
    offset: i64,
    consider_rotom: bool,
    threshold: u64,
    observed_talk: Option<bool>,
    pre_rotom_consumption: i64,
    initial_load: i64,
) -> (r: Option<EncounterPlan>)
    ensures
        r == spec_encounter_plan(
            seed,
            observed_position,
            offset,
            consider_rotom,
            threshold,
            observed_talk,
            pre_rotom_consumption,
            initial_load,
        ),
{
    if observed_position < 0 {
        return None;
    }
    if initial_load < 0 {
        return None;
    }
    if pre_rotom_consumption < 0 {
        return None;
    }
    let b_position = match observed_position.checked_add(pre_rotom_consumption) {
        Some(b) => b,
        None => return None,
    };
    let b_value = match sfmt_value_at(seed, b_position) {
        Some(v) => v,
        None => return None,
    };
    let rotom_consumption: i64 = if consider_rotom {
        let predicted_talk = b_value % 100 < threshold;
        let talk = match observed_talk {
            Some(t) => t,
            None => predicted_talk,
        };
        if talk { 2 } else { 1 }
    } else {
        0
    };
    let after_rotom = match b_position.checked_add(rotom_consumption) {
        Some(v) => v,
        None => return None,
    };
    let encounter_start = match after_rotom.checked_add(initial_load) {
        Some(v) => v,
        None => return None,
    };
    Some(EncounterPlan { observed_position, b_position, rotom_consumption, offset, encounter_start })
}

/// The usual production start: Rotom considered with the default threshold,
/// one NPC initial-load consumption.
pub fn encounter_plan(seed: u32, observed_position: i64, offset: i64) -> (r: Option<EncounterPlan>)
    ensures
        r == spec_encounter_plan(seed, observed_position, offset, true, DEFAULT_ROTOM_THRESHOLD, None, 0, 1),
{
    encounter_plan_with_rotom(seed, observed_position, offset, true)
}

/// The production start with Rotom's chatter optionally considered.
pub fn encounter_plan_with_rotom(seed: u32, observed_position: i64, offset: i64, consider_rotom: bool) -> (r:
    Option<EncounterPlan>)
    ensures
        r == spec_encounter_plan(seed, observed_position, offset, consider_rotom, DEFAULT_ROTOM_THRESHOLD, None, 0, 1),
{
    encounter_plan_with_rotom_rule(seed, observed_position, offset, consider_rotom, DEFAULT_ROTOM_THRESHOLD, None, 0, 1)
}

/// The production start preferring the observed chatter over the
/// prediction, with one NPC initial-load consumption.
pub fn encounter_plan_with_observed_rotom(
    seed: u32,
    observed_position: i64,
    offset: i64,
    consider_rotom: bool,
    threshold: u64,
    observed_talk: Option<bool>,
) -> (r: Option<EncounterPlan>)
    ensures
        r == spec_encounter_plan(
            seed,
            observed_position,
            offset,
            consider_rotom,
            if threshold < 100 { threshold } else { 100 },
            observed_talk,
            0,
            1,
        ),
{
    encounter_plan_with_observed_rotom_and_initial_load(
        seed,
        observed_position,
        offset,
        consider_rotom,
        threshold,
        observed_talk,
        1,
    )
}

/// The production start with the chatter decided at the B position and the
/// given NPC initial load added after Rotom.
pub fn encounter_plan_with_observed_rotom_and_initial_load(
    seed: u32,
    observed_position: i64,
    offset: i64,
    consider_rotom: bool,
    threshold: u64,
    observed_talk: Option<bool>,
    initial_load: i64,
) -> (r: Option<EncounterPlan>)
    ensures
        r == spec_encounter_plan(
            seed,
            observed_position,
            offset,
            consider_rotom,
            if threshold < 100 { threshold } else { 100 },
            observed_talk,
            0,
            initial_load,
        ),
{
    encounter_plan_with_pre_rotom_consumption(
        seed,
        observed_position,
        offset,
        consider_rotom,
        threshold,
        observed_talk,
        0,
        initial_load,
    )
}

/// The production start with extra consumption right after B, before the
/// Rotom decision and the NPC initial load. The threshold is capped at 100.
pub fn encounter_plan_with_pre_rotom_consumption(
    seed: u32,
    observed_position: i64,
    offset: i64,
    consider_rotom: bool,
    threshold: u64,
    observed_talk: Option<bool>,
    pre_rotom_consumption: i64,
    initial_load: i64,
) -> (r: Option<EncounterPlan>)
    ensures
        r == spec_encounter_plan(
            seed,
            observed_position,
            offset,
            consider_rotom,
            if threshold < 100 { threshold } else { 100 },
            observed_talk,
            pre_rotom_consumption,
            initial_load,
        ),
{
    let capped = if threshold < 100 { threshold } else { 100 };
    encounter_plan_with_rotom_rule(
        seed,
        observed_position,
        offset,
        consider_rotom,
        capped,
        observed_talk,
        pre_rotom_consumption,
        initial_load,
    )
}

/// The measured time offset is carried along and never moves a position:
/// two plans that differ only in the offset have the same B position, the
/// same Rotom consumption and the same production start, and are refused
/// together.
pub proof fn lemma_offset_never_moves_positions(
    seed: u32,
    observed_position: i64,
    offset_a: i64,
    offset_b: i64,
    consider_rotom: bool,
    threshold: u64,
    observed_talk: Option<bool>,
    pre_rotom_consumption: i64,
    initial_load: i64,
)
    ensures
        ({
            let a = spec_encounter_plan(seed, observed_position, offset_a, consider_rotom, threshold, observed_talk,
                pre_rotom_consumption, initial_load);
            let b = spec_encounter_plan(seed, observed_position, offset_b, consider_rotom, threshold, observed_talk,
                pre_rotom_consumption, initial_load);
            &&& a is Some <==> b is Some
            &&& a is Some ==> {
                &&& a->0.b_position == b->0.b_position
                &&& a->0.rotom_consumption == b->0.rotom_consumption
                &&& a->0.encounter_start == b->0.encounter_start
                &&& a->0.offset == offset_a
                &&& b->0.offset == offset_b
            }
        }),
{
}

/// The consumption order after B: the extra consumption comes first, Rotom
/// is decided at the position it leads to, then the NPC initial load follows.
/// Rotom takes one value when silent and two when chatting, none when not
/// considered, and the initial load never changes Rotom's decision.
pub proof fn lemma_consumption_order(
    seed: u32,
    observed_position: i64,
    offset: i64,
    consider_rotom: bool,
    threshold: u64,
    observed_talk: Option<bool>,
    pre_rotom_consumption: i64,
    load_a: i64,
    load_b: i64,
)
    requires
        spec_encounter_plan(seed, observed_position, offset, consider_rotom, threshold, observed_talk,
            pre_rotom_consumption, load_a) is Some,
        spec_encounter_plan(seed, observed_position, offset, consider_rotom, threshold, observed_talk,
            pre_rotom_consumption, load_b) is Some,
    ensures
        ({
            let a = spec_encounter_plan(seed, observed_position, offset, consider_rotom, threshold, observed_talk,
                pre_rotom_consumption, load_a)->0;
            let b = spec_encounter_plan(seed, observed_position, offset, consider_rotom, threshold, observed_talk,
                pre_rotom_consumption, load_b)->0;
            &&& a.b_position == observed_position + pre_rotom_consumption
            &&& a.encounter_start == a.b_position + a.rotom_consumption + load_a
            &&& (consider_rotom ==> (a.rotom_consumption == 2 <==> rotom_talks(seed, a.b_position as int, threshold,
                observed_talk)))
            &&& (consider_rotom ==> (a.rotom_consumption == 1 || a.rotom_consumption == 2))
            &&& (!consider_rotom ==> a.rotom_consumption == 0)
            &&& a.rotom_consumption == b.rotom_consumption
            &&& a.b_position == b.b_position
            &&& a.encounter_start - load_a == b.encounter_start - load_b
            &&& a.encounter_start >= observed_position
        }),
{
}

/// An observed chatter answer overrides the roll, whatever the threshold.
pub proof fn lemma_observed_talk_overrides_roll(seed: u32, b: int, threshold_a: u64, threshold_b: u64, talk: bool)
    ensures
        rotom_talks(seed, b, threshold_a, Some(talk)) == talk,
        rotom_talks(seed, b, threshold_a, Some(talk)) == rotom_talks(seed, b, threshold_b, Some(talk)),
{
}

/// Rotom's chatter roll (value % 100) at the position right after B.
pub fn rotom_roll_at(seed: u32, observed_position: i64) -> (r: Option<u8>)
    ensures
        observed_position < 0 ==> r is None,
        observed_position >= 0 ==> r == Some((sfmt_u64_at(seed, observed_position as nat) % 100) as u8),
{
    match sfmt_value_at(seed, observed_position) {
        Some(v) => Some((v % 100) as u8),
        None => None,
    }
}

/// Blink interval drawn from one 64-bit value: `(value % 120) + 130` checks
/// of about 1/30 second.
pub const BLINK_INTERVAL_MODULUS: u64 = 120;
pub const BLINK_INTERVAL_BASE_TICKS: u64 = 130;

pub fn blink_interval_ticks(value: u64) -> (r: u64)
    ensures
        r == value % 120 + 130,
        130 <= r <= 249,
{
    value % BLINK_INTERVAL_MODULUS + BLINK_INTERVAL_BASE_TICKS
}

} // verus!
