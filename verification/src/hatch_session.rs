//! The hatch tab's settings and the offset correction after a production
//! run: reading the fields, the Rotom threshold proposal and the timeline
//! drift between the target and the position actually met.

use vstd::prelude::*;
use crate::text::{
    parsed_i64, parsed_hex_u32, parsed_unsigned, trimmed, strip_hex_prefix, trim_text, parse_i64, parse_u64,
    parse_usize, parse_hex_u32, strip_hex_prefix_text,
};
use crate::observation::MAX_SFMT_FRAME;
use crate::encounter::{rotom_roll_at, EncounterPlan};
use crate::sfmt::sfmt_u64_at;
use crate::state_types::{RotomCorrection, CorrectionPreview};
use crate::timeline::{ProductionTimeline, timeline_target, spec_timeline_target, lemma_spec_timeline_target_unique, reaches_exactly, lands_on, max_models, TimelineTarget};
use crate::field_target::clamp_i64;

verus! {

/// Most NPCs a hatch search may name.
pub const MAX_HATCH_NPC_COUNT: usize = 50;

/// Most models a hatch timeline runs, the player included.
pub const MAX_TIMELINE_MODELS: usize = 256;

/// The hatch search settings read from the tab.
#[derive(Clone, Copy, Debug, PartialEq, Eq, Structural)]
pub struct HatchSearch {
    pub seed: u32,
    pub range_start: i64,
    pub range_end: i64,
    pub target: i64,
    /// Models of the production timeline: the NPCs and the player.
    pub npc_models: usize,
}

pub open spec fn frames_message() -> Seq<char> {
    "Frameは0〜50000000の範囲で、検索範囲の終点は始点以上にしてください。"@
}

/// The hatch settings, or the first field refused.
pub open spec fn hatch_search_spec(
    seed: Seq<char>,
    range_start: Seq<char>,
    range_end: Seq<char>,
    target: Seq<char>,
    npc: Seq<char>,
) -> Result<HatchSearch, Seq<char>> {
    match parsed_hex_u32(strip_hex_prefix(trimmed(seed))) {
        None => Err("初期SFMT SEEDは16進数で入力してください。"@),
        Some(sd) => match parsed_i64(trimmed(range_start)) {
            None => Err("検索範囲の始点Frameは整数で入力してください。"@),
            Some(rs) => match parsed_i64(trimmed(range_end)) {
                None => Err("検索範囲の終点Frameは整数で入力してください。"@),
                Some(re) => match parsed_i64(trimmed(target)) {
                    None => Err("Target Frameは整数で入力してください。"@),
                    Some(t) => if rs < 0 || re < rs || t < 0 || re > MAX_SFMT_FRAME || t > MAX_SFMT_FRAME {
                        Err(frames_message())
                    } else {
                        match parsed_unsigned(trimmed(npc), usize::MAX as int) {
                            None => Err("NPC数は0以上の整数で入力してください。"@),
                            Some(n) => if n > MAX_HATCH_NPC_COUNT {
                                Err("NPC数は0～50の範囲で入力してください。"@)
                            } else {
                                Ok(
                                    HatchSearch {
                                        seed: sd,
                                        range_start: rs,
                                        range_end: re,
                                        target: t,
                                        npc_models: (n + 1) as usize,
                                    },
                                )
                            },
                        }
                    },
                },
            },
        },
    }
}

/// Reads the hatch search settings.
pub fn hatch_search_config(seed: &str, range_start: &str, range_end: &str, target: &str, npc: &str) -> (r: Result<
    HatchSearch,
    String,
>)
    ensures
        match hatch_search_spec(seed@, range_start@, range_end@, target@, npc@) {
            Ok(c) => r == Ok::<HatchSearch, String>(c),
            Err(m) => r is Err && r->Err_0@ == m,
        },
{
    let sd = match parse_hex_u32(strip_hex_prefix_text(trim_text(seed))) {
        Some(v) => v,
        None => return Err("初期SFMT SEEDは16進数で入力してください。".to_owned()),
    };
    let rs = match parse_i64(trim_text(range_start)) {
        Some(v) => v,
        None => return Err("検索範囲の始点Frameは整数で入力してください。".to_owned()),
    };
    let re = match parse_i64(trim_text(range_end)) {
        Some(v) => v,
        None => return Err("検索範囲の終点Frameは整数で入力してください。".to_owned()),
    };
    let t = match parse_i64(trim_text(target)) {
        Some(v) => v,
        None => return Err("Target Frameは整数で入力してください。".to_owned()),
    };
    if rs < 0 || re < rs || t < 0 || re > MAX_SFMT_FRAME || t > MAX_SFMT_FRAME {
        return Err("Frameは0〜50000000の範囲で、検索範囲の終点は始点以上にしてください。".to_owned());
    }
    let n = match parse_usize(trim_text(npc)) {
        Some(v) => v,
        None => return Err("NPC数は0以上の整数で入力してください。".to_owned()),
    };
    if n > MAX_HATCH_NPC_COUNT {
        return Err("NPC数は0～50の範囲で入力してください。".to_owned());
    }
    Ok(HatchSearch { seed: sd, range_start: rs, range_end: re, target: t, npc_models: n + 1 })
}

/// The range ending at the target and starting `distance` before it (not
/// before 0), when both fields read as positions within the cache.
pub open spec fn range_from_target_spec(target: Seq<char>, distance: Seq<char>) -> Option<(i64, i64)> {
    match (parsed_i64(trimmed(target)), parsed_i64(trimmed(distance))) {
        (Some(t), Some(d)) => if 0 <= t <= MAX_SFMT_FRAME && 0 <= d <= MAX_SFMT_FRAME {
            Some((if t - d > 0 { (t - d) as i64 } else { 0i64 }, t))
        } else {
            None
        },
        _ => None,
    }
}

pub fn range_from_target(target: &str, distance: &str) -> (r: Option<(i64, i64)>)
    ensures
        r == range_from_target_spec(target@, distance@),
{
    let t = match parse_i64(trim_text(target)) {
        Some(v) => v,
        None => return None,
    };
    let d = match parse_i64(trim_text(distance)) {
        Some(v) => v,
        None => return None,
    };
    if t < 0 || t > MAX_SFMT_FRAME || d < 0 || d > MAX_SFMT_FRAME {
        return None;
    }
    let start = if t - d > 0 {
        t - d
    } else {
        0
    };
    Some((start, t))
}

/// The Rotom threshold field: at most 100, else the default 79.
pub open spec fn rotom_threshold_spec(text: Seq<char>) -> u64 {
    match parsed_unsigned(trimmed(text), u64::MAX as int) {
        Some(v) => if v <= 100 {
            v as u64
        } else {
            79
        },
        None => 79,
    }
}

pub fn rotom_threshold_value(text: &str) -> (r: u64)
    ensures
        r == rotom_threshold_spec(text@),
{
    match parse_u64(trim_text(text)) {
        Some(v) => if v <= 100 {
            v
        } else {
            79
        },
        None => 79,
    }
}

/// A consumption field in use: a position within the cache, else 0.
pub open spec fn consumption_spec(text: Seq<char>, in_use: bool, max: int) -> i64 {
    match parsed_i64(trimmed(text)) {
        Some(v) => if in_use && 0 <= v <= max {
            v
        } else {
            0
        },
        None => 0,
    }
}

/// Values consumed after B and before the Rotom decision.
pub fn pre_rotom_consumption_value(text: &str, in_use: bool) -> (r: i64)
    ensures
        r == consumption_spec(text@, in_use, MAX_SFMT_FRAME as int),
{
    match parse_i64(trim_text(text)) {
        Some(v) => if in_use && 0 <= v && v <= MAX_SFMT_FRAME {
            v
        } else {
            0
        },
        None => 0,
    }
}

/// Values the NPCs consume when they are loaded: 0 to 50, else 0.
pub fn npc_initial_load_value(text: &str, in_use: bool) -> (r: i64)
    ensures
        r == consumption_spec(text@, in_use, 50),
{
    match parse_i64(trim_text(text)) {
        Some(v) => if in_use && 0 <= v && v <= 50 {
            v
        } else {
            0
        },
        None => 0,
    }
}

/// The tolerance field: an integer not below 0, else 5.
pub fn tolerance_value(text: &str) -> (r: i64)
    ensures
        r == match parsed_i64(trimmed(text@)) {
            Some(v) => if v < 0 { 0 } else { v },
            None => 5,
        },
{
    match parse_i64(trim_text(text)) {
        Some(v) => if v < 0 {
            0
        } else {
            v
        },
        None => 5,
    }
}

/// The encounter offset in use, or 0.
pub fn encounter_offset_value(use_offset: bool, text: &str) -> (r: i64)
    ensures
        r == if use_offset {
            match parsed_i64(trimmed(text@)) {
                Some(v) => v,
                None => 0,
            }
        } else {
            0
        },
{
    if !use_offset {
        return 0;
    }
    match parse_i64(trim_text(text)) {
        Some(v) => v,
        None => 0,
    }
}

/// The Rotom threshold proposal after a production run: when the observed
/// chatter disagrees with the roll at the used start, the threshold that
/// would have predicted it (the roll plus one for chatter, the roll for
/// silence, at most 100). Nothing when Rotom is not considered, when a
/// fastest close has no recorded start, when the answer was not observed,
/// or when the prediction was right.
pub open spec fn rotom_correction_spec(
    seed: u32,
    used_circle: i64,
    pre_rotom: i64,
    threshold: u64,
    observed_talk: Option<bool>,
    consider_rotom: bool,
    fastest_close: bool,
    recorded_source: bool,
) -> Option<RotomCorrection> {
    let p = clamp_i64(used_circle + pre_rotom);
    if !consider_rotom || (fastest_close && !recorded_source) || p < 0 {
        None
    } else {
        let roll = (sfmt_u64_at(seed, p as nat) % 100) as u8;
        let predicted = (roll as u64) < threshold;
        match observed_talk {
            None => None,
            Some(o) => if o == predicted {
                None
            } else {
                let s: int = if o { roll + 1 } else { roll as int };
                Some(
                    RotomCorrection {
                        roll,
                        predicted_talk: predicted,
                        observed_talk: o,
                        current_threshold: threshold,
                        suggested_threshold: (if s < 100 { s } else { 100 }) as u64,
                    },
                )
            },
        }
    }
}

/// Whether Rotom chats for a B press at `frame`: the roll read after the
/// pre-Rotom consumption (position saturating) is below the threshold;
/// `None` for a negative position.
pub fn rotom_talk_at(seed: u32, frame: i64, pre_rotom: i64, threshold: u64) -> (r: Option<bool>)
    ensures
        ({
            let p = clamp_i64(frame + pre_rotom);
            &&& p < 0 ==> r is None
            &&& p >= 0 ==> r == Some(((sfmt_u64_at(seed, p as nat) % 100) as u8 as u64) < threshold)
        }),
{
    let position = match frame.checked_add(pre_rotom) {
        Some(v) => v,
        None => if pre_rotom > 0 {
            i64::MAX
        } else {
            i64::MIN
        },
    };
    match rotom_roll_at(seed, position) {
        Some(roll) => Some((roll as u64) < threshold),
        None => None,
    }
}

pub fn rotom_correction(
    seed: u32,
    used_circle: i64,
    pre_rotom: i64,
    threshold: u64,
    observed_talk: Option<bool>,
    consider_rotom: bool,
    fastest_close: bool,
    recorded_source: bool,
) -> (r: Option<RotomCorrection>)
    ensures
        r == rotom_correction_spec(
            seed,
            used_circle,
            pre_rotom,
            threshold,
            observed_talk,
            consider_rotom,
            fastest_close,
            recorded_source,
        ),
{
    if !consider_rotom || (fastest_close && !recorded_source) {
        return None;
    }
    let position = match used_circle.checked_add(pre_rotom) {
        Some(p) => p,
        None => if pre_rotom > 0 {
            i64::MAX
        } else {
            i64::MIN
        },
    };
    let roll = match rotom_roll_at(seed, position) {
        Some(r) => r,
        None => return None,
    };
    let predicted_talk = (roll as u64) < threshold;
    let observed = match observed_talk {
        Some(o) => o,
        None => return None,
    };
    if observed == predicted_talk {
        return None;
    }
    let proposal: u64 = if observed {
        roll as u64 + 1
    } else {
        roll as u64
    };
    let suggested_threshold = if proposal < 100 {
        proposal
    } else {
        100
    };
    Some(
        RotomCorrection {
            roll,
            predicted_talk,
            observed_talk: observed,
            current_threshold: threshold,
            suggested_threshold,
        },
    )
}

/// The display-frame drift between where the target and where the actual
/// position fall on the timeline from `start`: two frames per tick.
pub open spec fn drift_spec(
    seed: u32,
    start: int,
    target: int,
    actual: int,
    models: nat,
    t: Option<TimelineTarget>,
    a: Option<TimelineTarget>,
) -> Result<i64, Seq<char>> {
    match t {
        None => Err("TargetFrameのTimelineを計算できません。"@),
        Some(tt) => match a {
            None => Err("実出現FrameのTimelineを計算できません。"@),
            Some(at) => {
                let d = 2 * (at.timeline_tick - tt.timeline_tick);
                if at.timeline_tick - tt.timeline_tick < i64::MIN || at.timeline_tick - tt.timeline_tick > i64::MAX
                    || d < i64::MIN || d > i64::MAX {
                    Err("計算した補正が大きすぎます。"@)
                } else {
                    Ok(d as i64)
                }
            },
        },
    }
}

/// Drift in display frames between the target and the actual position on
/// the production timeline from `start`; refused when either cannot be
/// placed on it. The two placements are those `timeline_target` gives.
pub fn timeline_drift(seed: u32, start: i64, target: i64, actual: i64, models: usize) -> (r: Result<i64, String>)
    requires
        models <= max_models(),
    ensures
        forall|t: Option<TimelineTarget>, a: Option<TimelineTarget>|
            spec_timeline_target(seed, start as int, target as int, models as nat, t) && spec_timeline_target(
                seed,
                start as int,
                actual as int,
                models as nat,
                a,
            ) ==> match #[trigger] drift_spec(seed, start as int, target as int, actual as int, models as nat, t, a) {
                Ok(d) => r == Ok::<i64, String>(d),
                Err(m) => r is Err && r->Err_0@ == m,
            },
{
    let t = timeline_target(seed, start, target, models);
    let a = timeline_target(seed, start, actual, models);
    proof {
        assert forall|t2: Option<TimelineTarget>, a2: Option<TimelineTarget>|
            spec_timeline_target(seed, start as int, target as int, models as nat, t2) && spec_timeline_target(
                seed,
                start as int,
                actual as int,
                models as nat,
                a2,
            ) implies t2 == t && a2 == a by {
            lemma_spec_timeline_target_unique(seed, start as int, target as int, models as nat, t, t2);
            lemma_spec_timeline_target_unique(seed, start as int, actual as int, models as nat, a, a2);
        }
    }
    let tt = match t {
        Some(x) => x,
        None => return Err("TargetFrameのTimelineを計算できません。".to_owned()),
    };
    let at = match a {
        Some(x) => x,
        None => return Err("実出現FrameのTimelineを計算できません。".to_owned()),
    };
    let diff = match at.timeline_tick.checked_sub(tt.timeline_tick) {
        Some(v) => v,
        None => return Err("計算した補正が大きすぎます。".to_owned()),
    };
    match diff.checked_mul(2) {
        Some(d) => Ok(d),
        None => Err("計算した補正が大きすぎます。".to_owned()),
    }
}

/// A proposed Rotom threshold always predicts the answer that was observed:
/// the roll lies below it exactly when Rotom chatted. It is proposed only
/// when the current threshold predicted the other answer.
pub proof fn lemma_rotom_proposal_predicts_observation(
    seed: u32,
    used_circle: i64,
    pre_rotom: i64,
    threshold: u64,
    observed_talk: Option<bool>,
    consider_rotom: bool,
    fastest_close: bool,
    recorded_source: bool,
)
    ensures
        rotom_correction_spec(
            seed,
            used_circle,
            pre_rotom,
            threshold,
            observed_talk,
            consider_rotom,
            fastest_close,
            recorded_source,
        ) matches Some(c) ==> {
            &&& observed_talk == Some(c.observed_talk)
            &&& ((c.roll as u64) < c.suggested_threshold) == c.observed_talk
            &&& ((c.roll as u64) < threshold) != c.observed_talk
            &&& c.suggested_threshold <= 100
        },
{
}

/// The corrected offset is never negative, and a run that shows no drift
/// keeps a non-negative offset as it is.
pub proof fn lemma_correction_without_drift_keeps_offset(current: i64, drift: i64, fastest_close: bool)
    ensures
        corrected_offset_spec(current, drift, fastest_close) >= 0,
        drift == 0 && current >= 0 ==> corrected_offset_spec(current, drift, fastest_close) == current,
{
}

/// Measuring the target position itself shows no drift: both placements on
/// the timeline are the same, so the drift is zero whenever the target can
/// be placed at all.
pub proof fn lemma_actual_at_target_has_no_drift(
    seed: u32,
    start: int,
    target: int,
    models: nat,
    t: Option<TimelineTarget>,
    a: Option<TimelineTarget>,
)
    requires
        spec_timeline_target(seed, start, target, models, t),
        spec_timeline_target(seed, start, target, models, a),
        t is Some,
    ensures
        drift_spec(seed, start, target, target, models, t, a) == Ok::<i64, Seq<char>>(0),
{
    lemma_spec_timeline_target_unique(seed, start, target, models, t, a);
}

/// The corrected offset: a fastest close adds the drift, a normal wait
/// subtracts it (the wait after B moves the other way); never below 0.
pub open spec fn corrected_offset_spec(current: i64, drift: i64, fastest_close: bool) -> i64 {
    let v = if fastest_close {
        clamp_i64(current + drift)
    } else {
        clamp_i64(current - drift)
    };
    (if v < 0 {
        0
    } else {
        v
    }) as i64
}

pub fn corrected_offset(current: i64, drift: i64, fastest_close: bool) -> (r: i64)
    ensures
        r == corrected_offset_spec(current, drift, fastest_close),
{
    let v = if fastest_close {
        match current.checked_add(drift) {
            Some(x) => x,
            None => if drift > 0 {
                i64::MAX
            } else {
                i64::MIN
            },
        }
    } else {
        match current.checked_sub(drift) {
            Some(x) => x,
            None => if drift > 0 {
                i64::MIN
            } else {
                i64::MAX
            },
        }
    };
    if v < 0 {
        0
    } else {
        v
    }
}

/// What the correction dialog shows for a production run started at
/// `plan_start` (the start computed from the used position, if any): the
/// corrected offset, and whether the target and the measured position lie
/// exactly on that timeline. Refused when the measured position is not an
/// integer, when no start exists, or when the drift cannot be computed.
pub fn correction_preview(
    seed: u32,
    models: usize,
    plan_start: Option<i64>,
    target_frame: i64,
    actual: &str,
    current_offset: i64,
    fastest_close: bool,
    rotom: Option<RotomCorrection>,
) -> (r: Result<CorrectionPreview, String>)
    requires
        models <= max_models(),
    ensures
        parsed_i64(trimmed(actual@)) is None ==> r is Err && r->Err_0@
            == "実際に出現したTarget Frameは整数で入力してください。"@,
        parsed_i64(trimmed(actual@)) is Some && plan_start is None ==> r is Err && r->Err_0@
            == "使用した○Frameから開始位置を計算できません。"@,
        parsed_i64(trimmed(actual@)) is Some && plan_start is Some ==> {
            let a = parsed_i64(trimmed(actual@))->0;
            let s = plan_start->0;
            forall|t: Option<TimelineTarget>, at: Option<TimelineTarget>|
                spec_timeline_target(seed, s as int, target_frame as int, models as nat, t)
                    && spec_timeline_target(seed, s as int, a as int, models as nat, at) ==> match #[trigger] drift_spec(
                    seed,
                    s as int,
                    target_frame as int,
                    a as int,
                    models as nat,
                    t,
                    at,
                ) {
                    Err(m) => r is Err && r->Err_0@ == m,
                    Ok(d) => r == Ok::<CorrectionPreview, String>(
                        CorrectionPreview {
                            suggested_offset: corrected_offset_spec(current_offset, d, fastest_close),
                            timeline_start: s,
                            target_on_timeline: lands_on(seed, s as int, target_frame as int, models as nat),
                            actual_on_timeline: lands_on(seed, s as int, a as int, models as nat),
                            actual_frame: a,
                            target_frame,
                            rotom_correction: rotom,
                        },
                    ),
                }
        },
{
    let a = match parse_i64(trim_text(actual)) {
        Some(v) => v,
        None => return Err("実際に出現したTarget Frameは整数で入力してください。".to_owned()),
    };
    let s = match plan_start {
        Some(v) => v,
        None => return Err("使用した○Frameから開始位置を計算できません。".to_owned()),
    };
    let drift = match timeline_drift(seed, s, target_frame, a, models) {
        Ok(d) => d,
        Err(e) => return Err(e),
    };
    let suggested_offset = corrected_offset(current_offset, drift, fastest_close);
    let target_on_timeline = reaches_exactly(seed, s, target_frame, models);
    let actual_on_timeline = reaches_exactly(seed, s, a, models);
    Ok(
        CorrectionPreview {
            suggested_offset,
            timeline_start: s,
            target_on_timeline,
            actual_on_timeline,
            actual_frame: a,
            target_frame,
            rotom_correction: rotom,
        },
    )
}

/// The starts offered for the offset correction, before ordering: the
/// recorded fastest-close starts (none offered when there are none), or the
/// start the normal wait was entered from; failing that, the position shown
/// now, or else every candidate's position.
pub open spec fn correction_sources_spec(
    fastest_close: bool,
    recorded: Seq<i64>,
    source_frame: Option<i64>,
    shown: Option<i64>,
    candidates: Seq<i64>,
) -> Seq<i64> {
    let frames = if fastest_close {
        recorded
    } else {
        match source_frame {
            Some(f) => seq![f],
            None => Seq::empty(),
        }
    };
    if fastest_close && frames.len() == 0 {
        Seq::empty()
    } else if frames.len() == 0 {
        match shown {
            Some(c) => seq![c],
            None => candidates,
        }
    } else {
        frames
    }
}

/// Strictly ascending.
pub open spec fn strictly_ascending(s: Seq<i64>) -> bool {
    forall|a: int, b: int| 0 <= a < b < s.len() ==> s[a] < s[b]
}

/// Inserts `x` into the strictly ascending `out` unless it is there.
fn insert_sorted_unique(out: &mut Vec<i64>, x: i64)
    requires
        strictly_ascending(old(out)@),
    ensures
        strictly_ascending(final(out)@),
        final(out)@.to_set() == old(out)@.to_set().insert(x),
{
    let ghost before = out@;
    let mut i: usize = 0;
    while i < out.len() && out[i] < x
        invariant
            i <= out@.len(),
            out@ == before,
            strictly_ascending(before),
            forall|j: int| 0 <= j < i ==> before[j] < x,
        decreases out@.len() - i,
    {
        i = i + 1;
    }
    if i < out.len() && out[i] == x {
        proof {
            assert(before.to_set().insert(x) =~= before.to_set()) by {
                assert(before.contains(x)) by {
                    assert(before[i as int] == x);
                }
            }
        }
        return;
    }
    out.insert(i, x);
    proof {
        assert forall|a: int, b: int| 0 <= a < b < out@.len() implies out@[a] < out@[b] by {
            if b < i {
            } else if b == i {
            } else if a < i {
                assert(out@[b] == before[b - 1]);
            } else if a == i {
                assert(out@[b] == before[b - 1]);
                assert(before[i as int] > x);
                if b - 1 > i {
                    assert(before[i as int] < before[b - 1]);
                }
            } else {
                assert(out@[a] == before[a - 1]);
                assert(out@[b] == before[b - 1]);
            }
        }
        assert forall|y: i64| out@.to_set().contains(y) <==> before.to_set().insert(x).contains(y) by {
            if out@.contains(y) {
                let k = choose|k: int| 0 <= k < out@.len() && out@[k] == y;
                if k < i {
                    assert(before[k] == y);
                } else if k > i {
                    assert(before[k - 1] == y);
                }
            }
            if before.contains(y) {
                let k = choose|k: int| 0 <= k < before.len() && before[k] == y;
                if k < i {
                    assert(out@[k] == y);
                } else {
                    assert(out@[k + 1] == y);
                }
            }
            if y == x {
                assert(out@[i as int] == x);
            }
        }
        assert(out@.to_set() =~= before.to_set().insert(x));
    }
}

/// The starts offered for the offset correction, each once, in ascending
/// order: exactly the positions `correction_sources_spec` names.
pub fn correction_start_candidates(
    fastest_close: bool,
    recorded: &Vec<i64>,
    source_frame: Option<i64>,
    shown: Option<i64>,
    candidates: &Vec<i64>,
) -> (r: Vec<i64>)
    ensures
        strictly_ascending(r@),
        r@.to_set() == correction_sources_spec(fastest_close, recorded@, source_frame, shown, candidates@).to_set(),
{
    let mut frames: Vec<i64> = Vec::new();
    if fastest_close {
        let mut k: usize = 0;
        while k < recorded.len()
            invariant
                k <= recorded@.len(),
                frames@ == recorded@.subrange(0, k as int),
            decreases recorded@.len() - k,
        {
            frames.push(recorded[k]);
            k = k + 1;
        }
        proof {
            assert(frames@ =~= recorded@);
        }
    } else {
        match source_frame {
            Some(f) => frames.push(f),
            None => {},
        }
    }
    if fastest_close && frames.len() == 0 {
        proof {
            assert(frames@.to_set() =~= Set::<i64>::empty());
        }
        return frames;
    }
    if frames.len() == 0 {
        match shown {
            Some(c) => frames.push(c),
            None => {
                let mut k: usize = 0;
                while k < candidates.len()
                    invariant
                        k <= candidates@.len(),
                        frames@ == candidates@.subrange(0, k as int),
                    decreases candidates@.len() - k,
                {
                    frames.push(candidates[k]);
                    k = k + 1;
                }
                proof {
                    assert(frames@ =~= candidates@);
                }
            },
        }
    }
    let ghost chosen = frames@;
    proof {
        assert(chosen == correction_sources_spec(fastest_close, recorded@, source_frame, shown, candidates@));
    }
    let mut out: Vec<i64> = Vec::new();
    let mut i: usize = 0;
    proof {
        assert(out@.to_set() =~= chosen.subrange(0, 0).to_set());
    }
    while i < frames.len()
        invariant
            frames@ == chosen,
            i <= chosen.len(),
            strictly_ascending(out@),
            out@.to_set() == chosen.subrange(0, i as int).to_set(),
        decreases chosen.len() - i,
    {
        insert_sorted_unique(&mut out, frames[i]);
        proof {
            assert(chosen.subrange(0, i + 1) =~= chosen.subrange(0, i as int).push(chosen[i as int]));
            chosen.subrange(0, i as int).lemma_push_to_set_commute(chosen[i as int]);
            assert(chosen.subrange(0, i + 1).to_set() =~= chosen.subrange(0, i as int).to_set().insert(chosen[i as int]));
        }
        i = i + 1;
    }
    proof {
        assert(chosen.subrange(0, chosen.len() as int) =~= chosen);
    }
    out
}

/// The correction start shown for a chosen row: the row itself, or the
/// last one when the choice lies past the end; `None` without rows.
pub fn selected_correction_start(frames: &Vec<i64>, index: usize) -> (r: Option<i64>)
    ensures
        frames@.len() == 0 ==> r is None,
        frames@.len() > 0 ==> r == Some(
            frames@[if index < frames@.len() { index as int } else { frames@.len() - 1 }],
        ),
{
    if frames.len() == 0 {
        return None;
    }
    let i = if index < frames.len() { index } else { frames.len() - 1 };
    Some(frames[i])
}

/// The correction source when a fastest close finishes: the row of the
/// current position among the recorded starts, else the first row; `None`
/// when there is no row.
pub fn fastest_correction_source(frames: &Vec<i64>, current: i64) -> (r: Option<(usize, i64)>)
    ensures
        frames@.len() == 0 ==> r is None,
        frames@.len() > 0 ==> r is Some && {
            let (i, f) = r->0;
            &&& (i as int) < frames@.len()
            &&& f == frames@[i as int]
            &&& (exists|k: int| 0 <= k < frames@.len() && frames@[k] == current) ==> (f == current && forall|
                j: int,
            | 0 <= j < i ==> frames@[j] != current)
            &&& !(exists|k: int| 0 <= k < frames@.len() && frames@[k] == current) ==> i == 0
        },
{
    if frames.len() == 0 {
        return None;
    }
    let mut i: usize = 0;
    while i < frames.len()
        invariant
            i <= frames@.len(),
            forall|j: int| 0 <= j < i ==> frames@[j] != current,
        decreases frames@.len() - i,
    {
        if frames[i] == current {
            return Some((i, current));
        }
        i = i + 1;
    }
    Some((0, frames[0]))
}

/// What pressing the production key leads to.
#[derive(Clone, Debug, PartialEq, Eq)]
pub enum EncounterStep {
    /// The timeline is not settled yet: nothing happens.
    Ignore,
    /// Refused, with the message to show.
    Refuse(String),
    /// A fastest close only follows the circle guidance; no timer starts.
    FastestGuidance,
    /// A normal wait with an offset: the offset is timed first, then the
    /// `target_ticks` blink checks to the target, from the plan's start.
    OffsetThenTarget { target_ticks: i64, plan: EncounterPlan },
    /// A normal wait without an offset: straight to the target.
    ToTarget { target_ticks: i64, plan: EncounterPlan },
}

pub open spec fn no_timeline_message() -> Seq<char> {
    "タイムラインが未確定です。"@
}

pub open spec fn no_production_message() -> Seq<char> {
    "本番タイムラインを計算できません。設定を確認してください。"@
}

pub open spec fn target_missed_message() -> Seq<char> {
    "現在の位置ではTarget Frameに到達できません。次の瞬きを待って、表の○を確認してください。"@
}

pub open spec fn no_plan_message() -> Seq<char> {
    "ロトム補正を計算できません。設定を確認してください。"@
}

/// The decision taken when production starts: in this order, a timeline
/// that is not ready is ignored; an offset error, a missing candidate, a
/// production run that cannot be computed or misses the target, and a
/// missing plan are refused; a fastest close then only guides, and a normal
/// wait times the offset (when in use) and then the target.
pub fn encounter_step(
    can_start: bool,
    offset_error: Option<String>,
    has_candidate: bool,
    production: Option<ProductionTimeline>,
    plan: Option<EncounterPlan>,
    fastest_close: bool,
    use_offset: bool,
) -> (r: EncounterStep)
    ensures
        !can_start ==> r == EncounterStep::Ignore,
        can_start && offset_error is Some ==> r == EncounterStep::Refuse(offset_error->0),
        can_start && offset_error is None ==> {
            if !has_candidate {
                r matches EncounterStep::Refuse(m) && m@ == no_timeline_message()
            } else if production is None {
                r matches EncounterStep::Refuse(m) && m@ == no_production_message()
            } else if production->0.target_tick is None {
                r matches EncounterStep::Refuse(m) && m@ == target_missed_message()
            } else if plan is None {
                r matches EncounterStep::Refuse(m) && m@ == no_plan_message()
            } else if fastest_close {
                r == EncounterStep::FastestGuidance
            } else if use_offset {
                r == EncounterStep::OffsetThenTarget { target_ticks: production->0.target_tick->0, plan: plan->0 }
            } else {
                r == EncounterStep::ToTarget { target_ticks: production->0.target_tick->0, plan: plan->0 }
            }
        },
{
    if !can_start {
        return EncounterStep::Ignore;
    }
    match offset_error {
        Some(m) => return EncounterStep::Refuse(m),
        None => {},
    }
    if !has_candidate {
        return EncounterStep::Refuse("タイムラインが未確定です。".to_owned());
    }
    let run = match production {
        Some(p) => p,
        None => return EncounterStep::Refuse("本番タイムラインを計算できません。設定を確認してください。".to_owned()),
    };
    let target_ticks = match run.target_tick {
        Some(t) => t,
        None => return EncounterStep::Refuse(
            "現在の位置ではTarget Frameに到達できません。次の瞬きを待って、表の○を確認してください。".to_owned(),
        ),
    };
    let plan = match plan {
        Some(p) => p,
        None => return EncounterStep::Refuse("ロトム補正を計算できません。設定を確認してください。".to_owned()),
    };
    if fastest_close {
        EncounterStep::FastestGuidance
    } else if use_offset {
        EncounterStep::OffsetThenTarget { target_ticks, plan }
    } else {
        EncounterStep::ToTarget { target_ticks, plan }
    }
}

} // verus!
