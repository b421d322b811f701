use hatch_blink_search::encounter::encounter_plan_with_observed_rotom_and_initial_load;
use hatch_blink_search::guidance::{
    calculate_guidance_batch, encounter_offset_error, fastest_close_guidance_bounds, MAX_ENCOUNTER_OFFSET_FRAMES,
};
use hatch_blink_search::model_status::ModelStatus;
use hatch_blink_search::production::MAX_PRODUCTION_LOOKAHEAD;
use hatch_blink_search::sfmt::Sfmt;
use hatch_blink_search::state_types::{GuidanceSearchRequest, NormalTimerSegment};
use hatch_blink_search::timeline::advance_timeline;
use hatch_blink_search::timer_plan::{normal_timer_segment_plan, normal_timer_total_frames};
use std::collections::HashMap;

fn strings(values: &[&str]) -> Vec<String> {
    values.iter().map(|value| value.to_string()).collect()
}

#[test]
fn normal_timer_sums_zero_or_more_offsets() {
    assert_eq!(normal_timer_total_frames("120", &Vec::new(), &Vec::new()).unwrap(), 120);
    assert_eq!(normal_timer_total_frames("120", &strings(&["5", "2", "10"]), &Vec::new()).unwrap(), 137);
}

#[test]
fn normal_timer_runs_offsets_top_to_bottom_then_actual_wait() {
    let plan = normal_timer_segment_plan("800", &strings(&["200", "100"]), &Vec::new()).unwrap();
    assert_eq!(
        plan,
        vec![(NormalTimerSegment::Offset(0), 200), (NormalTimerSegment::Offset(1), 100), (NormalTimerSegment::Wait, 800)]
    );
    let fps = 100.0;
    let seconds = plan.iter().map(|(_, frames)| *frames as f64 / fps).collect::<Vec<_>>();
    assert!((seconds[0] - 2.0).abs() < f64::EPSILON);
    assert!((seconds[1] - 1.0).abs() < f64::EPSILON);
    assert!((seconds[2] - 8.0).abs() < f64::EPSILON);
}

#[test]
fn normal_timer_ignores_disabled_offsets_but_keeps_their_values() {
    let offsets = strings(&["200", "100"]);
    let enabled = vec![true, false];
    assert_eq!(normal_timer_total_frames("800", &offsets, &enabled).unwrap(), 1_000);
    assert_eq!(
        normal_timer_segment_plan("800", &offsets, &enabled).unwrap(),
        vec![(NormalTimerSegment::Offset(0), 200), (NormalTimerSegment::Wait, 800)]
    );
}

#[test]
fn normal_timer_supports_zero_offsets_and_rejects_negative_segments() {
    assert_eq!(
        normal_timer_segment_plan("800", &Vec::new(), &Vec::new()).unwrap(),
        vec![(NormalTimerSegment::Wait, 800)]
    );
    assert!(normal_timer_segment_plan("800", &strings(&["-2"]), &Vec::new()).is_err());
}

#[test]
fn normal_timer_rejects_negative_total() {
    assert!(normal_timer_total_frames("10", &strings(&["-11"]), &Vec::new()).is_err());
}

#[test]
fn encounter_offset_rejects_values_above_the_supported_limit() {
    assert!(encounter_offset_error(true, &(MAX_ENCOUNTER_OFFSET_FRAMES + 1).to_string()).is_some());
    assert!(encounter_offset_error(true, &MAX_ENCOUNTER_OFFSET_FRAMES.to_string()).is_none());
    assert!(encounter_offset_error(true, "").is_none());
}

#[test]
fn fastest_close_guidance_bounds_use_maximum_per_step_consumption() {
    // Target 3000, five NPCs and the player, a 200-frame offset (100 ticks),
    // Rotom considered and one initial-load value.
    assert_eq!(fastest_close_guidance_bounds(3000, 0, 100, 6, true, 0, 1), Some((2297, 3098, true)));
}

#[test]
fn fastest_close_bounds_treat_zero_as_the_lower_frame_limit() {
    let (_, _, fully_covered) = fastest_close_guidance_bounds(100, 0, 61, 1, true, 0, 1).unwrap();
    assert!(fully_covered);
}

fn expected_values(seed: u32, count: usize) -> Vec<u64> {
    let mut sfmt = Sfmt::new(seed);
    (0..count).map(|_| sfmt.next_u64()).collect()
}

fn expected_advance(values: &[u64], start: i64, models: usize, ticks: i64) -> Option<i64> {
    if start < 0 || ticks < 0 || models == 0 {
        return None;
    }
    let mut cursor = usize::try_from(start).ok()?;
    let mut status = ModelStatus::new(models);
    let mut frame = start;
    for _ in 0..ticks {
        let (used, _) = status.next_state_from(values, &mut cursor)?;
        frame = frame.checked_add(used as i64)?;
    }
    Some(frame)
}

fn expected_landing(values: &[u64], start: i64, target: i64, models: usize) -> bool {
    let mut cursor = usize::try_from(start.max(0)).unwrap();
    let mut status = ModelStatus::new(models);
    let mut frame = start;
    let mut tick = 0;
    while frame <= target && tick < 10_000_000 {
        if frame == target {
            return true;
        }
        let (used, _) = status.next_state_from(values, &mut cursor).unwrap();
        frame += used as i64;
        tick += 1;
    }
    false
}

fn expected_reachability_range(
    seed: u32,
    range: std::ops::RangeInclusive<i64>,
    target: i64,
    models: usize,
    fastest_ticks: Option<i64>,
) -> Vec<(i64, bool)> {
    if range.is_empty() || *range.start() < 0 || models == 0 {
        return Vec::new();
    }
    let end = *range.end();
    let extra = fastest_ticks.unwrap_or(1).max(1).saturating_mul(models as i64).saturating_add(8) as usize;
    let last = end.max(target).max(0) as usize;
    let values = expected_values(seed, last.saturating_add(extra).saturating_add(1));
    range
        .map(|start| {
            let reachable = match fastest_ticks {
                Some(ticks) => expected_advance(&values, start, models, ticks) == Some(target),
                None => expected_landing(&values, start, target, models),
            };
            (start, reachable)
        })
        .collect()
}

fn expected_guidance_batch(request: GuidanceSearchRequest) -> Vec<(i64, bool)> {
    if request.target.saturating_sub(request.observed_start) > MAX_PRODUCTION_LOOKAHEAD {
        return (request.observed_start..=request.observed_end).map(|frame| (frame, false)).collect();
    }
    let mut planned = Vec::new();
    for frame in request.observed_start..=request.observed_end {
        if let Some(plan) = encounter_plan_with_observed_rotom_and_initial_load(
            request.seed,
            frame,
            request.offset,
            request.consider_rotom,
            request.rotom_threshold,
            None,
            request.npc_initial_load,
        ) {
            planned.push((frame, plan.encounter_start));
        }
    }
    let Some(min_start) = planned.iter().map(|(_, start)| *start).min() else {
        return Vec::new();
    };
    let max_start = planned.iter().map(|(_, start)| *start).max().unwrap_or(min_start);
    let by_start: HashMap<i64, bool> = expected_reachability_range(
        request.seed,
        min_start..=max_start,
        request.target,
        request.models,
        request.fastest_ticks,
    )
    .into_iter()
    .collect();
    planned
        .into_iter()
        .filter_map(|(observed, start)| by_start.get(&start).map(|value| (observed, *value)))
        .collect()
}

#[test]
fn guidance_batch_matches_main_reference_for_normal_waiting() {
    let request = GuidanceSearchRequest {
        session_generation: 0,
        observed_start: 10,
        observed_end: 90,
        range_start: 0,
        range_end: 1_000,
        seed: 0xB63523CA,
        target: 140,
        models: 6,
        offset: 200,
        consider_rotom: true,
        rotom_threshold: 79,
        observed_rotom_talk: None,
        pre_rotom_consumption: 0,
        npc_initial_load: 3,
        fastest_ticks: None,
    };
    assert_eq!(calculate_guidance_batch(request), expected_guidance_batch(request));
}

#[test]
fn guidance_batch_matches_main_reference_for_fastest_close() {
    let seed = 0xB63523CA;
    let models = 6;
    let base = encounter_plan_with_observed_rotom_and_initial_load(seed, 10, 0, true, 79, None, 3)
        .unwrap()
        .encounter_start;
    let target = advance_timeline(seed, base, models, 5).unwrap();
    let request = GuidanceSearchRequest {
        session_generation: 0,
        observed_start: 10,
        observed_end: 90,
        range_start: 0,
        range_end: 1_000,
        seed,
        target,
        models,
        offset: 0,
        consider_rotom: true,
        rotom_threshold: 79,
        observed_rotom_talk: None,
        pre_rotom_consumption: 0,
        npc_initial_load: 3,
        fastest_ticks: Some(5),
    };
    assert_eq!(calculate_guidance_batch(request), expected_guidance_batch(request));
}

#[test]
fn guidance_batch_matches_main_reference_at_a_high_absolute_position() {
    let request = GuidanceSearchRequest {
        session_generation: 0,
        observed_start: 50_000,
        observed_end: 50_080,
        range_start: 0,
        range_end: 100_000,
        seed: 1,
        target: 50_140,
        models: 23,
        offset: 0,
        consider_rotom: false,
        rotom_threshold: 79,
        observed_rotom_talk: None,
        pre_rotom_consumption: 0,
        npc_initial_load: 0,
        fastest_ticks: None,
    };
    assert_eq!(calculate_guidance_batch(request), expected_guidance_batch(request));
}
