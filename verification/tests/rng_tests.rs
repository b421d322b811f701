use hatch_blink_search::encounter::{
    blink_interval_ticks, encounter_plan, encounter_plan_with_observed_rotom,
    encounter_plan_with_observed_rotom_and_initial_load, encounter_plan_with_pre_rotom_consumption, rotom_roll_at,
    BLINK_INTERVAL_BASE_TICKS, BLINK_INTERVAL_MODULUS,
};
use hatch_blink_search::hatch_match::{rematch_with_auto_tolerance, MAX_AUTO_TOLERANCE};
use hatch_blink_search::model_status::ModelStatus;
use hatch_blink_search::observation::{
    blink_table, find_matches_in, search_observation, simulate_observation_with_stream, GAME_FRAMES_PER_BLINK_TICK,
    OBSERVATION_LOOKAHEAD,
};
use hatch_blink_search::production_cache::ProductionTimelineCache;
use hatch_blink_search::sfmt::{generate_u64_values, Sfmt};
use hatch_blink_search::timeline::{
    advance_timeline, production_timeline, simulate, target_reachability_range, timeline_target,
};

const FPS: f64 = 59.8621;

fn seconds_to_game_frames(seconds: f64, fps: f64) -> f64 {
    seconds * fps
}

#[test]
fn sfmt_reference() {
    let mut s = Sfmt::new(1);
    let x = [
        0x99CB63CF56A0FAA4u64,
        0xF56A5F31D9AFB700,
        0x8E862E8A4187D5CF,
        0x5EF96EADFEAB0285,
        0xCA84E80C31451224,
        0x3ECC65A8E0158BED,
        0x679CBCDB49C98DEA,
        0x9F6D633A4BA1800E,
        0x42583D2617861D00,
        0x6F549688380241BD,
    ];
    for v in x {
        assert_eq!(s.next_u64(), v);
    }
}

#[test]
fn cached_stream_matches_independent_simulation() {
    let seed = 1;
    let start = 37;
    let target = 137;
    let models = 3;

    let mut main = Sfmt::new(seed);
    for _ in 0..start {
        main.next_u64();
    }
    let mut blink_rng = main.clone();
    let mut status = ModelStatus::new(models);
    let mut frame = start;
    let mut tick = 0;
    let mut direct_blinks = Vec::new();
    while frame <= target && tick < 10_000_000 {
        let before = frame;
        let (used, blink) = status.next_state(&mut blink_rng);
        if !blink.is_empty() {
            direct_blinks.push(before + used as i64);
        }
        for _ in 0..used {
            main.next_u64();
        }
        frame += used as i64;
        tick += 1;
    }

    let cached = simulate(seed, start, target, models);
    assert_eq!(cached.blink_frames, direct_blinks);
}

#[test]
fn observation_search_does_not_depend_on_npc_count() {
    let seed = 1;
    let start = 37;
    let target = 137;
    let observation_target = target + OBSERVATION_LOOKAHEAD;
    let values = generate_u64_values(seed, observation_target as usize + 2);
    let expected = simulate_observation_with_stream(&values, start, observation_target)
        .blinks
        .iter()
        .map(|blink| blink.elapsed_frames)
        .collect::<Vec<_>>();
    let result = search_observation(seed, start, start, target);
    assert_eq!(result.len(), 1);
    assert_eq!(
        result[0].blinks.iter().map(|blink| blink.elapsed_frames).collect::<Vec<_>>(),
        expected
    );
    assert!(result[0].blinks.windows(2).all(|window| {
        window[0].next_blink_ticks
            == Some((window[1].elapsed_frames - window[0].elapsed_frames) / GAME_FRAMES_PER_BLINK_TICK)
    }));
}

#[test]
fn production_starts_from_observation_end_position() {
    let seed = 1;
    let target = 137;
    let start = 37;
    let production = production_timeline(seed, start, target, 2);
    let direct = simulate(seed, start, target, 2);
    assert_eq!(production.target_tick, direct.target_tick);
}

#[test]
fn production_timeline_cache_reuses_one_continuous_state() {
    let seed = 1;
    let start = 37;
    let models = 3;
    let mut cache = ProductionTimelineCache::new(seed, start, models, 1_000).unwrap();
    let target = advance_timeline(seed, start, models, 25).unwrap();
    cache.extend_until(target);
    let point_count = cache.points().len();
    let cached = cache.target(target).unwrap();
    let direct = timeline_target(seed, start, target, models).unwrap();

    assert_eq!(cached, direct);
    assert!(point_count > 0);
    cache.extend_until(target);
    assert_eq!(cache.points().len(), point_count);
    cache.extend_to(None);
    assert!(cache.points().len() > point_count);
}

#[test]
fn visible_blink_events_include_cooldown_correction() {
    let values = generate_u64_values(0x75EBF3BF, 2_001);
    let mut status = ModelStatus::new(1);
    let mut cursor = 0usize;
    let mut elapsed = 0i64;
    let mut points = Vec::new();

    while cursor < values.len() && points.len() < 6 {
        let Some((used, blink)) = status.next_state_from(&values, &mut cursor) else {
            break;
        };
        if !blink.is_empty() {
            points.push((elapsed * GAME_FRAMES_PER_BLINK_TICK, cursor as i64));
        }
        elapsed += 1;
        assert!(used <= 1);
    }

    let elapsed_frames = points.iter().map(|(elapsed, _)| *elapsed).collect::<Vec<_>>();
    let intervals = elapsed_frames.windows(2).map(|pair| pair[1] - pair[0]).collect::<Vec<_>>();

    assert_eq!(&elapsed_frames[..4], &[532, 742, 1146, 1304]);
    assert_eq!(&intervals[..3], &[210, 404, 158]);
    assert_eq!(points[0].1, 263);
}

#[test]
fn hatch_blink_interval_uses_one_u64_value() {
    let mut sfmt = Sfmt::new(1);
    let first = sfmt.next_u64();
    let expected = (first % BLINK_INTERVAL_MODULUS + BLINK_INTERVAL_BASE_TICKS) as i64;

    let timeline = search_observation(1, 0, 0, 0).remove(0);
    assert_eq!(timeline.blinks[0].elapsed_frames, 0);
    assert_eq!(timeline.blinks[0].sfmt_position, 0);
    assert_eq!(timeline.blinks[0].next_blink_ticks, Some(expected));
    assert_eq!(timeline.blinks[1].elapsed_frames, expected * GAME_FRAMES_PER_BLINK_TICK);
    assert!(timeline.blinks[1].next_blink_ticks.is_some());
    assert_eq!(timeline.blinks[1].sfmt_position, 1);
}

#[test]
fn hatch_blink_interval_is_in_display_frame_range() {
    let timeline = search_observation(1, 0, 0, 0).remove(0);
    for blink in &timeline.blinks[..timeline.blinks.len() - 1] {
        assert!((130..=249).contains(&blink.next_blink_ticks.unwrap()));
    }
}

#[test]
fn hatch_interval_tolerance_is_in_display_frames() {
    let values = generate_u64_values(1, 8 + OBSERVATION_LOOKAHEAD as usize + 1);
    let exact = blink_interval_ticks(values[0]) as i64 * GAME_FRAMES_PER_BLINK_TICK;

    let within = find_matches_in(&values, 0, &[exact + 5], 5);
    assert!(within.iter().any(|matched| matched.start_position == 0));

    let outside = find_matches_in(&values, 0, &[exact + 6], 5);
    assert!(!outside.iter().any(|matched| matched.start_position == 0));
}

#[test]
fn f4bae999_saved_seconds_match_the_hatch_formula() {
    let observed_seconds = [
        7.2771875, 7.7706219, 7.1247601, 7.1316971, 5.7158849, 6.2914987, 7.4083393, 7.8265522, 4.3885160,
        6.2150460, 4.9858013, 6.0072102, 6.6241911, 8.2498605,
    ];
    let observed = observed_seconds
        .iter()
        .map(|seconds| seconds_to_game_frames(*seconds, FPS).round() as i64)
        .collect::<Vec<_>>();
    let values = generate_u64_values(0xF4BAE999, 2_000 + OBSERVATION_LOOKAHEAD as usize + 1);
    let matches = find_matches_in(&values, 0, &observed, 15);
    assert!(!matches.is_empty());
}

#[test]
fn encounter_plan_applies_rotom_total_consumption() {
    let mut sfmt = Sfmt::new(1);
    let b_value = sfmt.next_u64();
    let plan = encounter_plan(1, 0, 17).unwrap();
    let expected_rotom = if b_value % 100 < 79 { 2 } else { 1 };
    assert_eq!(plan.b_position, 0);
    assert_eq!(plan.rotom_consumption, expected_rotom);
    assert_eq!(plan.offset, 17);
    assert_eq!(plan.encounter_start, expected_rotom + 1);
}

#[test]
fn encounter_plan_uses_b_value_for_talk_and_applies_rotom_extra_consumption() {
    let seed = 1;
    let mut sfmt = Sfmt::new(seed);
    let b_value = sfmt.next_u64();
    let expected_talk = b_value % 100 < 79;

    let predicted = encounter_plan_with_observed_rotom(seed, 0, 0, true, 79, None).unwrap();
    let forced_silent = encounter_plan_with_observed_rotom(seed, 0, 0, true, 79, Some(false)).unwrap();
    let forced_talk = encounter_plan_with_observed_rotom(seed, 0, 0, true, 79, Some(true)).unwrap();

    assert_eq!(predicted.rotom_consumption, if expected_talk { 2 } else { 1 });
    assert_eq!(forced_silent.rotom_consumption, 1);
    assert_eq!(forced_silent.encounter_start, 2);
    assert_eq!(forced_talk.rotom_consumption, 2);
    assert_eq!(forced_talk.encounter_start, 3);
}

#[test]
fn rotom_is_decided_before_npc_initial_load() {
    let seed = 1;
    let b_roll = rotom_roll_at(seed, 0).unwrap();
    let expected_total = 1 + i64::from(b_roll < 79);
    let plan = encounter_plan_with_observed_rotom_and_initial_load(seed, 0, 0, true, 79, None, 4).unwrap();

    assert_eq!(plan.b_position, 0);
    assert_eq!(plan.rotom_consumption, expected_total);
    assert_eq!(plan.encounter_start, expected_total + 4);
}

#[test]
fn pre_rotom_consumption_moves_rotom_and_initial_load_in_order() {
    let seed = 1;
    let pre = 5;
    let plan = encounter_plan_with_pre_rotom_consumption(seed, 0, 0, true, 79, None, pre, 4).unwrap();
    let roll = rotom_roll_at(seed, pre).unwrap();
    let rotom = 1 + i64::from(roll < 79);

    assert_eq!(plan.b_position, pre);
    assert_eq!(plan.rotom_consumption, rotom);
    assert_eq!(plan.encounter_start, pre + rotom + 4);
}

#[test]
fn encounter_plan_can_disable_the_npc_initial_load() {
    let with_initial_load = encounter_plan_with_observed_rotom_and_initial_load(1, 0, 0, false, 79, None, 1).unwrap();
    let without_initial_load =
        encounter_plan_with_observed_rotom_and_initial_load(1, 0, 0, false, 79, None, 0).unwrap();
    assert_eq!(with_initial_load.b_position, 0);
    assert_eq!(without_initial_load.b_position, 0);
    assert_eq!(with_initial_load.encounter_start, 1);
    assert_eq!(without_initial_load.encounter_start, 0);
}

#[test]
fn batched_reachability_matches_individual_timeline_simulation() {
    let seed = 1;
    let target = 40;
    let batch = target_reachability_range(seed, 10, 20, target, 2, None);
    assert_eq!(batch.len(), 11);
    for (start, reachable) in batch {
        assert_eq!(reachable, production_timeline(seed, start, target, 2).target_tick.is_some());
    }
}

#[test]
fn batched_reachability_keeps_absolute_positions_with_a_relative_window() {
    let seed = 1;
    let start = 50_000;
    let target = start + 40;
    let batch = target_reachability_range(seed, start, start + 10, target, 3, None);
    assert_eq!(batch.len(), 11);
    for (position, reachable) in batch {
        assert_eq!(reachable, production_timeline(seed, position, target, 3).target_tick.is_some());
    }
}

#[test]
fn timeline_target_reports_crossing_at_end_of_step() {
    let result = timeline_target(1, 0, 1, 2).unwrap();
    assert_eq!(result.exact_tick, None);
    assert_eq!(result.timeline_tick, 1);
    assert_eq!((result.frame_before, result.frame_after), (0, 2));
}

#[test]
fn blink_table_uses_raw_u64_and_internal_seconds() {
    let rows = blink_table(1, 0, 1);
    assert_eq!(rows.len(), 2);
    assert_eq!(rows[0].frame, 0);
    assert_eq!(rows[0].random_value, 0x99CB63CF56A0FAA4);
    let seconds = rows[0].interval_ticks as f64 * GAME_FRAMES_PER_BLINK_TICK as f64 / FPS;
    assert!((4.333..=8.3).contains(&seconds));
    assert_eq!(rows[0].rotom_roll, Some((rows[1].random_value % 100) as u8));
    assert_eq!(rows[1].random_value, 0xF56A5F31D9AFB700);
    assert!(rows[1].rotom_roll.is_some());
}

#[test]
fn blink_table_skips_negative_positions() {
    let rows = blink_table(1, -3, 2);
    assert_eq!(rows.iter().map(|row| row.frame).collect::<Vec<_>>(), vec![0, 1, 2]);
    assert_eq!(rows[2].interval_ticks, blink_interval_ticks(rows[2].random_value));
    assert!(blink_table(1, 5, 4).is_empty());
    assert!(blink_table(1, -5, -1).is_empty());
}

#[test]
fn observation_cache_scans_shared_values_without_timeline_duplicates() {
    let values = generate_u64_values(1, 8 + OBSERVATION_LOOKAHEAD as usize + 1);
    let rows = blink_table(1, 0, 2);
    assert_eq!(rows.len(), 3);
    assert_eq!(rows[0].random_value, values[0]);
    let seconds = |row: &hatch_blink_search::observation::BlinkTableRow| {
        row.interval_ticks as f64 * GAME_FRAMES_PER_BLINK_TICK as f64 / FPS
    };
    let observed = rows
        .iter()
        .take(2)
        .map(|row| seconds_to_game_frames(seconds(row), FPS).round() as i64)
        .collect::<Vec<_>>();
    let matches = find_matches_in(&values, 0, &observed, 0);
    assert!(matches.iter().any(|matched| {
        matched.start_position == 0
            && matched.sfmt_position == 2
            && matched.next_blink_ticks == rows[2].interval_ticks as i64
    }));
}

#[test]
fn matching_widens_the_tolerance_until_a_start_matches() {
    let values = generate_u64_values(1, 40);
    let exact: Vec<i64> = (0..3).map(|i| blink_interval_ticks(values[i]) as i64 * GAME_FRAMES_PER_BLINK_TICK).collect();
    // Shifted intervals: the exact start needs a wider tolerance.
    let observed: Vec<i64> = exact.iter().map(|frames| frames + 4).collect();
    let (candidates, tolerance) = rematch_with_auto_tolerance(&values, 0, &observed, 0, 1);
    assert!(!candidates.is_empty());
    assert!(tolerance >= 1 && tolerance <= 4);
    if tolerance > 1 {
        assert!(find_matches_in(&values, 0, &observed, tolerance - 1).is_empty());
    }
    let expected = find_matches_in(&values, 0, &observed, tolerance);
    assert_eq!(candidates.len(), expected.len());
    for (candidate, matched) in candidates.iter().zip(expected.iter()) {
        assert_eq!(candidate.start_position, matched.start_position);
        assert_eq!(candidate.sfmt_position, matched.sfmt_position);
        assert_eq!(candidate.next_blink_ticks, Some(matched.next_blink_ticks));
        assert!(!candidate.target_reachable);
    }
    let (_, capped) = rematch_with_auto_tolerance(&values, 0, &observed, 40, 3);
    assert_eq!(capped, MAX_AUTO_TOLERANCE);
    let (none, widest) = rematch_with_auto_tolerance(&values, 0, &[1_000_000], 0, 0);
    assert!(none.is_empty());
    assert_eq!(widest, MAX_AUTO_TOLERANCE);
}

#[test]
fn a_new_cache_is_empty_and_answers_every_grown_target_freshly() {
    assert!(ProductionTimelineCache::new(1, -1, 3, 1_000).is_none());
    assert!(ProductionTimelineCache::new(1, 37, 0, 1_000).is_none());
    assert!(ProductionTimelineCache::new(1, 37, 3, 0).is_none());
    let mut cache = ProductionTimelineCache::new(1, 37, 3, 1_000).unwrap();
    assert!(cache.points().is_empty());
    assert_eq!(cache.target(36), None);
    let far = advance_timeline(1, 37, 3, 60).unwrap();
    cache.extend_until(far);
    for t in 37..=far {
        assert_eq!(cache.target(t), timeline_target(1, 37, t, 3), "target {t}");
    }
    let wide = ProductionTimelineCache::new(1, 37, 3, i64::MAX).unwrap();
    assert!(wide.points().is_empty());
}
