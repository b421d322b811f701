use hatch_blink_search::encounter::encounter_plan_with_pre_rotom_consumption;
use hatch_blink_search::field::{search, search_without_target_model};
use hatch_blink_search::field_advance::{advance_candidates_by_interval, advance_result_by_interval};
use hatch_blink_search::field_extend::{advance_cursor_to_frame, extend_result_timeline, TIMELINE_CHUNK_TICKS};
use hatch_blink_search::field_types::FieldConfig;
use hatch_blink_search::guidance::calculate_guidance_batch;
use hatch_blink_search::guidance_view::{circle_guidance, record_circle};
use hatch_blink_search::sfmt::{generate_u64_values_from, sfmt_after};
use hatch_blink_search::observation::find_matches_in;
use hatch_blink_search::production::ProductionQuery;
use hatch_blink_search::production_cache::ProductionTimelineCache;
use hatch_blink_search::production_session::{production_for_position, table_reachability};
use hatch_blink_search::state_types::{GuidanceSearchRequest, NormalTimerSegment};
use hatch_blink_search::timeline::{advance_timeline, target_reachability_range, production_timeline, timeline_target};
use hatch_blink_search::timer_plan::{normal_timer_segment_plan, normal_timer_total_frames};

fn strings(values: &[&str]) -> Vec<String> {
    values.iter().map(|value| value.to_string()).collect()
}

#[test]
fn timer_plan_adds_up_to_the_total() {
    let cases: Vec<(&str, Vec<String>, Vec<bool>)> = vec![
        ("800", strings(&["200", "100"]), vec![]),
        ("800", strings(&["200", "100", " 7 "]), vec![true, false]),
        ("0", strings(&["0", "0"]), vec![false, true]),
        (" 15 ", vec![], vec![]),
    ];
    for (wait, offsets, enabled) in cases {
        let total = normal_timer_total_frames(wait, &offsets, &enabled).unwrap();
        let plan = normal_timer_segment_plan(wait, &offsets, &enabled).unwrap();
        assert_eq!(plan.iter().map(|(_, frames)| *frames).sum::<i64>(), total);
        assert_eq!(plan.last().map(|(segment, _)| *segment), Some(NormalTimerSegment::Wait));
        let offsets_seen: Vec<usize> = plan
            .iter()
            .filter_map(|(segment, _)| match segment {
                NormalTimerSegment::Offset(i) => Some(*i),
                NormalTimerSegment::Wait => None,
            })
            .collect();
        assert!(offsets_seen.windows(2).all(|w| w[0] < w[1]));
        assert!(offsets_seen.iter().all(|i| enabled.get(*i).copied().unwrap_or(true)));
    }
}

#[test]
fn timer_plan_names_the_first_refused_field() {
    assert_eq!(
        normal_timer_total_frames("x", &strings(&["1"]), &vec![]).unwrap_err(),
        "実際の待機Frameは整数で入力してください。"
    );
    assert_eq!(
        normal_timer_total_frames("-1", &strings(&["1"]), &vec![]).unwrap_err(),
        "実際の待機Frameは0以上で入力してください。"
    );
    assert_eq!(
        normal_timer_total_frames("1", &strings(&["1", "a"]), &vec![]).unwrap_err(),
        "オフセット2は整数で入力してください。"
    );
    assert_eq!(
        normal_timer_total_frames("1", &strings(&["-3", "a"]), &vec![]).unwrap_err(),
        "オフセット1は0以上で入力してください。"
    );
    assert_eq!(
        normal_timer_total_frames("1", &strings(&["a"]), &vec![false]).unwrap(),
        1
    );
    assert_eq!(
        normal_timer_total_frames(&i64::MAX.to_string(), &strings(&["1"]), &vec![]).unwrap_err(),
        "待機Frameの合計が大きすぎます。"
    );
}

#[test]
fn offset_never_moves_encounter_positions() {
    for observed in [0_i64, 5, 808, 12_345] {
        let a = encounter_plan_with_pre_rotom_consumption(1, observed, 0, true, 79, None, 2, 1).unwrap();
        let b = encounter_plan_with_pre_rotom_consumption(1, observed, 500, true, 79, None, 2, 1).unwrap();
        assert_eq!(a.b_position, b.b_position);
        assert_eq!(a.rotom_consumption, b.rotom_consumption);
        assert_eq!(a.encounter_start, b.encounter_start);
        assert_eq!((a.offset, b.offset), (0, 500));
        assert_eq!(a.b_position, observed + 2);
        assert_eq!(a.encounter_start, a.b_position + a.rotom_consumption + 1);
        let without_load = encounter_plan_with_pre_rotom_consumption(1, observed, 0, true, 79, None, 2, 0).unwrap();
        assert_eq!(without_load.rotom_consumption, a.rotom_consumption);
        assert_eq!(without_load.encounter_start + 1, a.encounter_start);
    }
    assert!(encounter_plan_with_pre_rotom_consumption(1, -1, 0, true, 79, None, 0, 1).is_none());
    assert!(encounter_plan_with_pre_rotom_consumption(1, 0, 0, true, 79, None, -1, 1).is_none());
    assert!(encounter_plan_with_pre_rotom_consumption(1, 0, 0, true, 79, None, 0, -1).is_none());
}

#[test]
fn target_lookup_reports_landing_or_crossing() {
    let start = 3;
    let models = 2;
    for target in start..start + 60 {
        let t = timeline_target(1, start, target, models).unwrap();
        match t.exact_tick {
            Some(k) => {
                assert_eq!((t.frame_before, t.frame_after, t.timeline_tick), (target, target, k));
                assert_eq!(advance_timeline(1, start, models, k), Some(target));
            },
            None => {
                assert!(t.frame_before < target && target < t.frame_after);
                assert_eq!(advance_timeline(1, start, models, t.timeline_tick), Some(t.frame_after));
                assert_eq!(advance_timeline(1, start, models, t.timeline_tick - 1), Some(t.frame_before));
            },
        }
    }
    assert!(timeline_target(1, 10, 9, models).is_none());
}

#[test]
fn batched_reachability_is_an_exact_landing() {
    let batch = target_reachability_range(7, 0, 30, 60, 3, None);
    assert_eq!(batch.len(), 31);
    for (i, (start, reachable)) in batch.iter().enumerate() {
        assert_eq!(*start, i as i64);
        let single = production_timeline(7, *start, 60, 3);
        assert_eq!(*reachable, single.target_tick.is_some());
        if let Some(k) = single.target_tick {
            assert_eq!(advance_timeline(7, *start, 3, k), Some(60));
        }
    }
}

#[test]
fn field_search_stays_in_range_and_keeps_the_known_model() {
    let config = FieldConfig {
        seed: 1,
        range_start: 100,
        range_end: 3_000,
        models: 3,
        target_model: 2,
        observed_intervals: vec![300, 300],
        tolerance: 1_000,
        target_consumption: None,
    };
    let known = search(&config).unwrap();
    assert!(!known.is_empty());
    assert!(known.iter().all(|r| r.observed_model == 2 && (100..=3_000).contains(&r.start_consumption)));
    assert!(known.windows(2).all(|w| w[0].start_consumption <= w[1].start_consumption));

    let unknown = search_without_target_model(&config).unwrap();
    assert!(unknown.len() >= known.len());
    assert!(unknown.iter().all(|r| r.observed_model < 3 && (100..=3_000).contains(&r.start_consumption)));
    assert!(unknown.windows(2).all(|w| w[0].start_consumption <= w[1].start_consumption));
    assert!(unknown.iter().all(|r| r.target_wait_frame.is_none()));
}

#[test]
fn timeline_extension_continues_from_the_saved_state() {

    let config = FieldConfig {
        seed: 1,
        range_start: 0,
        range_end: 400,
        models: 2,
        target_model: 1,
        observed_intervals: vec![300],
        tolerance: 1_000,
        target_consumption: None,
    };
    let mut result = search(&config).unwrap().into_iter().next().expect("a candidate");
    let before_rows = result.timeline.clone();
    let cursor = result.timeline_cursor.as_ref().expect("saved state");
    let (tick0, stream0) = (cursor.tick, cursor.stream_cursor);
    let last_frame = before_rows.last().unwrap().timeline_frame;

    // Far behind the last row: nothing to do.
    let mut rng = sfmt_after(1, stream0 as u64);
    assert!(!extend_result_timeline(&mut result, &mut rng, 1, last_frame - 3 * TIMELINE_CHUNK_TICKS));
    assert_eq!(result.timeline, before_rows);
    assert_eq!(result.timeline_cursor.as_ref().unwrap().tick, tick0);

    let mut rng = sfmt_after(1, stream0 as u64);
    assert!(extend_result_timeline(&mut result, &mut rng, 1, last_frame));
    let rows = &result.timeline;
    assert!(rows.len() > before_rows.len());
    assert_eq!(&rows[..before_rows.len() - 1], &before_rows[..before_rows.len() - 1]);
    for pair in rows[before_rows.len() - 1..].windows(2) {
        assert!(pair[0].timeline_frame < pair[1].timeline_frame);
        assert_eq!(pair[0].duration_frames, pair[1].timeline_frame - pair[0].timeline_frame);
        assert!(!pair[1].observed);
    }
    assert_eq!(rows.last().unwrap().duration_frames, 0);
    let cursor = result.timeline_cursor.as_ref().unwrap();
    assert_eq!(cursor.tick, tick0 + TIMELINE_CHUNK_TICKS);
    assert!(cursor.consumption >= before_rows.last().unwrap().frame);
    // The new rows are the observed model's blinks on the same timeline.
    assert!(rows.last().unwrap().timeline_frame <= 2 * cursor.tick);
}

#[test]
fn circle_guidance_counts_blinks_to_the_next_circle() {
    let circles = vec![5, 9, 12];

    // Before the first circle: blinks to it.
    let g = circle_guidance(3, 3, 20, 10, &circles, Some(false), false, None, true, 100, false, false);
    assert_eq!(g.next_circle_frame, Some(5));
    assert_eq!(g.blinks_until_circle, 2);
    assert!(!g.reachable_now);
    assert!(!g.target_unreachable && !g.search_out_of_range);

    // On a circle: blinks to the one after it, within the known positions.
    let g = circle_guidance(5, 5, 20, 10, &circles, Some(true), false, None, true, 100, false, false);
    assert!(g.reachable_now);
    assert_eq!(g.next_circle_frame, Some(5));
    assert_eq!(g.blinks_until_circle, 4);

    // On the last known circle: nothing further yet.
    let g = circle_guidance(9, 9, 20, 9, &circles, Some(true), false, None, true, 100, false, false);
    assert_eq!(g.blinks_until_circle, 0);

    // No circle in the known part: everything checked so far is counted.
    let g = circle_guidance(13, 13, 20, 18, &circles, None, false, None, true, 100, false, false);
    assert_eq!(g.next_circle_frame, None);
    assert_eq!(g.blinks_until_circle, 6);
    assert_eq!(g.current_reachability, None);

    // A normal wait whose target is behind the current position.
    let g = circle_guidance(13, 13, 20, 18, &circles, None, false, None, true, 12, false, false);
    assert!(g.target_unreachable);
    let g = circle_guidance(13, 13, 20, 18, &circles, None, false, None, true, 12, true, false);
    assert!(!g.target_unreachable);
}

#[test]
fn circle_guidance_for_fastest_close_and_far_targets() {
    let circles = vec![40, 44];

    // Outside the theoretical window the current position is known not to be a circle.
    let g = circle_guidance(10, 30, 50, 50, &circles, None, true, Some(true), false, 1000, false, false);
    assert_eq!(g.current_reachability, Some(false));
    assert_eq!(g.next_circle_frame, Some(40));
    assert_eq!(g.blinks_until_circle, 30);

    // The whole theoretical window searched without a circle.
    let g = circle_guidance(10, 30, 50, 50, &vec![], None, true, Some(true), false, 1000, false, false);
    assert!(g.target_unreachable);
    let g = circle_guidance(10, 30, 50, 50, &vec![], None, true, Some(true), true, 1000, false, false);
    assert!(!g.target_unreachable);
    let g = circle_guidance(10, 30, 50, 50, &vec![], None, true, Some(false), false, 1000, false, false);
    assert!(!g.target_unreachable);

    // Beyond the common limit: out of the search, not unreachable.
    let g = circle_guidance(10, 30, 50, 50, &circles, Some(true), true, Some(true), false, 1000, false, true);
    assert!(g.search_out_of_range && !g.target_unreachable && !g.reachable_now);
    assert_eq!(g.current_reachability, Some(false));
    assert_eq!((g.next_circle_frame, g.blinks_until_circle), (None, 0));
}

#[test]
fn recorded_circles_keep_the_latest_sixteen() {
    let mut recorded: Vec<i64> = Vec::new();
    record_circle(&mut recorded, 7, false, true);
    record_circle(&mut recorded, 7, true, false);
    assert!(recorded.is_empty());
    for frame in 0..20 {
        record_circle(&mut recorded, frame, true, true);
        record_circle(&mut recorded, frame, true, true);
    }
    assert_eq!(recorded, (4..20).collect::<Vec<i64>>());
}

#[test]
fn unique_timeline_extends_from_the_previous_remain_state() {
    let config = FieldConfig {
        seed: 1,
        range_start: 0,
        range_end: 10,
        models: 1,
        target_model: 0,
        observed_intervals: vec![1],
        tolerance: 1_000,
        target_consumption: Some(100_000),
    };
    let mut results = search(&config).unwrap();
    let mut result = results.remove(0);
    let before = result.timeline.len();
    // The last blink was observed 170 seconds ago.
    let current = result.last_wait_frame + (170.0_f64 * 59.8621).floor() as i64;
    let stream = result.timeline_cursor.as_ref().unwrap().stream_cursor;
    let mut rng = sfmt_after(1, stream as u64);
    assert!(extend_result_timeline(&mut result, &mut rng, 1, current));
    assert!(result.timeline.len() > before);
    assert!(result.timeline.last().unwrap().timeline_frame > 10_000);
}

#[test]
fn candidates_follow_the_next_observed_interval() {
    let config = FieldConfig {
        seed: 1,
        range_start: 0,
        range_end: 400,
        models: 2,
        target_model: 0,
        observed_intervals: vec![300],
        tolerance: 1_000,
        target_consumption: Some(2_000),
    };
    let results = search(&config).unwrap();
    assert!(!results.is_empty());
    let first = &results[0];
    let next = first
        .timeline
        .iter()
        .find(|row| row.timeline_frame > first.last_wait_frame && !row.observed)
        .copied()
        .expect("a later blink");
    let interval = next.timeline_frame - first.last_wait_frame;

    let advanced = advance_result_by_interval(first.clone(), interval, 0).expect("exact interval is kept");
    assert_eq!(advanced.last_wait_frame, next.timeline_frame);
    assert_eq!(advanced.last_consumption, next.frame);
    assert_eq!(advanced.intervals.last(), Some(&interval));
    assert_eq!(advanced.intervals.len(), first.intervals.len() + 1);
    assert!(advanced.timeline.iter().any(|row| row.timeline_frame == next.timeline_frame && row.observed));
    let after = advanced.timeline.iter().find(|row| row.timeline_frame > next.timeline_frame);
    assert_eq!(advanced.next_blink_wait_frame, after.map(|row| row.timeline_frame - next.timeline_frame).unwrap_or(0));
    if let (Some(before), Some(now)) = (first.target_wait_frame, advanced.target_wait_frame) {
        assert_eq!(now, before - interval);
    }
    assert!(advance_result_by_interval(first.clone(), interval + 3, 2).is_none());
    assert!(advance_result_by_interval(first.clone(), interval + 3, 3).is_some());

    // An unreadable tolerance leaves every candidate in place.
    let count = results.len();
    assert_eq!(advance_candidates_by_interval(results.clone(), interval, "x").len(), count);
    assert_eq!(advance_candidates_by_interval(results.clone(), interval, "-1").len(), count);
    let kept = advance_candidates_by_interval(results.clone(), interval, "1000");
    assert!(kept.len() <= count && !kept.is_empty());
    assert!(kept.windows(2).all(|w| w[0].start_consumption <= w[1].start_consumption));
    let first_start = first.start_consumption;
    let strict = advance_candidates_by_interval(results, interval, " 0 ");
    assert!(strict.iter().any(|r| r.start_consumption == first_start));
    assert!(strict.iter().all(|r| r.intervals.last() == Some(&interval)));
}

#[test]
fn production_run_reuses_the_kept_timeline() {
    let query = ProductionQuery {
        seed: 1,
        target: 900,
        models: 3,
        offset: 0,
        consider_rotom: true,
        rotom_threshold: 79,
        observed_rotom_talk: None,
        pre_rotom_consumption: 0,
        npc_initial_load: 1,
        fastest_ticks: None,
    };
    let mut cache: Option<ProductionTimelineCache> = None;
    let start = query.encounter_start(10).unwrap();
    let run = production_for_position(&mut cache, query, 10).unwrap();
    assert_eq!(run.target, 900);
    assert_eq!(run.target_tick, production_timeline(1, start, 900, 3).target_tick);
    assert_eq!(cache.as_ref().map(|c| c.start()), Some(start));

    // The same start again: the kept timeline answers.
    let again = production_for_position(&mut cache, query, 10).unwrap();
    assert_eq!(again.target_tick, run.target_tick);
    assert_eq!(cache.as_ref().map(|c| c.start()), Some(start));

    // Too far ahead: nothing, and the kept timeline stays.
    let far = ProductionQuery { target: 10 + 100_001, ..query };
    assert!(production_for_position(&mut cache, far, 10).is_none());
    assert_eq!(cache.as_ref().map(|c| c.start()), Some(start));

    // A negative position has no start.
    assert!(production_for_position(&mut cache, query, -1).is_none());
}

#[test]
fn table_rows_use_the_kept_timeline_only_for_a_single_normal_candidate() {
    let query = ProductionQuery {
        seed: 1,
        target: 900,
        models: 3,
        offset: 0,
        consider_rotom: true,
        rotom_threshold: 79,
        observed_rotom_talk: None,
        pre_rotom_consumption: 0,
        npc_initial_load: 1,
        fastest_ticks: None,
    };
    let none: Option<ProductionTimelineCache> = None;
    for frame in 0..40 {
        let own = query.target_exactly_reached(frame).unwrap_or(false);
        assert_eq!(table_reachability(&none, query, frame, true), Some(own));
    }
    assert_eq!(table_reachability(&none, ProductionQuery { target: 200_000, ..query }, 10, false), Some(false));
    assert_eq!(table_reachability(&none, query, -5, false), None);

    let mut cache: Option<ProductionTimelineCache> = None;
    let run = production_for_position(&mut cache, query, 0).unwrap();
    // The row the kept timeline starts from answers as its own run does.
    assert_eq!(table_reachability(&cache, query, 0, true), Some(run.target_tick.is_some()));
    assert_eq!(
        table_reachability(&cache, query, 0, true),
        Some(query.target_exactly_reached(0).unwrap_or(false))
    );
}

#[test]
fn guidance_batch_agrees_with_each_row_check() {
    use_batch_rows(None, 300, 2);
    use_batch_rows(Some(4), 300, 2);
    // Outside the shared-stream limits the rows are computed one by one.
    use_batch_rows(None, -3, 2);
    use_batch_rows(Some(4), -3, 2);
    use_batch_rows(None, 300, 300);
}

fn use_batch_rows(fastest_ticks: Option<i64>, observed_start: i64, models: usize) {
    let target = 700;
    let request = GuidanceSearchRequest {
        session_generation: 0,
        observed_start,
        observed_end: 420,
        range_start: 0,
        range_end: 1000,
        seed: 1,
        target,
        models,
        offset: 0,
        consider_rotom: true,
        rotom_threshold: 79,
        observed_rotom_talk: None,
        pre_rotom_consumption: 0,
        npc_initial_load: 1,
        fastest_ticks,
    };
    let query = ProductionQuery {
        seed: 1,
        target,
        models,
        offset: 0,
        consider_rotom: true,
        rotom_threshold: 79,
        observed_rotom_talk: None,
        pre_rotom_consumption: 0,
        npc_initial_load: 1,
        fastest_ticks,
    };
    let batch = calculate_guidance_batch(request);
    assert_eq!(batch.len() as i64, 420 - observed_start + 1);
    for (position, reachable) in batch {
        assert_eq!(reachable, query.target_exactly_reached(position).unwrap_or(false));
    }
}

#[test]
fn shown_position_follows_the_candidate_timeline() {
    let config = FieldConfig {
        seed: 1,
        range_start: 0,
        range_end: 400,
        models: 2,
        target_model: 1,
        observed_intervals: vec![300],
        tolerance: 1_000,
        target_consumption: None,
    };
    let result = search(&config).unwrap().into_iter().next().expect("a candidate");
    let mut cursor = result.target_cursor.clone().expect("state after the last observed blink");
    let mut rng = sfmt_after(1, cursor.stream_cursor as u64);
    let shown = result.last_wait_frame + 601;
    let position = advance_cursor_to_frame(&mut cursor, &mut rng, 1, shown, result.last_wait_frame);
    assert_eq!(cursor.tick, shown / 2);
    assert_eq!(Some(position), advance_timeline(1, result.start_consumption, result.models, shown / 2));

    // Never backwards.
    let again = advance_cursor_to_frame(&mut cursor, &mut rng, 1, 0, result.last_wait_frame);
    assert_eq!(again, position);
    assert_eq!(cursor.tick, shown / 2);

    // Continuing from the moved cursor is the same timeline.
    let later = advance_cursor_to_frame(&mut cursor, &mut rng, 1, shown + 400, 0);
    assert_eq!(Some(later), advance_timeline(1, result.start_consumption, result.models, (shown + 400) / 2));
}

#[test]
fn widening_the_tolerance_keeps_every_match() {
    let values = generate_u64_values_from(0xB63523CA, 0, 3000);
    let observed = vec![300, 420, 290];
    let mut previous = find_matches_in(&values, 0, &observed, 0);
    for tolerance in 1..=15 {
        let wider = find_matches_in(&values, 0, &observed, tolerance);
        assert!(previous.iter().all(|m| wider.contains(m)));
        assert!(wider.len() >= previous.len());
        previous = wider;
    }
    assert!(!previous.is_empty());
}

#[test]
fn advanced_positions_stay_within_one_value_per_model_per_tick() {
    assert_eq!(advance_timeline(1, 37, 3, 0), Some(37));
    let mut previous = 37;
    for ticks in 1..=200 {
        let position = advance_timeline(1, 37, 3, ticks).unwrap();
        assert!(previous <= position && position <= 37 + 3 * ticks);
        previous = position;
    }
    assert_eq!(advance_timeline(1, -1, 3, 5), None);
    assert_eq!(advance_timeline(1, 37, 0, 5), None);
}

#[test]
fn a_target_at_the_start_is_reached_at_tick_zero() {
    let found = timeline_target(1, 37, 37, 3).unwrap();
    assert_eq!((found.exact_tick, found.timeline_tick, found.frame_before, found.frame_after), (Some(0), 0, 37, 37));
    assert!(timeline_target(1, 37, 36, 3).is_none());
}
