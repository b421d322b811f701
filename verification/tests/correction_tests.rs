use hatch_blink_search::encounter::{
    encounter_plan_with_observed_rotom, encounter_plan_with_pre_rotom_consumption, encounter_plan_with_rotom,
    rotom_roll_at,
};
use hatch_blink_search::guidance::{calculate_guidance_batch, guidance_results_complete};
use hatch_blink_search::hatch_session::{
    corrected_offset, correction_preview, correction_start_candidates, hatch_search_config, range_from_target,
    encounter_offset_value, encounter_step, npc_initial_load_value, pre_rotom_consumption_value, rotom_correction,
    rotom_threshold_value, timeline_drift, tolerance_value, EncounterStep, HatchSearch, fastest_correction_source, rotom_talk_at,
    selected_correction_start,
};
use hatch_blink_search::cache_file::{cache_file_name, fallback_beep, fallback_candidate_not_found};
use hatch_blink_search::production_session::calculate_candidate_reachability;
use hatch_blink_search::production::{ProductionQuery, MAX_PRODUCTION_LOOKAHEAD};
use hatch_blink_search::observation::ObservationMatch;
use hatch_blink_search::state_types::{CandidateReachabilityRequest, GuidanceSearchRequest, TimelineCandidate};
use hatch_blink_search::timeline::{advance_timeline, production_timeline, reaches_exactly};

const MAX_FRAME: i64 = 50_000_000;
const DEFAULT_SEED: &str = "00000001";

/// The settings of a fresh hatch tab, with the NPC count given.
fn default_config(npc: &str) -> HatchSearch {
    hatch_search_config(DEFAULT_SEED, "0", "1000", "1000", npc).unwrap()
}

fn request(
    observed_start: i64,
    observed_end: i64,
    range_start: i64,
    range_end: i64,
    target: i64,
    models: usize,
) -> GuidanceSearchRequest {
    GuidanceSearchRequest {
        session_generation: 0,
        observed_start,
        observed_end,
        range_start,
        range_end,
        seed: 1,
        target,
        models,
        offset: 0,
        consider_rotom: false,
        rotom_threshold: 79,
        observed_rotom_talk: None,
        pre_rotom_consumption: 0,
        npc_initial_load: 0,
        fastest_ticks: None,
    }
}

#[test]
fn range_button_uses_target_as_end() {
    assert_eq!(range_from_target("12345", "10000"), Some((2345, 12345)));
    assert_eq!(range_from_target("5000", "10000"), Some((0, 5000)));
    assert_eq!(range_from_target("12345", "1234"), Some((11111, 12345)));
}

#[test]
fn search_config_rejects_invalid_or_unreasonably_large_npc_counts() {
    assert!(hatch_search_config(DEFAULT_SEED, "0", "1000", "1000", "not-a-number").is_err());
    assert!(hatch_search_config(DEFAULT_SEED, "0", "1000", "1000", "51").is_err());
    assert!(hatch_search_config(DEFAULT_SEED, "0", "1000", "1000", "50").is_ok());
}

#[test]
fn search_config_allows_target_far_from_observation_range_start() {
    let far = (MAX_PRODUCTION_LOOKAHEAD + 1).to_string();
    assert!(hatch_search_config(DEFAULT_SEED, "0", "1000", &far, "0").is_ok());

    let end = (9_000_000 + MAX_PRODUCTION_LOOKAHEAD).to_string();
    assert!(hatch_search_config(DEFAULT_SEED, "9000000", &end, &end, "0").is_ok());
}

#[test]
fn guidance_batch_short_circuits_target_beyond_current_window() {
    let mut r = request(100, 104, 0, MAX_FRAME, 100 + MAX_PRODUCTION_LOOKAHEAD + 1, 6);
    r.consider_rotom = true;
    r.npc_initial_load = 1;
    assert_eq!(
        calculate_guidance_batch(r),
        vec![(100, false), (101, false), (102, false), (103, false), (104, false)]
    );
}

#[test]
fn incomplete_guidance_results_do_not_advance_computed_end() {
    let r = request(10, 12, 0, 100, 20, 1);
    assert!(!guidance_results_complete(&r, &vec![(10, false), (12, true)]));
    assert!(guidance_results_complete(&r, &vec![(10, false), (11, false), (12, true)]));
}

#[test]
fn guidance_batch_covers_current_to_target_even_when_observation_range_ended() {
    let r = request(3_000, 5_000, 0, 1_000, 5_000, 1);
    let results = calculate_guidance_batch(r);
    assert_eq!(results.len(), 2_001);
    assert_eq!(results.first().map(|(frame, _)| *frame), Some(3_000));
    assert_eq!(results.last().map(|(frame, _)| *frame), Some(5_000));
}

#[test]
fn fastest_guidance_applies_offset_ticks_once() {
    let seed = 1;
    let models = 2;
    let query = ProductionQuery {
        seed,
        target: 0,
        models,
        offset: 0,
        consider_rotom: true,
        rotom_threshold: 79,
        observed_rotom_talk: None,
        pre_rotom_consumption: 0,
        npc_initial_load: 1,
        fastest_ticks: Some(5),
    };
    let base = query.base_encounter_start(0).unwrap();
    let target = advance_timeline(seed, base, models, 5).unwrap();
    let mut r = request(0, 0, 0, 100, target, models);
    r.consider_rotom = true;
    r.npc_initial_load = 1;
    r.fastest_ticks = Some(5);
    assert_eq!(calculate_guidance_batch(r), vec![(0, true)]);
}

#[test]
fn reported_fastest_close_case_uses_each_start_position() {
    let expected = [(808, 10, 813, 1028), (809, 47, 814, 1028), (810, 2, 815, 1028)];
    for (start, expected_roll, expected_encounter_start, expected_after_offset) in expected {
        assert_eq!(rotom_roll_at(1, start), Some(expected_roll));
        let plan = encounter_plan_with_pre_rotom_consumption(1, start, 0, true, 70, None, 0, 3)
            .expect("reported case must produce an encounter plan");
        assert_eq!(plan.rotom_consumption, 2);
        assert_eq!(plan.encounter_start, expected_encounter_start);
        assert_eq!(advance_timeline(1, plan.encounter_start, 4, 61), Some(expected_after_offset));
    }

    let mut r = request(808, 810, 808, 810, 1028, 4);
    r.offset = 122;
    r.consider_rotom = true;
    r.rotom_threshold = 70;
    r.npc_initial_load = 3;
    r.fastest_ticks = Some(61);
    assert_eq!(calculate_guidance_batch(r), vec![(808, true), (809, true), (810, true)]);
}

#[test]
fn offset_correction_converts_strict_timeline_ticks_to_display_frames() {
    let config = default_config("1");
    let plan = encounter_plan_with_rotom(config.seed, 0, 0, true).unwrap();
    // A 10-frame offset is 5 ticks; target and actual come from one path.
    let target = advance_timeline(config.seed, plan.encounter_start, config.npc_models, 5).unwrap();
    let actual = advance_timeline(config.seed, plan.encounter_start, config.npc_models, 7).unwrap();
    let preview = correction_preview(
        config.seed,
        config.npc_models,
        Some(plan.encounter_start),
        target,
        &actual.to_string(),
        10,
        true,
        None,
    )
    .unwrap();
    assert_eq!(preview.suggested_offset, 14);
}

#[test]
fn offset_correction_uses_the_selected_circle_rotom_prediction() {
    let config = default_config("1");
    let predicted = u64::from(rotom_roll_at(config.seed, 0).unwrap()) < 79;
    let predicted_plan =
        encounter_plan_with_observed_rotom(config.seed, 0, 0, true, 79, Some(predicted)).unwrap();
    let target = advance_timeline(config.seed, predicted_plan.encounter_start, config.npc_models, 5).unwrap();
    let actual = advance_timeline(config.seed, predicted_plan.encounter_start, config.npc_models, 7).unwrap();
    // The observed chatter is the opposite of the prediction.
    let used_plan = encounter_plan_with_observed_rotom(config.seed, 0, 0, true, 79, Some(!predicted)).unwrap();
    let preview = correction_preview(
        config.seed,
        config.npc_models,
        Some(used_plan.encounter_start),
        target,
        &actual.to_string(),
        10,
        false,
        None,
    )
    .unwrap();
    assert_eq!(preview.suggested_offset, 6);
}

#[test]
fn correction_adjusts_existing_offset_by_timeline_difference() {
    let config = hatch_search_config("B63523CA", "0", "1000", "3000", "5").unwrap();
    let plan = encounter_plan_with_rotom(config.seed, 692, 0, true).unwrap();
    // Target 3000 is tick 508 and the actual 3003 tick 509 from circle 692.
    let preview =
        correction_preview(config.seed, config.npc_models, Some(plan.encounter_start), 3000, "3003", 216, false, None)
            .unwrap();
    assert_eq!(preview.suggested_offset, 214);
    // The correction keeps starting from the offset the run was made with.
    let again =
        correction_preview(config.seed, config.npc_models, Some(plan.encounter_start), 3000, "3003", 216, false, None)
            .unwrap();
    assert_eq!(again.suggested_offset, 214);
}

#[test]
fn correction_offset_uses_target_actual_display_frame_drift() {
    let source_plan = encounter_plan_with_rotom(1, 0, 0, true).unwrap();
    let source_target = advance_timeline(1, source_plan.encounter_start, 6, 5).unwrap();
    let source_actual = advance_timeline(1, source_plan.encounter_start, 6, 7).unwrap();
    let preview = correction_preview(
        1,
        6,
        Some(source_plan.encounter_start),
        source_target,
        &source_actual.to_string(),
        100,
        false,
        None,
    )
    .unwrap();
    assert_eq!(preview.suggested_offset, 100 - 4);
    assert_eq!(preview.timeline_start, source_plan.encounter_start);
    assert!(preview.target_on_timeline);
    assert!(preview.actual_on_timeline);
}

#[test]
fn correction_keeps_offset_when_actual_is_target_step_end() {
    let source_plan = encounter_plan_with_rotom(1, 0, 0, true).unwrap();
    let target = source_plan.encounter_start + 1;
    let actual = advance_timeline(1, source_plan.encounter_start, 6, 1).unwrap();
    let preview =
        correction_preview(1, 6, Some(source_plan.encounter_start), target, &actual.to_string(), 100, false, None)
            .unwrap();
    assert_eq!(preview.suggested_offset, 100);
}

#[test]
fn fastest_correction_can_compare_frame_before_offset_landing() {
    let config = default_config("1");
    let plan = encounter_plan_with_rotom(config.seed, 0, 0, true).unwrap();
    let target = advance_timeline(config.seed, plan.encounter_start, config.npc_models, 5).unwrap();
    let actual = advance_timeline(config.seed, plan.encounter_start, config.npc_models, 4).unwrap();
    assert!(actual < target);
    assert!(correction_preview(
        config.seed,
        config.npc_models,
        Some(plan.encounter_start),
        target,
        &actual.to_string(),
        10,
        true,
        None
    )
    .is_ok());
}

#[test]
fn correction_still_returns_preview_when_direction_would_go_below_zero() {
    let config = default_config("1");
    let plan = encounter_plan_with_rotom(config.seed, 0, 0, true).unwrap();
    let earlier = advance_timeline(config.seed, plan.encounter_start, config.npc_models, 1).unwrap();
    let later = advance_timeline(config.seed, plan.encounter_start, config.npc_models, 2).unwrap();

    let normal = correction_preview(
        config.seed,
        config.npc_models,
        Some(plan.encounter_start),
        earlier,
        &later.to_string(),
        0,
        false,
        None,
    )
    .unwrap();
    assert_eq!(normal.suggested_offset, 0);

    let fastest = correction_preview(
        config.seed,
        config.npc_models,
        Some(plan.encounter_start),
        later,
        &earlier.to_string(),
        0,
        true,
        None,
    )
    .unwrap();
    assert_eq!(fastest.suggested_offset, 0);
}

#[test]
fn fastest_close_without_recorded_circle_skips_rotom_correction() {
    let predicted = u64::from(rotom_roll_at(1, 0).unwrap()) < 79;
    assert!(rotom_correction(1, 0, 0, 79, Some(!predicted), true, true, false).is_none());
}

#[test]
fn rotom_correction_uses_only_start_roll_and_observed_talk() {
    let predicted = u64::from(rotom_roll_at(1, 0).unwrap()) < 79;
    let correction = rotom_correction(1, 0, 0, 79, Some(!predicted), true, true, true)
        .expect("opposite observed talk must produce a threshold correction");
    let roll = u64::from(correction.roll);
    let expected = if correction.observed_talk { roll + 1 } else { roll }.min(100);
    assert_eq!(correction.suggested_threshold, expected);
}

#[test]
fn rotom_proposal_predicts_the_observed_answer() {
    for start in 0..40 {
        let roll = u64::from(rotom_roll_at(1, start).unwrap());
        let predicted = roll < 79;
        let correction = rotom_correction(1, start, 0, 79, Some(!predicted), true, false, false).unwrap();
        assert_eq!(roll < correction.suggested_threshold, !predicted);
        assert_eq!(correction.current_threshold, 79);
        assert!(rotom_correction(1, start, 0, 79, Some(predicted), true, false, false).is_none());
        assert!(rotom_correction(1, start, 0, 79, None, true, false, false).is_none());
        assert!(rotom_correction(1, start, 0, 79, Some(!predicted), false, false, false).is_none());
    }
}

#[test]
fn correction_preview_reports_refused_inputs() {
    assert_eq!(
        correction_preview(1, 2, Some(10), 20, "abc", 0, false, None).unwrap_err(),
        "実際に出現したTarget Frameは整数で入力してください。"
    );
    assert_eq!(
        correction_preview(1, 2, None, 20, "30", 0, false, None).unwrap_err(),
        "使用した○Frameから開始位置を計算できません。"
    );
    assert_eq!(
        correction_preview(1, 2, Some(10), 5, "30", 0, false, None).unwrap_err(),
        "TargetFrameのTimelineを計算できません。"
    );
    assert_eq!(
        correction_preview(1, 2, Some(10), 20, "5", 0, false, None).unwrap_err(),
        "実出現FrameのTimelineを計算できません。"
    );
}

#[test]
fn measuring_the_target_itself_shows_no_drift() {
    let plan = encounter_plan_with_rotom(1, 0, 0, true).unwrap();
    for ticks in 1..20 {
        let target = advance_timeline(1, plan.encounter_start, 3, ticks).unwrap();
        assert_eq!(timeline_drift(1, plan.encounter_start, target, target, 3), Ok(0));
        assert!(reaches_exactly(1, plan.encounter_start, target, 3));
    }
}

#[test]
fn corrected_offset_moves_by_direction_and_stops_at_zero() {
    assert_eq!(corrected_offset(100, 4, true), 104);
    assert_eq!(corrected_offset(100, 4, false), 96);
    assert_eq!(corrected_offset(3, 4, false), 0);
    assert_eq!(corrected_offset(3, -4, true), 0);
    assert_eq!(corrected_offset(50, 0, true), 50);
    assert_eq!(corrected_offset(i64::MAX, 10, true), i64::MAX);
}

#[test]
fn observation_match_keeps_interval_and_sfmt_position_together() {
    let matched = ObservationMatch { start_position: 12, sfmt_position: 35, next_blink_ticks: 417 };
    let candidate = TimelineCandidate::from_match(matched);
    assert_eq!(candidate.start_position, 12);
    assert_eq!(candidate.sfmt_position, 35);
    assert_eq!(candidate.next_blink_ticks, Some(417));
    assert!(!candidate.target_reachable);
}

#[test]
fn correction_uses_current_circle_for_additional_wait_even_if_target_is_unreachable() {
    // Normal wait, one candidate shown at position 0.
    assert_eq!(correction_start_candidates(false, &vec![], None, Some(0), &vec![0]), vec![0]);
}

#[test]
fn correction_uses_all_observation_candidates_when_current_position_is_ambiguous() {
    assert_eq!(correction_start_candidates(false, &vec![], None, None, &vec![694, 692, 694]), vec![692, 694]);
}

#[test]
fn correction_source_selection_keeps_all_fastest_close_starts() {
    assert_eq!(correction_start_candidates(true, &vec![14, 10, 12, 10], None, Some(3), &vec![1]), vec![10, 12, 14]);
    // A fastest close without a recorded start offers nothing.
    assert!(correction_start_candidates(true, &vec![], Some(5), Some(3), &vec![1]).is_empty());
    // A normal wait prefers the start it was entered from.
    assert_eq!(correction_start_candidates(false, &vec![9], Some(5), Some(3), &vec![1]), vec![5]);
}

#[test]
fn candidate_checks_follow_each_candidate_position() {
    let request = CandidateReachabilityRequest {
        session_generation: 3,
        seed: 1,
        target: 900,
        models: 3,
        offset: 0,
        consider_rotom: true,
        rotom_threshold: 79,
        observed_rotom_talk: None,
        pre_rotom_consumption: 0,
        npc_initial_load: 1,
        fastest_ticks: None,
        candidate_positions: vec![(0, 10), (1, 11), (4, -3), (7, 900 - 100_001)],
    };
    let results = calculate_candidate_reachability(&request);
    assert_eq!(results.len(), 4);
    let query = ProductionQuery {
        seed: 1,
        target: 900,
        models: 3,
        offset: 0,
        consider_rotom: true,
        rotom_threshold: 79,
        observed_rotom_talk: None,
        pre_rotom_consumption: 0,
        npc_initial_load: 1,
        fastest_ticks: None,
    };
    assert_eq!(results[0], (0, query.target_reachable(10)));
    assert_eq!(results[1], (1, query.target_reachable(11)));
    assert_eq!(results[2], (4, false));
    assert_eq!(results[3], (7, false));
}

#[test]
fn production_start_times_the_offset_then_the_target() {
    let plan = encounter_plan_with_rotom(1, 0, 60, true).unwrap();
    let target = advance_timeline(1, plan.encounter_start, 1, 5).unwrap();
    let production = production_timeline(1, plan.encounter_start, target, 1);
    let expected_tick = production.target_tick.unwrap();

    match encounter_step(true, None, true, Some(production), Some(plan), false, true) {
        EncounterStep::OffsetThenTarget { target_ticks, plan: used } => {
            assert_eq!(target_ticks, expected_tick);
            assert_eq!(used, plan);
        },
        other => panic!("unexpected step {other:?}"),
    }
    assert_eq!(
        encounter_step(true, None, true, Some(production), Some(plan), false, false),
        EncounterStep::ToTarget { target_ticks: expected_tick, plan }
    );
    assert_eq!(
        encounter_step(true, None, true, Some(production), Some(plan), true, true),
        EncounterStep::FastestGuidance
    );
}

#[test]
fn production_start_refusals_come_in_order() {
    let plan = encounter_plan_with_rotom(1, 0, 0, true).unwrap();
    let missed = hatch_blink_search::timeline::ProductionTimeline { target: 5, target_tick: None };
    let hit = hatch_blink_search::timeline::ProductionTimeline { target: 5, target_tick: Some(3) };
    assert_eq!(encounter_step(false, Some("x".into()), false, None, None, false, false), EncounterStep::Ignore);
    assert_eq!(
        encounter_step(true, Some("オフセット".into()), false, None, None, false, false),
        EncounterStep::Refuse("オフセット".into())
    );
    assert_eq!(
        encounter_step(true, None, false, Some(hit), Some(plan), false, false),
        EncounterStep::Refuse("タイムラインが未確定です。".into())
    );
    assert_eq!(
        encounter_step(true, None, true, None, Some(plan), false, false),
        EncounterStep::Refuse("本番タイムラインを計算できません。設定を確認してください。".into())
    );
    assert_eq!(
        encounter_step(true, None, true, Some(missed), Some(plan), false, false),
        EncounterStep::Refuse(
            "現在の位置ではTarget Frameに到達できません。次の瞬きを待って、表の○を確認してください。".into()
        )
    );
    assert_eq!(
        encounter_step(true, None, true, Some(hit), None, false, false),
        EncounterStep::Refuse("ロトム補正を計算できません。設定を確認してください。".into())
    );
}

#[test]
fn hatch_fields_fall_back_as_documented() {
    assert_eq!(rotom_threshold_value(" 80 "), 80);
    assert_eq!(rotom_threshold_value("100"), 100);
    assert_eq!(rotom_threshold_value("101"), 79);
    assert_eq!(rotom_threshold_value("-1"), 79);
    assert_eq!(rotom_threshold_value("abc"), 79);

    assert_eq!(pre_rotom_consumption_value(" 5 ", true), 5);
    assert_eq!(pre_rotom_consumption_value("5", false), 0);
    assert_eq!(pre_rotom_consumption_value("-5", true), 0);
    assert_eq!(pre_rotom_consumption_value("50000001", true), 0);

    assert_eq!(npc_initial_load_value("4", true), 4);
    assert_eq!(npc_initial_load_value("51", true), 0);
    assert_eq!(npc_initial_load_value("4", false), 0);

    assert_eq!(tolerance_value(" 7"), 7);
    assert_eq!(tolerance_value("-3"), 0);
    assert_eq!(tolerance_value(""), 5);

    assert_eq!(encounter_offset_value(true, " -12 "), -12);
    assert_eq!(encounter_offset_value(false, "12"), 0);
    assert_eq!(encounter_offset_value(true, "x"), 0);
}

#[test]
fn seed_field_accepts_a_hex_prefix() {
    let plain = hatch_search_config("B63523CA", "0", "10", "10", "0").unwrap();
    let prefixed = hatch_search_config(" 0xB63523CA ", "0", "10", "10", "0").unwrap();
    assert_eq!(plain.seed, 0xB63523CA);
    assert_eq!(prefixed.seed, 0xB63523CA);
    assert_eq!(
        hatch_search_config("xyz", "0", "10", "10", "0").unwrap_err(),
        "初期SFMT SEEDは16進数で入力してください。"
    );
    assert_eq!(
        hatch_search_config("1", "5", "4", "10", "0").unwrap_err(),
        "Frameは0〜50000000の範囲で、検索範囲の終点は始点以上にしてください。"
    );
    assert_eq!(hatch_search_config("1", "0", "10", "10", "50").unwrap().npc_models, 51);
}

#[test]
fn cache_files_are_named_by_seed_and_last_position() {
    assert_eq!(cache_file_name(0xB63523CA, 1234), "sfmt_B63523CA_1234.bin");
    assert_eq!(cache_file_name(1, 0), "sfmt_00000001_0.bin");
    assert_eq!(cache_file_name(0xABC, -7), "sfmt_00000ABC_-7.bin");
    assert_eq!(fallback_beep(), vec![(880, 120)]);
    assert_eq!(fallback_candidate_not_found(), vec![(330, 120), (220, 160)]);
}

#[test]
fn correction_source_choice_clamps_to_the_last_row() {
    let frames = vec![100, 200, 300];
    assert_eq!(selected_correction_start(&frames, 1), Some(200));
    assert_eq!(selected_correction_start(&frames, 9), Some(300));
    assert_eq!(selected_correction_start(&Vec::new(), 0), None);
}

#[test]
fn finishing_a_fastest_close_uses_the_current_circle_or_the_first() {
    let frames = vec![100, 200, 300];
    assert_eq!(fastest_correction_source(&frames, 200), Some((1, 200)));
    assert_eq!(fastest_correction_source(&frames, 250), Some((0, 100)));
    assert_eq!(fastest_correction_source(&Vec::new(), 250), None);
}

#[test]
fn rotom_chats_when_the_roll_after_pre_consumption_is_below_the_threshold() {
    let roll = hatch_blink_search::encounter::rotom_roll_at(1, 1005).unwrap() as u64;
    assert_eq!(rotom_talk_at(1, 1000, 5, roll + 1), Some(true));
    assert_eq!(rotom_talk_at(1, 1000, 5, roll), Some(false));
    assert_eq!(rotom_talk_at(1, 1000, 5, 0), Some(false));
    assert_eq!(rotom_talk_at(1, 1000, 5, 100), Some(true));
    assert_eq!(rotom_talk_at(1, -10, 5, 100), None);
}
