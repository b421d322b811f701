use hatch_blink_search::field::{search, search_without_target_model};
use hatch_blink_search::field_input::{field_configs, MAX_NPC_COUNT};
use hatch_blink_search::field_session::{
    accepts_search_result, can_edit_correction_inputs, can_edit_general_settings, can_edit_observation_settings,
    can_edit_target, can_start_timer, clear_target_fields, field_session_phase, is_observation_input_enabled,
    nearest_timeline_frame, next_row_wait_frame, range_end_from_start, timeline_row_at, FieldBlinkStep,
    FieldObservation, target_timer_available, target_wait_frame_with_offset, toggled_timer_kind, FieldMode,
    FieldTimerKind,
};
use hatch_blink_search::field_target::{find_target_timing_from_cursor, suggest_field_offset_from_result};
use hatch_blink_search::field_types::{FieldConfig, FieldResult, FieldTargetMode, FieldTimelineRow, TimelineCursor};
use hatch_blink_search::field_extend::{timeline_extension_needed, TIMELINE_CHUNK_TICKS};
use hatch_blink_search::blink_queue::{blink_wait_queue, refill_blink_wait_queue, BLINK_TIMER_PREFETCH_COUNT};
use hatch_blink_search::model_status::ModelStatus;
use hatch_blink_search::sfmt::Sfmt;
use hatch_blink_search::observation::MAX_SFMT_FRAME;
use hatch_blink_search::state_types::SessionPhase;

/// The field tab's inputs with their initial values.
struct FieldInputs {
    seed: String,
    range_start: String,
    range_end: String,
    npc_count: String,
    multiple_npc_search: bool,
    target_mode: FieldTargetMode,
    target_model: String,
    tolerance: String,
    target_consumption: String,
    intervals: Vec<i64>,
}

impl Default for FieldInputs {
    fn default() -> Self {
        FieldInputs {
            seed: "00000001".into(),
            range_start: "0".into(),
            range_end: "10000".into(),
            npc_count: "1".into(),
            multiple_npc_search: false,
            target_mode: FieldTargetMode::Known,
            target_model: "0".into(),
            tolerance: "5".into(),
            target_consumption: String::new(),
            intervals: Vec::new(),
        }
    }
}

impl FieldInputs {
    fn configs(&self) -> Result<Vec<FieldConfig>, String> {
        field_configs(
            &self.seed,
            &self.range_start,
            &self.range_end,
            &self.npc_count,
            self.multiple_npc_search,
            self.target_mode,
            &self.target_model,
            &self.tolerance,
            &self.target_consumption,
            &self.intervals,
        )
    }

    fn config(&self) -> Result<FieldConfig, String> {
        self.configs().map(|mut configs| configs.remove(0))
    }
}

fn empty_result(models: usize) -> FieldResult {
    FieldResult {
        start_consumption: 0,
        first_wait_frame: 0,
        last_wait_frame: 0,
        first_consumption: 0,
        last_consumption: 0,
        intervals: Vec::new(),
        next_blink_wait_frame: 0,
        target_wait_frame: None,
        target_exact: None,
        target_frame_before: None,
        target_frame_after: None,
        observed_model: 0,
        models,
        timeline: Vec::new(),
        target_blink_count: None,
        timeline_cursor: None,
        target_cursor: None,
    }
}

fn cursor_at_start(models: usize) -> TimelineCursor {
    TimelineCursor { status: ModelStatus::new(models), stream_cursor: 0, consumption: 0, tick: 0 }
}

#[test]
fn correction_counts_boundary_from_following_tick() {
    let mut result = empty_result(6);
    result.timeline_cursor = Some(cursor_at_start(6));
    result.target_cursor = Some(cursor_at_start(6));
    let corrected = suggest_field_offset_from_result(0, &result, 6, 12, 4);
    assert_eq!(corrected, Some(2));
}

#[test]
fn searches_all_start_consumptions() {
    let config = FieldConfig {
        seed: 1,
        range_start: 0,
        range_end: 50_000,
        models: 1,
        target_model: 0,
        observed_intervals: vec![1],
        tolerance: 1_000,
        target_consumption: None,
    };
    let results = search(&config).unwrap();
    assert!(results.len() > 1);
    assert!(results.windows(2).all(|rows| rows[0].start_consumption <= rows[1].start_consumption));
    assert!(results
        .iter()
        .all(|result| result.timeline.iter().any(|row| row.frame == result.last_consumption && row.observed)));
}

#[test]
fn targeted_search_refines_interval_matches_after_chunk_scan() {
    let config = FieldConfig {
        seed: 1,
        range_start: 0,
        range_end: 100,
        models: 2,
        target_model: 0,
        observed_intervals: vec![1],
        tolerance: 1_000,
        target_consumption: Some(5_000),
    };
    let results = search(&config).unwrap();
    assert!(!results.is_empty());
    assert!(results
        .iter()
        .all(|result| result.target_wait_frame.is_some() || result.target_exact == Some(false)));
}

#[test]
fn rejects_invalid_target_model() {
    let config = FieldConfig {
        seed: 1,
        range_start: 0,
        range_end: 1_000,
        models: 1,
        target_model: 1,
        observed_intervals: vec![1],
        tolerance: 0,
        target_consumption: None,
    };
    assert!(search(&config).is_err());
}

#[test]
fn ui_idx_controls_observed_model() {
    let mut state = FieldInputs { npc_count: "2".into(), target_model: "0".into(), ..FieldInputs::default() };
    assert_eq!(state.config().unwrap().models, 3);
    assert_eq!(state.config().unwrap().target_model, 0);
    state.target_model = "1".into();
    assert_eq!(state.config().unwrap().target_model, 1);
}

#[test]
fn session_phase_locks_timer_after_entering_correction() {
    let phase = field_session_phase(FieldMode::Idle, false, false, 0);
    assert_eq!(phase, SessionPhase::Input);
    assert!(can_edit_observation_settings(phase));
    let phase = field_session_phase(FieldMode::Idle, false, false, 1);
    assert_eq!(phase, SessionPhase::TimelineReady);
    assert!(!can_edit_observation_settings(phase));
    let phase = field_session_phase(FieldMode::Correction, false, false, 1);
    assert_eq!(phase, SessionPhase::Correction);
    assert!(!can_edit_general_settings(phase));
    assert!(can_edit_correction_inputs(phase));
    assert!(!can_start_timer(phase));
}

#[test]
fn npc_count_adds_the_implicit_player_model() {
    let state = FieldInputs { npc_count: "0".into(), ..FieldInputs::default() };
    assert_eq!(state.config().unwrap().models, 1);
}

#[test]
fn multiple_npc_search_expands_the_requested_range() {
    let state = FieldInputs { npc_count: "10~20".into(), multiple_npc_search: true, ..FieldInputs::default() };
    let configs = state.configs().unwrap();
    assert_eq!(configs.len(), 11);
    assert_eq!(configs.first().unwrap().models, 11);
    assert_eq!(configs.last().unwrap().models, 21);
}

#[test]
fn multiple_npc_search_rejects_ranges_wider_than_twenty_npc() {
    let state = FieldInputs { npc_count: "10~31".into(), multiple_npc_search: true, ..FieldInputs::default() };
    assert!(state.configs().is_err());
}

#[test]
fn multiple_npc_search_allows_a_width_of_twenty() {
    let state = FieldInputs { npc_count: "10~30".into(), multiple_npc_search: true, ..FieldInputs::default() };
    assert_eq!(state.configs().unwrap().len(), 21);
}

#[test]
fn npc_count_is_limited_to_zero_through_fifty() {
    let mut state = FieldInputs { npc_count: MAX_NPC_COUNT.to_string(), ..FieldInputs::default() };
    assert!(state.configs().is_ok());
    state.npc_count = (MAX_NPC_COUNT + 1).to_string();
    assert!(state.configs().is_err());
}

#[test]
fn search_rejects_ranges_wider_than_one_hundred_thousand_frames() {
    let state = FieldInputs { range_start: "9000000".into(), range_end: "9200000".into(), ..FieldInputs::default() };
    assert!(state.config().is_err());
}

#[test]
fn range_end_can_be_set_from_start_plus_width() {
    assert_eq!(range_end_from_start("9000000", "10000"), Some(9_010_000));
}

#[test]
fn unknown_target_search_keeps_idx_candidates_but_skips_target_check() {
    let config = FieldConfig {
        seed: 1,
        range_start: 0,
        range_end: 100,
        models: 2,
        target_model: 0,
        observed_intervals: vec![1],
        tolerance: 1_000,
        target_consumption: Some(50),
    };
    let results = search_without_target_model(&config).unwrap();
    assert!(!results.is_empty());
    assert!(results.iter().any(|result| result.observed_model == 0));
    assert!(results.iter().any(|result| result.observed_model == 1));
    assert!(results.iter().all(|result| result.target_wait_frame.is_none()));
}

#[test]
fn observation_input_is_locked_after_unique_candidate() {
    assert!(is_observation_input_enabled(FieldMode::Observing, 0));
    let mut result = empty_result(1);
    result.start_consumption = 477;
    result.first_wait_frame = 2;
    result.last_wait_frame = 4;
    result.first_consumption = 478;
    result.last_consumption = 479;
    result.intervals = vec![2];
    result.next_blink_wait_frame = 2;
    let results = vec![result];
    assert!(!is_observation_input_enabled(FieldMode::Observing, results.len()));
    assert_eq!(nearest_timeline_frame(FieldTargetMode::Known, &results), Some(477));
}

#[test]
fn nearest_timeline_frame_needs_a_single_known_candidate_the_table_can_show() {
    let mut early = empty_result(1);
    early.start_consumption = 476;
    assert_eq!(nearest_timeline_frame(FieldTargetMode::Known, &vec![early.clone()]), None);
    let mut shown = early.clone();
    shown.start_consumption = 900;
    assert_eq!(nearest_timeline_frame(FieldTargetMode::Unknown, &vec![shown.clone()]), None);
    assert_eq!(nearest_timeline_frame(FieldTargetMode::Known, &vec![shown.clone(), shown.clone()]), None);
    assert_eq!(nearest_timeline_frame(FieldTargetMode::Known, &vec![shown]), Some(900));
}

#[test]
fn target_remains_editable_until_explicit_correction_entry() {
    assert!(can_edit_target(FieldMode::Idle, false));
    assert!(!can_edit_target(FieldMode::Correction, false));
    assert!(can_edit_target(FieldMode::Idle, false));
}

#[test]
fn field_offset_only_shifts_target_wait_frame() {
    let wait = Some(100);
    assert_eq!(target_wait_frame_with_offset(wait, true, "+2"), Some(102));
    assert_eq!(target_wait_frame_with_offset(wait, true, "-2"), Some(98));
    assert_eq!(target_wait_frame_with_offset(wait, true, &(MAX_SFMT_FRAME + 2).to_string()), None);
    assert_eq!(target_wait_frame_with_offset(wait, true, ""), Some(100));
    assert_eq!(target_wait_frame_with_offset(wait, false, ""), Some(100));
}

#[test]
fn target_timing_distinguishes_exact_and_crossing_steps() {
    let mut result = empty_result(2);
    result.target_cursor = Some(cursor_at_start(2));
    let (crossing, _) = find_target_timing_from_cursor(1, &result, 1).unwrap();
    assert!(!crossing.exact);
    assert_eq!(crossing.absolute_wait_frame, 2);
    assert_eq!((crossing.frame_before, crossing.frame_after), (0, 2));

    let (exact, _) = find_target_timing_from_cursor(1, &result, 2).unwrap();
    assert!(exact.exact);
    assert_eq!(exact.absolute_wait_frame, 2);
}

#[test]
fn target_edit_search_results_are_accepted_while_cancelled_results_are_not() {
    // Idle with two intervals and no candidates: a target edit's search is taken.
    assert!(accepts_search_result(false, FieldMode::Idle, 0, 2, false));
    // Cancelling clears the intervals: a late result is dropped.
    assert!(!accepts_search_result(false, FieldMode::Idle, 0, 0, false));
    assert!(accepts_search_result(true, FieldMode::Idle, 0, 0, false));
    assert!(accepts_search_result(false, FieldMode::Observing, 3, 0, true));
    assert!(!accepts_search_result(false, FieldMode::Idle, 1, 2, false));
    assert!(!accepts_search_result(false, FieldMode::Idle, 0, 2, true));
    assert!(!accepts_search_result(false, FieldMode::Correction, 0, 2, false));
}

#[test]
fn timer_kind_can_toggle_when_idle() {
    let available = target_timer_available(1, true);
    let kind = toggled_timer_kind(FieldMode::Idle, FieldTimerKind::NextBlink, available).unwrap();
    assert_eq!(kind, FieldTimerKind::Target);
    let kind = toggled_timer_kind(FieldMode::Idle, kind, available).unwrap();
    assert_eq!(kind, FieldTimerKind::NextBlink);
}

#[test]
fn timer_kind_toggle_refusals() {
    assert_eq!(
        toggled_timer_kind(FieldMode::Correction, FieldTimerKind::NextBlink, true).unwrap_err(),
        "ずれ検証中はタイマーを再開できません。リセットしてください。"
    );
    assert_eq!(
        toggled_timer_kind(FieldMode::Observing, FieldTimerKind::NextBlink, target_timer_available(2, true)).unwrap_err(),
        "TargetFrameのタイマーはまだ利用できません。"
    );
    assert!(!target_timer_available(1, false));
}

#[test]
fn clearing_the_target_keeps_the_observation() {
    let mut located = empty_result(2);
    located.start_consumption = 477;
    located.intervals = vec![2];
    located.target_wait_frame = Some(4);
    located.target_exact = Some(true);
    located.target_frame_before = Some(10);
    located.target_frame_after = Some(10);
    located.target_blink_count = Some(1);
    let mut results = vec![located, empty_result(3)];
    clear_target_fields(&mut results);
    assert_eq!(results.len(), 2);
    assert_eq!(results[0].start_consumption, 477);
    assert_eq!(results[0].intervals, vec![2]);
    assert_eq!(results[1].models, 3);
    assert!(results.iter().all(|r| r.target_wait_frame.is_none()
        && r.target_exact.is_none()
        && r.target_frame_before.is_none()
        && r.target_frame_after.is_none()
        && r.target_blink_count.is_none()));
}

#[test]
fn zero_candidate_search_allows_additional_shift_for_retry() {
    // Observing with no candidate left after an exhausted search: more blinks may be entered.
    assert!(is_observation_input_enabled(FieldMode::Observing, 0));
    assert!(!is_observation_input_enabled(FieldMode::Observing, 1));
    assert!(!is_observation_input_enabled(FieldMode::Idle, 0));
}

#[test]
fn observed_intervals_can_start_at_a_later_blink() {
    let mut sfmt = Sfmt::new(1);
    let mut status = ModelStatus::new(1);
    let mut events = Vec::new();
    for tick in 0..5_000i64 {
        let (_used, blink) = status.next_state(&mut sfmt);
        if blink.contains(&0) {
            events.push((tick + 1) * 2);
        }
    }
    let window_len = 4;
    let selected = (1..events.len().saturating_sub(window_len - 1))
        .find(|&start| {
            let expected = events[start + 1..start + window_len]
                .windows(2)
                .map(|pair| pair[1] - pair[0])
                .collect::<Vec<_>>();
            !events[..start].windows(window_len).any(|window| {
                window.windows(2).map(|pair| pair[1] - pair[0]).eq(expected.iter().copied())
            })
        })
        .expect("deterministic SFMT stream should provide a later unique window");
    let config = FieldConfig {
        seed: 1,
        range_start: 0,
        range_end: 10_000,
        models: 1,
        target_model: 0,
        observed_intervals: events[selected..selected + window_len].windows(2).map(|pair| pair[1] - pair[0]).collect(),
        tolerance: 0,
        target_consumption: None,
    };
    let results = search(&config).unwrap();
    let result = results.iter().find(|result| result.start_consumption == 0).expect("later blink window matches");
    assert!(selected > 0);
    assert_eq!(result.first_wait_frame, events[selected]);
}

#[test]
fn multiple_npc_search_reads_a_full_width_separator_and_spaces() {
    let state = FieldInputs { npc_count: " 3 ～ 5 ".into(), multiple_npc_search: true, ..FieldInputs::default() };
    let configs = state.configs().unwrap();
    assert_eq!(configs.iter().map(|c| c.models).collect::<Vec<_>>(), vec![4, 5, 6]);
    let broken = FieldInputs { npc_count: "3~".into(), multiple_npc_search: true, ..FieldInputs::default() };
    assert!(broken.configs().is_err());
}

#[test]
fn observation_input_is_capped_at_sixty_four_blinks() {
    let mut observation = FieldObservation::new();
    for _ in 0..64 {
        assert_eq!(observation.observe(FieldMode::Observing, 0, 300), FieldBlinkStep::Recorded);
    }
    assert_eq!(observation.observe(FieldMode::Observing, 0, 300), FieldBlinkStep::Full);
    assert_eq!(observation.blinks, 64);
    assert_eq!(observation.intervals.len(), 63);
}

#[test]
fn field_blinks_are_recorded_only_while_input_is_enabled() {
    let mut observation = FieldObservation::new();
    assert_eq!(observation.observe(FieldMode::Idle, 0, 300), FieldBlinkStep::Ignored);
    assert_eq!(observation.observe(FieldMode::Observing, 0, 999), FieldBlinkStep::Recorded);
    assert!(observation.intervals.is_empty());
    assert_eq!(observation.observe(FieldMode::Observing, 3, 310), FieldBlinkStep::Recorded);
    assert_eq!(observation.intervals, vec![310]);
    assert_eq!(observation.observe(FieldMode::Observing, 1, 320), FieldBlinkStep::Ignored);
    assert_eq!(observation.blinks, 2);
}

#[test]
fn timeline_extension_is_due_within_two_chunks_of_the_last_row() {
    let mut result = empty_result(1);
    assert!(!timeline_extension_needed(1, &result, 0));
    result.timeline.push(FieldTimelineRow { frame: 500, timeline_frame: 10_000, duration_frames: 0, observed: false });
    assert!(timeline_extension_needed(1, &result, 10_000 - 2 * TIMELINE_CHUNK_TICKS));
    assert!(!timeline_extension_needed(1, &result, 10_000 - 2 * TIMELINE_CHUNK_TICKS - 1));
    assert!(!timeline_extension_needed(2, &result, 10_000));
}

fn row(timeline_frame: i64) -> FieldTimelineRow {
    FieldTimelineRow { frame: 0, timeline_frame, duration_frames: 0, observed: false }
}

#[test]
fn the_highlighted_row_is_the_last_blink_not_after_the_current_frame() {
    let rows = vec![row(100), row(250), row(400)];
    assert_eq!(timeline_row_at(&rows, 50), 0);
    assert_eq!(timeline_row_at(&rows, 100), 0);
    assert_eq!(timeline_row_at(&rows, 399), 1);
    assert_eq!(timeline_row_at(&rows, 5000), 2);
    assert_eq!(timeline_row_at(&Vec::new(), 5000), 0);
}

#[test]
fn the_next_blink_wait_counts_from_the_last_observed_blink() {
    let mut result = empty_result(1);
    result.last_wait_frame = 90;
    result.timeline = vec![row(100), row(250), row(400)];
    assert_eq!(next_row_wait_frame(&result, 100), Some(160));
    assert_eq!(next_row_wait_frame(&result, 0), Some(10));
    assert_eq!(next_row_wait_frame(&result, 400), None);
}

fn result_with_rows(last_wait_frame: i64, frames: impl Iterator<Item = i64>) -> FieldResult {
    let mut result = empty_result(1);
    result.last_wait_frame = last_wait_frame;
    result.timeline = frames.map(row).collect();
    result
}

#[test]
fn the_blink_queue_holds_the_next_blinks_after_the_current_frame() {
    let result = result_with_rows(100, (1..=50).map(|k| 100 + 250 * k));
    let queue = blink_wait_queue(&result, 600);
    assert_eq!(queue.len(), BLINK_TIMER_PREFETCH_COUNT);
    assert_eq!(queue[0], 750);
    assert_eq!(queue[1], 1000);
    let near_end = blink_wait_queue(&result, 100 + 250 * 49);
    assert_eq!(near_end, vec![250 * 50]);
}

#[test]
fn an_exhausted_timeline_falls_back_to_the_next_blink_wait() {
    let mut result = result_with_rows(100, [200, 300].into_iter());
    result.next_blink_wait_frame = 42;
    assert_eq!(blink_wait_queue(&result, 1000), vec![42]);
    result.next_blink_wait_frame = 0;
    assert!(blink_wait_queue(&result, 1000).is_empty());
}

#[test]
fn the_blink_queue_is_refilled_once_it_runs_low() {
    let result = result_with_rows(100, (1..=50).map(|k| 100 + 250 * k));
    let mut queue: Vec<i64> = (1..=9).map(|k| 250 * k).collect();
    refill_blink_wait_queue(&mut queue, &result);
    assert_eq!(queue.len(), 9);
    queue.remove(0);
    refill_blink_wait_queue(&mut queue, &result);
    assert_eq!(queue.len(), BLINK_TIMER_PREFETCH_COUNT);
    assert_eq!(queue[7], 250 * 9);
    assert_eq!(queue[8], 250 * 10);
    assert_eq!(*queue.last().unwrap(), 250 * 33);
}
