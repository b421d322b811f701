use hatch_blink_search::hatch_match::MAX_AUTO_TOLERANCE;
use hatch_blink_search::observation_session::{MatchOutcome, ObservationSession, ObserveStep, PredictionStep};
use hatch_blink_search::sfmt::generate_u64_values_from;
use hatch_blink_search::state_types::{Mode, TimelineCandidate};
use hatch_blink_search::hatch_session::tolerance_value;
use hatch_blink_search::sfmt::sfmt_value_at;

const SEED: u32 = 0xB63523CA;

fn frames(value: u64) -> i64 {
    ((value % 120 + 130) * 2) as i64
}

/// A session that recorded the blinks of `count` intervals starting at
/// `start` in the stream, with the cache ready.
fn observed_from(values: &[u64], start: usize, count: usize, tolerance: i64) -> ObservationSession {
    let mut session = ObservationSession::start(tolerance);
    assert_eq!(session.observe(0, true), ObserveStep::Reference);
    for k in 0..count {
        let step = session.observe(frames(values[start + k]), true);
        if k + 1 < 2 {
            assert_eq!(step, ObserveStep::WaitForBlinks);
        } else {
            assert_eq!(step, ObserveStep::MatchDue);
        }
    }
    session
}

#[test]
fn observation_starts_with_a_reference_blink() {
    let mut session = ObservationSession::start(5);
    assert_eq!(session.mode, Mode::Observing);
    assert_eq!(session.observe(999, false), ObserveStep::Reference);
    assert_eq!(session.blinks, 1);
    assert!(session.intervals.is_empty());
    assert_eq!(session.observe(300, false), ObserveStep::WaitForBlinks);
    assert_eq!(session.intervals, vec![300]);
    assert_eq!(session.observe(280, false), ObserveStep::WaitForTimeline);
    assert_eq!(session.intervals, vec![300, 280]);
    assert!(session.candidates.is_empty());
    assert_eq!(session.rematch_observations(true), ObserveStep::MatchDue);
}

#[test]
fn blinks_outside_an_observation_are_ignored() {
    let mut session = ObservationSession::start(5);
    session.cancel(5);
    assert_eq!(session.mode, Mode::Idle);
    assert_eq!(session.observe(300, true), ObserveStep::Ignored);
    assert_eq!(session.blinks, 0);
    assert_eq!(session.rematch_observations(true), ObserveStep::Ignored);
}

#[test]
fn observation_is_capped_at_sixty_four_blinks() {
    let mut session = ObservationSession::start(5);
    for _ in 0..64 {
        assert_ne!(session.observe(300, false), ObserveStep::Full);
    }
    assert_eq!(session.blinks, 64);
    assert_eq!(session.observe(300, false), ObserveStep::Full);
    assert_eq!(session.blinks, 64);
    assert_eq!(session.intervals.len(), 63);
}

#[test]
fn exact_intervals_settle_the_timeline_at_their_start() {
    let values = generate_u64_values_from(SEED, 0, 2000);
    let mut session = observed_from(&values, 1000, 8, 0);
    assert_eq!(session.rematch(&values, 0, 0), MatchOutcome::Settled);
    assert_eq!(session.mode, Mode::Ready);
    assert_eq!(session.candidates.len(), 1);
    assert_eq!(session.candidates[0].start_position, 1000);
    assert_eq!(session.candidates[0].sfmt_position, 1008);
    assert_eq!(session.candidates[0].next_blink_ticks, Some((values[1008] % 120 + 130) as i64));
    assert_eq!(session.match_tolerance, 0);
    assert!(!session.search_exhausted);
    assert_eq!(session.timeline_display_position(), Some(1008));

    assert_eq!(session.next_prediction_position(), Some(1009));
    let step = session.advance_predicted_blink(Some(values[1009]));
    assert_eq!(step, PredictionStep::Advanced { interval_ticks: values[1009] % 120 + 130 });
    assert_eq!(session.timeline_display_position(), Some(1009));
    assert_eq!(session.advance_predicted_blink(None), PredictionStep::Stopped);
    assert_eq!(session.next_blink_index, None);
    assert_eq!(session.timeline_display_position(), Some(1008));
    assert_eq!(session.advance_predicted_blink(None), PredictionStep::Rescheduled);
    assert_eq!(session.next_blink_index, Some(1008));
}

#[test]
fn impossible_intervals_exhaust_the_widest_tolerance() {
    let values = generate_u64_values_from(SEED, 0, 500);
    let mut session = ObservationSession::start(5);
    session.observe(0, true);
    session.observe(10, true);
    assert_eq!(session.observe(10, true), ObserveStep::MatchDue);
    assert_eq!(session.rematch(&values, 0, 5), MatchOutcome::NotFound { tolerance: MAX_AUTO_TOLERANCE });
    assert!(session.search_exhausted);
    assert_eq!(session.mode, Mode::Observing);
    assert_eq!(session.timeline_display_position(), None);
    assert_eq!(session.advance_predicted_blink(None), PredictionStep::Stopped);
}

#[test]
fn two_intervals_can_leave_several_candidates() {
    let values = generate_u64_values_from(SEED, 0, 5000);
    let mut session = observed_from(&values, 100, 2, 15);
    match session.rematch(&values, 0, 15) {
        MatchOutcome::Narrowing { count, tolerance } => {
            assert_eq!(count, session.candidates.len());
            assert!(count > 1);
            assert_eq!(tolerance, 15);
        },
        other => panic!("unexpected outcome {other:?}"),
    }
    assert!(session.candidates.iter().any(|c| c.start_position == 100));
    assert_eq!(session.mode, Mode::Observing);
    assert_eq!(session.next_blink_index, None);
    assert_eq!(session.timeline_display_position(), None);
}

#[test]
fn matching_positions_are_absolute_from_the_window_base() {
    let values = generate_u64_values_from(SEED, 3000, 1000);
    let mut session = observed_from(&values, 400, 8, 0);
    assert_eq!(session.rematch(&values, 3000, 0), MatchOutcome::Settled);
    assert_eq!(session.candidates[0].start_position, 3400);
    assert_eq!(session.timeline_display_position(), Some(3408));
}

#[test]
fn only_the_selected_candidate_follows_its_predicted_blink() {
    let values = generate_u64_values_from(SEED, 0, 5000);
    let mut session = observed_from(&values, 100, 2, 15);
    session.rematch(&values, 0, 15);
    assert!(session.candidates.len() > 1);
    session.next_blink_index = Some(77);
    let positions = session.candidate_positions();
    assert_eq!(positions.len(), session.candidates.len());
    assert_eq!(positions[0], (0, 77));
    for (index, position) in positions.iter().skip(1) {
        assert_eq!(*position, session.candidates[*index].sfmt_position);
    }
}

#[test]
fn reachability_marks_only_the_selected_candidate_until_answers_arrive() {
    let values = generate_u64_values_from(SEED, 0, 5000);
    let mut session = observed_from(&values, 100, 2, 15);
    session.rematch(&values, 0, 15);
    let count = session.candidates.len();
    assert!(count > 2);
    session.apply_candidate_reachability(&[(1, true), (2, true), (count + 5, true)]);
    assert!(!session.candidates[0].target_reachable);
    assert!(session.candidates[1].target_reachable);
    assert!(session.candidates[2].target_reachable);
    session.apply_candidate_reachability(&[(2, true), (2, false)]);
    assert!(!session.candidates[2].target_reachable);
    session.mark_selected_reachability(true);
    assert!(session.candidates[0].target_reachable);
    assert!(session.candidates.iter().skip(1).all(|c| !c.target_reachable));
    session.mark_selected_reachability(false);
    assert!(session.candidates.iter().all(|c| !c.target_reachable));
}

#[test]
fn a_new_cache_drops_candidates_but_keeps_the_blinks() {
    let values = generate_u64_values_from(SEED, 0, 2000);
    let mut session = observed_from(&values, 1000, 8, 0);
    session.rematch(&values, 0, 0);
    assert_eq!(session.timeline_display_position(), Some(1008));
    session.forget_candidates();
    assert!(session.candidates.is_empty());
    assert_eq!(session.next_blink_index, None);
    assert_eq!(session.blinks, 9);
    assert_eq!(session.intervals.len(), 8);
    assert_eq!(session.rematch_observations(true), ObserveStep::Ignored);
}

fn candidate(start_position: i64, sfmt_position: i64, ticks: i64) -> TimelineCandidate {
    TimelineCandidate { start_position, sfmt_position, next_blink_ticks: Some(ticks), target_reachable: true }
}

#[test]
fn timeline_display_position_follows_predicted_blinks() {
    let mut session = ObservationSession::start(5);
    session.candidates = vec![candidate(0, 100, 300)];
    session.next_blink_index = Some(100);
    assert_eq!(session.timeline_display_position(), Some(100));
    session.next_blink_index = Some(101);
    assert_eq!(session.timeline_display_position(), Some(101));
}

#[test]
fn multiple_candidates_do_not_start_or_display_a_blink_timer() {
    let mut session = ObservationSession::start(5);
    session.observe(0, false);
    session.candidates = vec![candidate(0, 100, 300), candidate(10, 110, 200)];
    assert_eq!(session.advance_predicted_blink(None), PredictionStep::Stopped);
    assert!(session.next_blink_index.is_none());
    assert_eq!(session.timeline_display_position(), None);
}

#[test]
fn predicted_blink_uses_the_next_random_value_after_each_beep() {
    let mut session = ObservationSession::start(5);
    session.candidates = vec![candidate(0, 0, 130)];
    session.next_blink_index = Some(0);
    let position = session.next_prediction_position().expect("next position");
    assert_eq!(position, 1);
    let value = sfmt_value_at(1, position).unwrap();
    let step = session.advance_predicted_blink(Some(value));
    assert_eq!(session.next_blink_index, Some(1));
    assert_eq!(step, PredictionStep::Advanced { interval_ticks: value % 120 + 130 });
}

#[test]
fn cancelling_observation_resets_ready_state_for_retry() {
    let mut session = ObservationSession::start(5);
    session.mode = Mode::Ready;
    session.match_tolerance = 15;
    session.candidates.push(candidate(0, 100, 300));
    session.cancel(tolerance_value("5"));
    assert!(matches!(session.mode, Mode::Idle));
    assert!(session.candidates.is_empty());
    assert_eq!(session.match_tolerance, tolerance_value("5"));
}
