use hatch_blink_search::guidance::{
    encounter_offset_ticks, fastest_close_guidance_bounds, guidance_chunk, guidance_results_complete,
    guidance_scan_window,
};
use hatch_blink_search::guidance_view::{circle_guidance, CircleGuidance};
use hatch_blink_search::state_types::GuidanceSearchRequest;

/// The scan window of the hatch guidance with the default Rotom, pre-Rotom
/// and NPC-load settings.
struct Plan {
    current: i64,
    target: i64,
    search_start: i64,
    search_end: i64,
    known_end: i64,
    fastest: Option<(i64, i64, bool)>,
    too_far: bool,
    fastest_close: bool,
}

fn plan(current: i64, target: i64, range_start: i64, range_end: i64, models: usize, fastest_close: bool, offset: i64) -> Plan {
    let fastest = if fastest_close {
        let ticks = encounter_offset_ticks(offset).expect("even offset");
        fastest_close_guidance_bounds(target, range_start, ticks, models, true, 0, 1)
    } else {
        None
    };
    let (search_start, search_end, too_far) = guidance_scan_window(current, target, range_end, fastest);
    let known_end = if too_far { current - 1 } else { search_start - 1 };
    Plan { current, target, search_start, search_end, known_end, fastest, too_far, fastest_close }
}

fn pending(p: &Plan) -> bool {
    !p.too_far && p.known_end < p.search_end
}

fn snapshot(p: &Plan, circles: &Vec<i64>) -> CircleGuidance {
    circle_guidance(
        p.current,
        p.search_start,
        p.search_end,
        p.known_end,
        circles,
        None,
        p.fastest_close,
        p.fastest.map(|b| b.2),
        pending(p),
        p.target,
        false,
        p.too_far,
    )
}

fn request_for(p: &Plan, seed: u32, range_end: i64, models: usize) -> Option<GuidanceSearchRequest> {
    if p.too_far {
        return None;
    }
    let (observed_start, observed_end) = guidance_chunk(p.known_end, p.search_start, p.search_end)?;
    Some(GuidanceSearchRequest {
        session_generation: 0,
        observed_start,
        observed_end,
        range_start: 0,
        range_end,
        seed,
        target: p.target,
        models,
        offset: 0,
        consider_rotom: true,
        rotom_threshold: 79,
        observed_rotom_talk: None,
        pre_rotom_consumption: 0,
        npc_initial_load: 1,
        fastest_ticks: if p.fastest_close { Some(0) } else { None },
    })
}

#[test]
fn guidance_marks_targets_outside_the_search_window_without_calling_them_unreachable() {
    for fastest_close in [false, true] {
        let p = plan(4800, 110_000, 0, 5000, 0, fastest_close, 0);
        let guidance = snapshot(&p, &Vec::new());
        assert!(guidance.search_out_of_range);
        assert!(!guidance.target_unreachable);
    }
}

#[test]
fn normal_guidance_keeps_near_target_inside_the_current_window() {
    let p = plan(4800, 6000, 0, 5000, 0, false, 0);
    let guidance = snapshot(&p, &Vec::new());
    assert!(!guidance.search_out_of_range);
    assert!(!guidance.target_unreachable);
}

#[test]
fn normal_guidance_marks_a_target_before_current_as_unreachable() {
    let p = plan(4800, 4000, 0, 5000, 0, false, 0);
    let guidance = snapshot(&p, &Vec::new());
    assert!(!guidance.search_out_of_range);
    assert!(guidance.target_unreachable);
}

#[test]
fn fastest_guidance_marks_theoretical_outside_position_as_no_result() {
    let p = plan(3000, 5000, 0, 10_000, 0, true, 1000);
    let guidance = snapshot(&p, &Vec::new());
    assert_eq!(guidance.current_reachability, Some(false));
    assert!(pending(&p));
}

#[test]
fn fastest_close_near_target_keeps_outside_current_position_and_searches_target_window() {
    let p = plan(4800, 6000, 0, 10_000, 0, true, 0);
    let guidance = snapshot(&p, &Vec::new());
    assert_eq!(guidance.current_reachability, Some(false));
    assert!(request_for(&p, 0xB63523CA, 10_000, 0).is_some());
    assert!(pending(&p));
}

#[test]
fn fastest_close_searches_target_window_when_observation_range_has_ended() {
    let p = plan(4800, 6000, 0, 5000, 0, true, 0);
    let request = request_for(&p, 0xB63523CA, 5000, 0).expect("Target window must remain searchable");
    assert!(request.observed_end > 5000);
    assert!(pending(&p));
}

#[test]
fn fastest_close_marks_target_unreachable_after_extended_target_window_finishes() {
    let mut p = plan(4800, 6000, 0, 5000, 0, true, 0);
    let request = request_for(&p, 0xB63523CA, 5000, 0).expect("Target window must remain searchable");
    let results: Vec<(i64, bool)> = (request.observed_start..=request.observed_end).map(|frame| (frame, false)).collect();
    assert!(guidance_results_complete(&request, &results));
    p.known_end = request.observed_end;
    let guidance = snapshot(&p, &Vec::new());
    assert_eq!(guidance.current_reachability, Some(false));
    assert!(guidance.target_unreachable);
}

#[test]
fn guidance_request_keeps_main_search_end_at_configured_range() {
    let p = plan(3000, 5000, 0, 1000, 5, false, 0);
    let request = request_for(&p, 0xB63523CA, 1000, 5).expect("guidance request");
    assert_eq!(request.observed_start, 3000);
    assert_eq!(request.observed_end, 3000);
}

#[test]
fn stale_guidance_results_are_rejected_by_state() {
    let p = plan(3000, 5000, 0, 5000, 5, false, 0);
    let current = request_for(&p, 0xB63523CA, 5000, 5).unwrap();
    let mut stale = current;
    stale.seed ^= 1;
    assert!(!current.same_configuration(stale));
    assert!(current.same_configuration(current));
}

#[test]
fn a_circle_ahead_is_the_next_circle_and_counts_blinks() {
    let mut p = plan(4800, 6000, 0, 5000, 0, false, 0);
    p.known_end = 4900;
    let guidance = snapshot(&p, &vec![4850, 4870]);
    assert_eq!(guidance.next_circle_frame, Some(4850));
    assert_eq!(guidance.blinks_until_circle, 50);
    assert!(!guidance.reachable_now);
}
