use hatch_blink_search::timeline::{reaches_exactly, timeline_target};
use hatch_blink_search::production_cache::ProductionTimelineCache;
use hatch_blink_search::production_session::normal_target_wait_ticks;

#[test]
fn distinguishes_exact_landing_from_crossing() {
    assert!(!reaches_exactly(1, 0, 1, 2));
    assert!(reaches_exactly(1, 0, 0, 2));
}

fn wait_query(seed: u32, target: i64, models: usize) -> hatch_blink_search::production::ProductionQuery {
    hatch_blink_search::production::ProductionQuery {
        seed,
        target,
        models,
        offset: 0,
        consider_rotom: true,
        rotom_threshold: 79,
        observed_rotom_talk: None,
        pre_rotom_consumption: 0,
        npc_initial_load: 1,
        fastest_ticks: Some(7),
    }
}

#[test]
fn normal_wait_ticks_agree_between_the_kept_and_a_fresh_timeline() {
    let (seed, models, current) = (0xB63523CAu32, 3usize, 3000i64);
    let query = wait_query(seed, 3500, models);
    let start = query.base_encounter_start(current).expect("a production start");
    let fresh = timeline_target(seed, start, 3500, models).map(|t| t.timeline_tick);
    assert!(fresh.is_some());
    assert_eq!(normal_target_wait_ticks(&None, query, current), fresh);
    let mut kept = ProductionTimelineCache::new(seed, start - 20, models, 100_000).unwrap();
    kept.extend_until(3500);
    assert_eq!(normal_target_wait_ticks(&Some(kept), query, current), fresh);
    let other = ProductionTimelineCache::new(seed ^ 1, start, models, 100_000);
    assert_eq!(normal_target_wait_ticks(&other, query, current), fresh);
    assert_eq!(normal_target_wait_ticks(&None, wait_query(seed, 100, models), current), None);
}
