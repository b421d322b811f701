//! The production run of the selected candidate: one continuous production
//! timeline is kept and grown as the target moves, and the target is looked
//! up on it from the candidate's start.

use vstd::prelude::*;
use crate::production::{ProductionQuery, MAX_PRODUCTION_LOOKAHEAD};
use crate::state_types::CandidateReachabilityRequest;
use crate::production_cache::{ProductionTimelineCache, PRODUCTION_TIMELINE_CACHE_FRAMES};
use crate::timeline::{max_models, spec_timeline_target, timeline_target, lands_on, ProductionTimeline, TimelineTarget};

verus! {

/// The kept timeline can answer for a run starting at `start`: same seed and
/// models, and `start` is one of its cached tick starts.
pub open spec fn cache_reusable(cache: Option<ProductionTimelineCache>, query: ProductionQuery, start: int) -> bool {
    match cache {
        Some(c) => c.spec_seed() == query.seed && c.spec_models() == query.models && c.target_from_spec(start, start)
            is Some,
        None => false,
    }
}

/// The timeline kept after the lookup follows the seed, start and models it
/// answered from.
pub open spec fn cache_follows(c: ProductionTimelineCache, seed: u32, start: int, models: usize, limit: int) -> bool {
    &&& c.wf()
    &&& c.spec_seed() == seed
    &&& c.spec_start() == start
    &&& c.spec_models() == models
    &&& c.spec_frame_limit() == limit
}

/// The answer from a target lookup: the target and its exact tick, if any.
pub open spec fn production_of(target: i64, t: Option<TimelineTarget>) -> Option<ProductionTimeline> {
    match t {
        Some(tt) => Some(ProductionTimeline { target, target_tick: tt.exact_tick }),
        None => None,
    }
}

/// The production run for a candidate at position `current`. Nothing when
/// the target lies too far after it or no start exists. Otherwise the kept
/// timeline is reused when it can answer from this start, else a new one is
/// started there; it is grown towards the target, and the target is looked
/// up on it, counted from the start. When the kept timeline cannot place the
/// target, a fresh timeline from the start answers.
pub fn production_for_position(cache: &mut Option<ProductionTimelineCache>, query: ProductionQuery, current: i64) -> (r:
    Option<ProductionTimeline>)
    requires
        query.models <= max_models(),
        *old(cache) matches Some(c) ==> c.wf(),
    ensures
        *final(cache) matches Some(c) ==> c.wf(),
        (query.too_far(current) || query.spec_start(current) is None) ==> r is None && *final(cache) == *old(cache),
        !(query.too_far(current) || query.spec_start(current) is None) ==> {
            let s = query.spec_start(current)->0;
            let lookup = match *final(cache) {
                Some(c) => c.target_from_spec(s as int, query.target as int),
                None => None,
            };
            &&& cache_reusable(*old(cache), query, s as int) ==> (*final(cache) matches Some(c) && cache_follows(
                c,
                query.seed,
                old(cache)->0.spec_start(),
                query.models,
                old(cache)->0.spec_frame_limit(),
            ))
            &&& !cache_reusable(*old(cache), query, s as int) && s + query.models < i64::MAX ==> match *final(cache) {
                Some(c) => cache_follows(
                    c,
                    query.seed,
                    s as int,
                    query.models,
                    if PRODUCTION_TIMELINE_CACHE_FRAMES <= i64::MAX - query.models - s {
                        PRODUCTION_TIMELINE_CACHE_FRAMES as int
                    } else {
                        i64::MAX - query.models - s
                    },
                ),
                None => query.models == 0,
            }
            &&& lookup is Some ==> r == production_of(query.target, lookup)
            &&& lookup is None ==> forall|t: Option<TimelineTarget>|
                #[trigger] spec_timeline_target(query.seed, s as int, query.target as int, query.models as nat, t)
                    ==> r == production_of(query.target, t)
        },
{
    if (query.target as i128) - (current as i128) > MAX_PRODUCTION_LOOKAHEAD as i128 {
        return None;
    }
    let start = match query.encounter_start(current) {
        Some(s) => s,
        None => return None,
    };
    proof {
        if let Some(t) = query.fastest_ticks {
            let b = query.spec_base_start(current)->0;
            if t >= 0 && query.models > 0 && b >= 0 {
                crate::timeline::lemma_tl_monotone(query.seed, b as int, query.models as nat, 0, t as nat);
            }
        }
    }
    let mut kept = cache.take();
    let reusable = match &kept {
        Some(c) => c.seed() == query.seed && c.models() == query.models && c.target_from(start, start).is_some(),
        None => false,
    };
    if !reusable {
        if start < i64::MAX - query.models as i64 {
            kept = ProductionTimelineCache::new(query.seed, start, query.models, PRODUCTION_TIMELINE_CACHE_FRAMES);
        } else {
            kept = None;
        }
    }
    let (kept, lookup) = match kept {
        Some(mut c) => {
            c.extend_until(query.target);
            let found = c.target_from(start, query.target);
            (Some(c), found)
        },
        None => (None, None),
    };
    *cache = kept;
    let answer = match lookup {
        Some(t) => Some(t),
        None => {
            let fresh = timeline_target(query.seed, start, query.target, query.models);
            proof {
                assert forall|t: Option<TimelineTarget>|
                    #[trigger] spec_timeline_target(query.seed, start as int, query.target as int, query.models as nat, t)
                    implies t == fresh by {
                    crate::timeline::lemma_spec_timeline_target_unique(
                        query.seed,
                        start as int,
                        query.target as int,
                        query.models as nat,
                        t,
                        fresh,
                    );
                }
            }
            fresh
        },
    };
    match answer {
        Some(t) => Some(ProductionTimeline { target: query.target, target_tick: t.exact_tick }),
        None => None,
    }
}

/// The tick of a target lookup.
pub open spec fn tick_of(t: Option<TimelineTarget>) -> Option<i64> {
    match t {
        Some(tt) => Some(tt.timeline_tick),
        None => None,
    }
}

/// The checks a normal wait (no fastest close) takes from the candidate at
/// `current` to the target: the tick at or just after the target, counted
/// from the production start. The kept timeline answers when it follows the
/// same seed and models and can place the target from the start; else a
/// fresh timeline from the start does.
pub fn normal_target_wait_ticks(cache: &Option<ProductionTimelineCache>, query: ProductionQuery, current: i64) -> (r:
    Option<i64>)
    requires
        query.models <= max_models(),
        *cache matches Some(c) ==> c.wf(),
    ensures
        query.spec_base_start(current) is None ==> r is None,
        query.spec_base_start(current) matches Some(s) ==> {
            let lookup = match *cache {
                Some(c) => if c.spec_seed() == query.seed && c.spec_models() == query.models {
                    c.target_from_spec(s as int, query.target as int)
                } else {
                    None
                },
                None => None,
            };
            &&& lookup is Some ==> r == tick_of(lookup)
            &&& lookup is None ==> forall|t: Option<TimelineTarget>|
                #[trigger] spec_timeline_target(query.seed, s as int, query.target as int, query.models as nat, t)
                    ==> r == tick_of(t)
        },
{
    let start = match query.base_encounter_start(current) {
        Some(s) => s,
        None => return None,
    };
    let kept = match cache {
        Some(c) => if c.seed() == query.seed && c.models() == query.models {
            c.target_from(start, query.target)
        } else {
            None
        },
        None => None,
    };
    let found = match kept {
        Some(t) => Some(t),
        None => {
            let fresh = timeline_target(query.seed, start, query.target, query.models);
            proof {
                assert forall|t: Option<TimelineTarget>|
                    #[trigger] spec_timeline_target(query.seed, start as int, query.target as int, query.models as nat, t)
                    implies t == fresh by {
                    crate::timeline::lemma_spec_timeline_target_unique(
                        query.seed,
                        start as int,
                        query.target as int,
                        query.models as nat,
                        t,
                        fresh,
                    );
                }
            }
            fresh
        },
    };
    match found {
        Some(t) => Some(t.timeline_tick),
        None => None,
    }
}

/// The kept timeline's answer for the table row at `frame` when it may be
/// used: a normal wait with one candidate left, the same seed and models,
/// and the row's start among the kept ticks.
pub open spec fn kept_table_answer(
    cache: Option<ProductionTimelineCache>,
    query: ProductionQuery,
    start: int,
    single_candidate: bool,
) -> Option<TimelineTarget> {
    match cache {
        Some(c) => if query.fastest_ticks is None && single_candidate && c.spec_seed() == query.seed
            && c.spec_models() == query.models {
            c.target_from_spec(start, query.target as int)
        } else {
            None
        },
        None => None,
    }
}

/// Whether the table row at `frame` reaches the target. Too far from the
/// target: no. No start: unknown. With one candidate left in a normal wait,
/// a future row on the kept production timeline is answered from it, so the
/// counters are not restarted for each row; otherwise the row's own run
/// decides, as `target_exactly_reached` does (an unknown answer there counts
/// as no).
pub fn table_reachability(
    cache: &Option<ProductionTimelineCache>,
    query: ProductionQuery,
    frame: i64,
    single_candidate: bool,
) -> (r: Option<bool>)
    requires
        query.models <= max_models(),
        *cache matches Some(c) ==> c.wf(),
    ensures
        query.too_far(frame) ==> r == Some(false),
        !query.too_far(frame) && query.spec_base_start(frame) is None ==> r is None,
        !query.too_far(frame) && query.spec_base_start(frame) is Some ==> {
            let kept = kept_table_answer(*cache, query, query.spec_base_start(frame)->0 as int, single_candidate);
            &&& kept matches Some(t) ==> r == Some(t.exact_tick is Some)
            &&& kept is None ==> r == Some(
                match query.spec_start(frame) {
                    None => false,
                    Some(s) => if query.fastest_ticks is Some {
                        s == query.target
                    } else {
                        lands_on(query.seed, s as int, query.target as int, query.models as nat)
                    },
                },
            )
        },
{
    if (query.target as i128) - (frame as i128) > MAX_PRODUCTION_LOOKAHEAD as i128 {
        return Some(false);
    }
    let start = match query.base_encounter_start(frame) {
        Some(s) => s,
        None => return None,
    };
    if query.fastest_ticks.is_none() && single_candidate {
        match cache {
            Some(c) => {
                if c.seed() == query.seed && c.models() == query.models {
                    match c.target_from(start, query.target) {
                        Some(timing) => return Some(timing.exact_tick.is_some()),
                        None => {},
                    }
                }
            },
            None => {},
        }
    }
    match query.target_exactly_reached(frame) {
        Some(v) => Some(v),
        None => Some(false),
    }
}

/// The reachability query of a candidate check request.
pub open spec fn candidate_query(request: CandidateReachabilityRequest) -> ProductionQuery {
    ProductionQuery {
        seed: request.seed,
        target: request.target,
        models: request.models,
        offset: request.offset,
        consider_rotom: request.consider_rotom,
        rotom_threshold: request.rotom_threshold,
        observed_rotom_talk: request.observed_rotom_talk,
        pre_rotom_consumption: request.pre_rotom_consumption,
        npc_initial_load: request.npc_initial_load,
        fastest_ticks: request.fastest_ticks,
    }
}

/// Whether the candidate at `position` reaches the target under the
/// request's settings.
pub open spec fn candidate_reaches(request: CandidateReachabilityRequest, position: i64) -> bool {
    let q = candidate_query(request);
    !q.too_far(position) && match q.spec_start(position) {
        Some(s) => lands_on(q.seed, s as int, q.target as int, q.models as nat),
        None => false,
    }
}

/// The target check of every candidate of the request, in the request's
/// order, each paired with its candidate index.
pub fn calculate_candidate_reachability(request: &CandidateReachabilityRequest) -> (r: Vec<(usize, bool)>)
    requires
        request.models <= max_models(),
    ensures
        r@.len() == request.candidate_positions@.len(),
        forall|i: int| 0 <= i < r@.len() ==> #[trigger] r@[i] == (
            request.candidate_positions@[i].0,
            candidate_reaches(*request, request.candidate_positions@[i].1),
        ),
{
    let query = ProductionQuery {
        seed: request.seed,
        target: request.target,
        models: request.models,
        offset: request.offset,
        consider_rotom: request.consider_rotom,
        rotom_threshold: request.rotom_threshold,
        observed_rotom_talk: request.observed_rotom_talk,
        pre_rotom_consumption: request.pre_rotom_consumption,
        npc_initial_load: request.npc_initial_load,
        fastest_ticks: request.fastest_ticks,
    };
    let mut out: Vec<(usize, bool)> = Vec::new();
    let mut i: usize = 0;
    while i < request.candidate_positions.len()
        invariant
            i <= request.candidate_positions@.len(),
            query == candidate_query(*request),
            query.models <= max_models(),
            out@.len() == i,
            forall|j: int| 0 <= j < i ==> #[trigger] out@[j] == (
                request.candidate_positions@[j].0,
                candidate_reaches(*request, request.candidate_positions@[j].1),
            ),
        decreases request.candidate_positions@.len() - i,
    {
        let (index, position) = request.candidate_positions[i];
        let reachable = query.target_reachable(position);
        out.push((index, reachable));
        i = i + 1;
    }
    out
}

} // verus!
