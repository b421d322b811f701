//! The hatch guidance: which observed positions reach the target, computed
//! chunk by chunk, and the windows the guidance scans.

use vstd::prelude::*;
use crate::state_types::GuidanceSearchRequest;
use crate::production::{ProductionQuery, MAX_PRODUCTION_LOOKAHEAD};
use crate::timeline::{start_reaches, target_reachability_range, lands_on, max_models, reaches_exactly, advance_timeline};
use crate::observation::MAX_SFMT_FRAME;
use crate::field_target::clamp_i64;
use crate::text::{parsed_i64, trimmed, trim_text, parse_i64};

verus! {

/// Positions scanned before and after the theoretical fastest-close window.
pub const FASTEST_CLOSE_SEARCH_BUFFER: i64 = 100;

/// Positions one guidance request covers.
pub const GUIDANCE_CHUNK: i64 = 4096;

/// Largest encounter offset, in display frames.
pub const MAX_ENCOUNTER_OFFSET_FRAMES: i64 = 10_000;

pub open spec fn max_int(a: int, b: int) -> int {
    if a >= b {
        a
    } else {
        b
    }
}

pub open spec fn min_int(a: int, b: int) -> int {
    if a <= b {
        a
    } else {
        b
    }
}

fn sat_sub(a: i64, b: i64) -> (r: i64)
    ensures
        r == clamp_i64(a - b),
{
    match a.checked_sub(b) {
        Some(v) => v,
        None => if b > 0 {
            i64::MIN
        } else {
            i64::MAX
        },
    }
}

fn sat_add(a: i64, b: i64) -> (r: i64)
    ensures
        r == clamp_i64(a + b),
{
    match a.checked_add(b) {
        Some(v) => v,
        None => if b > 0 {
            i64::MAX
        } else {
            i64::MIN
        },
    }
}

/// The theoretical starts a fastest close can come from, each subtraction
/// saturating: the earliest assumes every tick consumes one value per model
/// and Rotom chats, the latest that nothing is consumed and Rotom is silent.
pub open spec fn theoretical_window(
    target: i64,
    ticks: i64,
    models: int,
    consider_rotom: bool,
    pre_rotom: i64,
    load: i64,
) -> (int, int) {
    let max_consumption = ticks * models;
    let rotom_max: int = if consider_rotom { 2 } else { 0 };
    let rotom_min: int = if consider_rotom { 1 } else { 0 };
    let s = clamp_i64(clamp_i64(clamp_i64(clamp_i64(target - max_consumption) - pre_rotom) - rotom_max) - load);
    let e = clamp_i64(clamp_i64(clamp_i64(target - pre_rotom) - rotom_min) - load);
    (s, e)
}

/// Where the fastest-close guidance searches: the theoretical window widened
/// by `FASTEST_CLOSE_SEARCH_BUFFER`, not before the range start or 0, not
/// after the last cache position; and whether it covers the whole
/// theoretical window.
pub open spec fn fastest_bounds_spec(
    target: i64,
    range_start: i64,
    ticks: i64,
    models: int,
    consider_rotom: bool,
    pre_rotom: i64,
    load: i64,
) -> Option<(i64, i64, bool)> {
    if models > i64::MAX || ticks * models < i64::MIN || ticks * models > i64::MAX {
        None
    } else {
        let w = theoretical_window(target, ticks, models, consider_rotom, pre_rotom, load);
        let search_start = max_int(max_int(clamp_i64(w.0 - FASTEST_CLOSE_SEARCH_BUFFER), range_start as int), 0);
        let search_end = min_int(clamp_i64(w.1 + FASTEST_CLOSE_SEARCH_BUFFER), MAX_SFMT_FRAME as int);
        let covered = search_start <= max_int(w.0, 0) && search_end >= max_int(w.1, 0);
        Some((search_start as i64, search_end as i64, covered))
    }
}

pub fn fastest_close_guidance_bounds(
    target: i64,
    range_start: i64,
    ticks: i64,
    models: usize,
    consider_rotom: bool,
    pre_rotom: i64,
    load: i64,
) -> (r: Option<(i64, i64, bool)>)
    ensures
        r == fastest_bounds_spec(target, range_start, ticks, models as int, consider_rotom, pre_rotom, load),
{
    if models as u64 > i64::MAX as u64 {
        return None;
    }
    let m = models as i64;
    let max_consumption = match ticks.checked_mul(m) {
        Some(v) => v,
        None => return None,
    };
    let rotom_max: i64 = if consider_rotom {
        2
    } else {
        0
    };
    let rotom_min: i64 = if consider_rotom {
        1
    } else {
        0
    };
    let theoretical_start = sat_sub(sat_sub(sat_sub(sat_sub(target, max_consumption), pre_rotom), rotom_max), load);
    let theoretical_end = sat_sub(sat_sub(sat_sub(target, pre_rotom), rotom_min), load);
    let effective_start = if theoretical_start > 0 {
        theoretical_start
    } else {
        0
    };
    let effective_end = if theoretical_end > 0 {
        theoretical_end
    } else {
        0
    };
    let widened = sat_sub(theoretical_start, FASTEST_CLOSE_SEARCH_BUFFER);
    let lower = if widened >= range_start {
        widened
    } else {
        range_start
    };
    let search_start = if lower >= 0 {
        lower
    } else {
        0
    };
    let extended = sat_add(theoretical_end, FASTEST_CLOSE_SEARCH_BUFFER);
    let search_end = if extended <= MAX_SFMT_FRAME {
        extended
    } else {
        MAX_SFMT_FRAME
    };
    let covered = search_start <= effective_start && search_end >= effective_end;
    Some((search_start, search_end, covered))
}

/// The fastest-close search window never starts before frame 0 or before
/// the range start, never ends after the last cache position, and it covers
/// the theoretical window whenever that window lies inside those limits
/// after the buffer is taken off.
pub proof fn lemma_fastest_bounds_limits(
    target: i64,
    range_start: i64,
    ticks: i64,
    models: int,
    consider_rotom: bool,
    pre_rotom: i64,
    load: i64,
)
    requires
        models >= 0,
    ensures
        fastest_bounds_spec(target, range_start, ticks, models, consider_rotom, pre_rotom, load) matches Some(b) ==> {
            let w = theoretical_window(target, ticks, models, consider_rotom, pre_rotom, load);
            &&& b.0 >= 0
            &&& b.0 >= range_start
            &&& b.1 <= MAX_SFMT_FRAME
            &&& b.2 <==> (b.0 <= max_int(w.0, 0) && b.1 >= max_int(w.1, 0))
            &&& (w.0 - FASTEST_CLOSE_SEARCH_BUFFER >= range_start && w.0 - FASTEST_CLOSE_SEARCH_BUFFER >= 0
                && w.1 + FASTEST_CLOSE_SEARCH_BUFFER <= MAX_SFMT_FRAME && w.0 >= 0 && w.1 >= 0) ==> b.2
        },
{
    let b = fastest_bounds_spec(target, range_start, ticks, models, consider_rotom, pre_rotom, load);
    if b is Some {
        let w = theoretical_window(target, ticks, models, consider_rotom, pre_rotom, load);
        assert(i64::MIN <= w.0 <= i64::MAX);
        assert(i64::MIN <= w.1 <= i64::MAX);
    }
}

/// Reachability of one observed position in a guidance batch: the
/// production start after Rotom and the initial load must reach the target.
pub open spec fn guidance_reachable(request: GuidanceSearchRequest, observed: int) -> bool {
    match query_of(request).spec_base_start(observed as i64) {
        Some(s) => start_reaches(request.seed, s as int, request.target as int, request.models as nat, request.fastest_ticks),
        None => false,
    }
}

pub open spec fn query_of(request: GuidanceSearchRequest) -> ProductionQuery {
    ProductionQuery {
        seed: request.seed,
        target: request.target,
        models: request.models,
        offset: request.offset,
        consider_rotom: request.consider_rotom,
        rotom_threshold: request.rotom_threshold,
        observed_rotom_talk: request.observed_rotom_talk,
        pre_rotom_consumption: request.pre_rotom_consumption,
        npc_initial_load: request.npc_initial_load,
        fastest_ticks: request.fastest_ticks,
    }
}

/// Some observed position of the request has a production start.
pub open spec fn some_start_planned(request: GuidanceSearchRequest) -> bool {
    exists|o: int| request.observed_start <= o <= request.observed_end && #[trigger] query_of(
        request,
    ).spec_base_start(o as i64) is Some
}

/// The guidance answer for every observed position of a request, in order.
pub open spec fn guidance_batch_spec(request: GuidanceSearchRequest) -> Seq<(i64, bool)> {
    let n = if request.observed_end < request.observed_start {
        0
    } else {
        (request.observed_end - request.observed_start + 1) as nat
    };
    if request.target - request.observed_start > MAX_PRODUCTION_LOOKAHEAD {
        Seq::new(n, |i: int| ((request.observed_start + i) as i64, false))
    } else if !some_start_planned(request) {
        Seq::empty()
    } else {
        Seq::new(n, |i: int| ((request.observed_start + i) as i64, guidance_reachable(request, request.observed_start + i)))
    }
}

/// Each entry of a guidance batch answers what the single-position table
/// check of that position answers (the check `target_exactly_reached`
/// makes): the batched scan over a shared stream and the position's own run
/// agree.
pub proof fn lemma_batch_agrees_with_single_check(request: GuidanceSearchRequest, o: int)
    requires
        request.observed_start <= o <= request.observed_end,
        request.target - request.observed_start <= MAX_PRODUCTION_LOOKAHEAD,
        some_start_planned(request),
    ensures
        ({
            let q = query_of(request);
            &&& !q.too_far(o as i64)
            &&& guidance_batch_spec(request)[o - request.observed_start] == (
                o as i64,
                match q.spec_start(o as i64) {
                    None => false,
                    Some(s) => if q.fastest_ticks is Some {
                        s == q.target
                    } else {
                        lands_on(q.seed, s as int, q.target as int, q.models as nat)
                    },
                },
            )
        }),
{
    let i = o - request.observed_start;
    let n = (request.observed_end - request.observed_start + 1) as nat;
    assert(guidance_batch_spec(request) == Seq::new(
        n,
        |j: int| ((request.observed_start + j) as i64, guidance_reachable(request, request.observed_start + j)),
    ));
    assert(guidance_batch_spec(request)[i] == ((o as i64), guidance_reachable(request, o)));
    let q = query_of(request);
    let expected = match q.spec_start(o as i64) {
        None => false,
        Some(s) => if q.fastest_ticks is Some {
            s == q.target
        } else {
            lands_on(q.seed, s as int, q.target as int, q.models as nat)
        },
    };
    match q.spec_base_start(o as i64) {
        None => {
            assert(guidance_reachable(request, o) == expected);
        },
        Some(b) => match q.fastest_ticks {
            None => {
                assert(q.spec_start(o as i64) == Some(b));
                assert(guidance_reachable(request, o) == lands_on(q.seed, b as int, q.target as int, q.models as nat));
                assert(guidance_reachable(request, o) == expected);
            },
            Some(t) => {
                if b < 0 || t < 0 || q.models == 0 {
                    assert(guidance_reachable(request, o) == expected);
                } else {
                    let f = crate::timeline::tl_frame(q.seed, b as int, q.models as nat, t as nat);
                    crate::timeline::lemma_tl_monotone(q.seed, b as int, q.models as nat, 0, t as nat);
                    if f <= i64::MAX {
                        assert(q.spec_start(o as i64) == Some(f as i64));
                    } else {
                        assert(q.spec_start(o as i64) is None);
                    }
                    assert(guidance_reachable(request, o) == expected);
                }
            },
        },
    }
}

/// Whether the production run from `s` reaches the target, as a batch
/// entry decides it.
fn start_reaches_target(request: GuidanceSearchRequest, s: i64) -> (r: bool)
    requires
        request.models <= max_models(),
    ensures
        r == start_reaches(request.seed, s as int, request.target as int, request.models as nat, request.fastest_ticks),
{
    match request.fastest_ticks {
        None => reaches_exactly(request.seed, s, request.target, request.models),
        Some(t) => if s < 0 || t < 0 || request.models == 0 {
            false
        } else {
            proof {
                crate::timeline::lemma_tl_monotone(request.seed, s as int, request.models as nat, 0, t as nat);
            }
            match advance_timeline(request.seed, s, request.models, t) {
                Some(f) => f == request.target,
                None => false,
            }
        },
    }
}

/// The guidance batch computed position by position, each from its own
/// production run; for requests whose shared stream would be too large.
fn guidance_batch_each(request: GuidanceSearchRequest) -> (r: Vec<(i64, bool)>)
    requires
        request.models <= max_models(),
        request.target - request.observed_start <= MAX_PRODUCTION_LOOKAHEAD,
    ensures
        r@ == guidance_batch_spec(request),
{
    let start = request.observed_start;
    let end = request.observed_end;
    let query = ProductionQuery {
        seed: request.seed,
        target: request.target,
        models: request.models,
        offset: request.offset,
        consider_rotom: request.consider_rotom,
        rotom_threshold: request.rotom_threshold,
        observed_rotom_talk: request.observed_rotom_talk,
        pre_rotom_consumption: request.pre_rotom_consumption,
        npc_initial_load: request.npc_initial_load,
        fastest_ticks: request.fastest_ticks,
    };
    assert(query == query_of(request));
    let mut out: Vec<(i64, bool)> = Vec::new();
    if end < start {
        proof {
            assert(out@ =~= guidance_batch_spec(request)) by {
                if some_start_planned(request) {
                    let o = choose|o: int| request.observed_start <= o <= request.observed_end && #[trigger] query_of(
                        request,
                    ).spec_base_start(o as i64) is Some;
                }
            }
        }
        return out;
    }
    let mut any = false;
    let mut f = start;
    loop
        invariant_except_break
            any == exists|o: int| start <= o < f && #[trigger] query.spec_base_start(o as i64) is Some,
        invariant
            query == query_of(request),
            start <= f <= end,
        ensures
            any == exists|o: int| start <= o <= end && #[trigger] query.spec_base_start(o as i64) is Some,
        decreases end - f,
    {
        let found = query.base_encounter_start(f).is_some();
        proof {
            assert(found == query.spec_base_start((f as int) as i64) is Some);
        }
        if found {
            any = true;
        }
        if f == end {
            break;
        }
        f = f + 1;
    }
    proof {
        assert(any == some_start_planned(request));
    }
    if !any {
        return out;
    }
    let mut f = start;
    loop
        invariant_except_break
            out@ == Seq::new((f - start) as nat, |i: int| ((start + i) as i64, guidance_reachable(request, start + i))),
        invariant
            query == query_of(request),
            request.models <= max_models(),
            start <= f <= end,
        ensures
            out@ == Seq::new((end + 1 - start) as nat, |i: int| ((start + i) as i64, guidance_reachable(request, start + i))),
        decreases end - f,
    {
        let reachable = match query.base_encounter_start(f) {
            Some(s) => start_reaches_target(request, s),
            None => false,
        };
        proof {
            assert(reachable == guidance_reachable(request, start + (f - start)));
        }
        out.push((f, reachable));
        proof {
            assert(out@ =~= Seq::new((f + 1 - start) as nat, |i: int| ((start + i) as i64, guidance_reachable(request, start + i))));
        }
        if f == end {
            break;
        }
        f = f + 1;
    }
    proof {
        assert(out@ =~= guidance_batch_spec(request));
    }
    out
}

/// One chunk of the hatch guidance: for every observed position, whether
/// its production timeline reaches the target. All false when the target
/// is beyond the production lookahead; empty when no position has a start.
pub fn calculate_guidance_batch(request: GuidanceSearchRequest) -> (r: Vec<(i64, bool)>)
    requires
        request.models <= max_models(),
    ensures
        r@ == guidance_batch_spec(request),
{
    let fastest_bounded = match request.fastest_ticks {
        Some(t) => t <= 100_000,
        None => true,
    };
    if request.models <= 256 && request.observed_start >= 0 && request.observed_end <= MAX_SFMT_FRAME
        && (request.observed_end as i128) - (request.observed_start as i128) <= 1_000_000 && request.pre_rotom_consumption
        <= MAX_SFMT_FRAME && request.npc_initial_load <= MAX_SFMT_FRAME && fastest_bounded {
        return guidance_batch_shared(request);
    }
    if (request.target as i128) - (request.observed_start as i128) > MAX_PRODUCTION_LOOKAHEAD as i128 {
        return guidance_batch_far(request);
    }
    guidance_batch_each(request)
}

/// Every observed position marked unreachable: the target is beyond the
/// production lookahead from the first of them.
fn guidance_batch_far(request: GuidanceSearchRequest) -> (r: Vec<(i64, bool)>)
    requires
        request.target - request.observed_start > MAX_PRODUCTION_LOOKAHEAD,
    ensures
        r@ == guidance_batch_spec(request),
{
    let start = request.observed_start;
    let end = request.observed_end;
    let mut all: Vec<(i64, bool)> = Vec::new();
    if end < start {
        proof {
            assert(all@ =~= guidance_batch_spec(request));
        }
        return all;
    }
    let mut f = start;
    loop
        invariant_except_break
            all@ == Seq::new((f - start) as nat, |i: int| ((start + i) as i64, false)),
        invariant
            start <= f <= end,
        ensures
            all@ == Seq::new((end + 1 - start) as nat, |i: int| ((start + i) as i64, false)),
        decreases end - f,
    {
        all.push((f, false));
        proof {
            assert(all@ =~= Seq::new((f + 1 - start) as nat, |i: int| ((start + i) as i64, false)));
        }
        if f == end {
            break;
        }
        f = f + 1;
    }
    proof {
        assert(all@ =~= guidance_batch_spec(request));
    }
    all
}

/// The guidance batch from one stream shared by all observed positions.
fn guidance_batch_shared(request: GuidanceSearchRequest) -> (r: Vec<(i64, bool)>)
    requires
        request.models <= 256,
        request.observed_start >= 0,
        request.observed_end <= MAX_SFMT_FRAME,
        request.observed_end - request.observed_start <= 1_000_000,
        request.pre_rotom_consumption <= MAX_SFMT_FRAME,
        request.npc_initial_load <= MAX_SFMT_FRAME,
        request.fastest_ticks matches Some(t) ==> t <= 100_000,
    ensures
        r@ == guidance_batch_spec(request),
{
    let start = request.observed_start;
    let end = request.observed_end;
    let ghost n: nat = if end < start {
        0
    } else {
        (end - start + 1) as nat
    };
    if (request.target as i128) - (start as i128) > MAX_PRODUCTION_LOOKAHEAD as i128 {
        let mut all: Vec<(i64, bool)> = Vec::new();
        let mut f = start;
        while f <= end
            invariant
                end <= MAX_SFMT_FRAME,
                start <= f <= if end < start { start as int } else { end + 1 },
                all@ == Seq::new((f - start) as nat, |i: int| ((start + i) as i64, false)),
            decreases end + 1 - f,
        {
            all.push((f, false));
            proof {
                assert(all@ =~= Seq::new((f + 1 - start) as nat, |i: int| ((start + i) as i64, false)));
            }
            f = f + 1;
        }
        proof {
            assert(all@ =~= guidance_batch_spec(request));
        }
        return all;
    }
    let query = ProductionQuery {
        seed: request.seed,
        target: request.target,
        models: request.models,
        offset: request.offset,
        consider_rotom: request.consider_rotom,
        rotom_threshold: request.rotom_threshold,
        observed_rotom_talk: request.observed_rotom_talk,
        pre_rotom_consumption: request.pre_rotom_consumption,
        npc_initial_load: request.npc_initial_load,
        fastest_ticks: request.fastest_ticks,
    };
    assert(query == query_of(request));
    let mut starts: Vec<Option<i64>> = Vec::new();
    let mut min_start: i64 = i64::MAX;
    let mut max_start: i64 = i64::MIN;
    let mut any = false;
    let mut f = start;
    while f <= end
        invariant
            query == query_of(request),
            start == request.observed_start,
            end == request.observed_end,
            0 <= start,
            end <= MAX_SFMT_FRAME,
            request.pre_rotom_consumption <= MAX_SFMT_FRAME,
            request.npc_initial_load <= MAX_SFMT_FRAME,
            start <= f <= if end < start { start as int } else { end + 1 },
            starts@.len() == f - start,
            forall|i: int| 0 <= i < starts@.len() ==> #[trigger] starts@[i] == query.spec_base_start((start + i) as i64),
            any == exists|i: int| 0 <= i < starts@.len() && #[trigger] starts@[i] is Some,
            any ==> start <= min_start <= max_start,
            !any ==> min_start == i64::MAX && max_start == i64::MIN,
            any ==> max_start <= 3 * MAX_SFMT_FRAME + 2,
            forall|i: int| 0 <= i < starts@.len() && #[trigger] starts@[i] is Some ==> min_start <= starts@[i]->0 <= max_start,
            any ==> exists|i: int| 0 <= i < starts@.len() && #[trigger] starts@[i] == Some(min_start),
            any ==> exists|i: int| 0 <= i < starts@.len() && #[trigger] starts@[i] == Some(max_start),
            forall|i: int| 0 <= i < starts@.len() && #[trigger] starts@[i] is Some ==> {
                &&& request.pre_rotom_consumption + request.npc_initial_load <= starts@[i]->0 - (start + i)
                &&& starts@[i]->0 - (start + i) <= request.pre_rotom_consumption + request.npc_initial_load + 2
                &&& request.pre_rotom_consumption >= 0
                &&& request.npc_initial_load >= 0
            },
        decreases end + 1 - f,
    {
        let ghost any_before = any;
        let ghost min_before = min_start;
        let s = query.base_encounter_start(f);
        match s {
            Some(v) => {
                assert(request.pre_rotom_consumption + request.npc_initial_load <= v - f);
                assert(v - f <= request.pre_rotom_consumption + request.npc_initial_load + 2);
                if v < min_start {
                    min_start = v;
                }
                if v > max_start {
                    max_start = v;
                }
                any = true;
            },
            None => {},
        }
        let ghost prior = starts@;
        starts.push(s);
        proof {
            if s is Some {
                assert(starts@[f - start] is Some);
            }
            if s is Some && s->0 == min_start {
                assert(starts@[f - start] == Some(min_start));
            } else if any_before {
                let w = choose|i: int| 0 <= i < prior.len() && #[trigger] prior[i] == Some(min_before);
                assert(starts@[w] == prior[w]);
            }
        }
        f = f + 1;
    }
    if !any {
        proof {
            assert forall|o: int| request.observed_start <= o <= request.observed_end implies !(#[trigger] query_of(
                request,
            ).spec_base_start(o as i64) is Some) by {
                assert(starts@[o - start] == query.spec_base_start((start + (o - start)) as i64));
            }
        }
        return Vec::new();
    }
    proof {
        let a = choose|i: int| 0 <= i < starts@.len() && #[trigger] starts@[i] == Some(min_start);
        let b = choose|i: int| 0 <= i < starts@.len() && #[trigger] starts@[i] == Some(max_start);
        assert(max_start - min_start <= (end - start) + 2);
        assert(min_start >= start);
        let t: int = match request.fastest_ticks {
            Some(t) => if t < 1 { 1 } else { t as int },
            None => 1,
        };
        assert(t * (request.models as int) <= 100_000 * 256) by (nonlinear_arith)
            requires
                1 <= t <= 100_000,
                0 <= request.models <= 256;
        assert(t * (request.models as int) >= 0) by (nonlinear_arith)
            requires
                1 <= t,
                0 <= request.models;
        assert(crate::timeline::reachability_extra(request.models as int, request.fastest_ticks) == t * (request.models as int) + 8);
    }
    let reach = target_reachability_range(
        request.seed,
        min_start,
        max_start,
        request.target,
        request.models,
        request.fastest_ticks,
    );
    let mut out: Vec<(i64, bool)> = Vec::new();
    let mut k: usize = 0;
    let count = starts.len();
    let models = request.models;
    while k < count
        invariant
            count == starts@.len(),
            models == request.models,
            0 <= start <= MAX_SFMT_FRAME,
            count <= 1_000_001,
            max_start - min_start <= 1_000_002,
            count == n,
            k <= count,
            query == query_of(request),
            start == request.observed_start,
            forall|i: int| 0 <= i < starts@.len() ==> #[trigger] starts@[i] == query.spec_base_start((start + i) as i64),
            forall|i: int| 0 <= i < starts@.len() && #[trigger] starts@[i] is Some ==> min_start <= starts@[i]->0 <= max_start,
            0 <= min_start <= max_start,
            models > 0 ==> reach@.len() == max_start - min_start + 1,
            forall|i: int| 0 <= i < reach@.len() ==> #[trigger] reach@[i] == (
                (min_start + i) as i64,
                start_reaches(request.seed, min_start + i, request.target as int, request.models as nat, request.fastest_ticks),
            ),
            out@ == Seq::new(k as nat, |i: int| ((start + i) as i64, guidance_reachable(request, start + i))),
        decreases count - k,
    {
        let observed = start + k as i64;
        let reachable = match starts[k] {
            Some(s) => if models == 0 {
                false
            } else {
                reach[(s - min_start) as usize].1
            },
            None => false,
        };
        out.push((observed, reachable));
        proof {
            assert(out@ =~= Seq::new((k + 1) as nat, |i: int| ((start + i) as i64, guidance_reachable(request, start + i))));
        }
        k = k + 1;
    }
    proof {
        let w = choose|i: int| 0 <= i < starts@.len() && #[trigger] starts@[i] is Some;
        assert(query_of(request).spec_base_start((start + w) as i64) is Some);
        assert(some_start_planned(request));
        assert(out@ =~= guidance_batch_spec(request));
    }
    out
}

/// The positions the guidance scans from the current position: the target
/// side of the fastest-close window or the current position onwards, up to
/// the range end (or the fastest-close window end), within the production
/// lookahead and the cache. The third value tells that the target is beyond
/// the lookahead, in which case nothing is scanned.
pub open spec fn scan_window_spec(current: i64, target: i64, range_end: i64, fastest: Option<(i64, i64, bool)>) -> (
    i64,
    i64,
    bool,
) {
    if clamp_i64(target - current) > MAX_PRODUCTION_LOOKAHEAD {
        (current, clamp_i64(current - 1) as i64, true)
    } else {
        let theoretical_start: int = match fastest {
            Some(b) => b.0 as int,
            None => current as int,
        };
        let search_start = max_int(current as int, theoretical_start);
        let horizon = clamp_i64(current + MAX_PRODUCTION_LOOKAHEAD);
        let configured_end = min_int(min_int(max_int(range_end as int, current as int), MAX_SFMT_FRAME as int), horizon);
        let search_end = match fastest {
            Some(b) => min_int(min_int(max_int(configured_end, b.1 as int), horizon), MAX_SFMT_FRAME as int),
            None => configured_end,
        };
        (search_start as i64, search_end as i64, false)
    }
}

pub fn guidance_scan_window(current: i64, target: i64, range_end: i64, fastest: Option<(i64, i64, bool)>) -> (r: (
    i64,
    i64,
    bool,
))
    ensures
        r == scan_window_spec(current, target, range_end, fastest),
{
    if sat_sub(target, current) > MAX_PRODUCTION_LOOKAHEAD {
        return (current, sat_sub(current, 1), true);
    }
    let theoretical_start = match fastest {
        Some(b) => b.0,
        None => current,
    };
    let search_start = if current >= theoretical_start {
        current
    } else {
        theoretical_start
    };
    let horizon = sat_add(current, MAX_PRODUCTION_LOOKAHEAD);
    let widest = if range_end >= current {
        range_end
    } else {
        current
    };
    let capped = if widest <= MAX_SFMT_FRAME {
        widest
    } else {
        MAX_SFMT_FRAME
    };
    let configured_end = if capped <= horizon {
        capped
    } else {
        horizon
    };
    let search_end = match fastest {
        Some(b) => {
            let wide = if configured_end >= b.1 {
                configured_end
            } else {
                b.1
            };
            let near = if wide <= horizon {
                wide
            } else {
                horizon
            };
            if near <= MAX_SFMT_FRAME {
                near
            } else {
                MAX_SFMT_FRAME
            }
        },
        None => configured_end,
    };
    (search_start, search_end, false)
}

/// The next chunk of the guidance window not computed yet: from after the
/// last known position (at least the window start), `GUIDANCE_CHUNK`
/// positions at most; `None` when the window is done.
pub open spec fn guidance_chunk_spec(known_end: i64, search_start: i64, search_end: i64) -> Option<(i64, i64)> {
    let observed_start = max_int(clamp_i64(known_end + 1), search_start as int);
    if observed_start > search_end {
        None
    } else {
        let observed_end = min_int(clamp_i64(observed_start + (GUIDANCE_CHUNK - 1)), search_end as int);
        Some((observed_start as i64, observed_end as i64))
    }
}

pub fn guidance_chunk(known_end: i64, search_start: i64, search_end: i64) -> (r: Option<(i64, i64)>)
    ensures
        r == guidance_chunk_spec(known_end, search_start, search_end),
{
    let next = sat_add(known_end, 1);
    let observed_start = if next >= search_start {
        next
    } else {
        search_start
    };
    if observed_start > search_end {
        return None;
    }
    let far = sat_add(observed_start, GUIDANCE_CHUNK - 1);
    let observed_end = if far <= search_end {
        far
    } else {
        search_end
    };
    Some((observed_start, observed_end))
}

/// A worker's answer covers exactly the positions of its request, in order.
pub open spec fn guidance_complete_spec(request: GuidanceSearchRequest, results: Seq<(i64, bool)>) -> bool {
    let span = request.observed_end - request.observed_start + 1;
    &&& request.observed_end - request.observed_start <= i64::MAX
    &&& 0 <= span <= i64::MAX
    &&& span <= usize::MAX
    &&& results.len() == span
    &&& forall|i: int| 0 <= i < results.len() ==> (#[trigger] results[i]).0 == clamp_i64(request.observed_start + i)
}

pub fn guidance_results_complete(request: &GuidanceSearchRequest, results: &Vec<(i64, bool)>) -> (r: bool)
    ensures
        r == guidance_complete_spec(*request, results@),
{
    let span = match request.observed_end.checked_sub(request.observed_start) {
        Some(d) => match d.checked_add(1) {
            Some(n) => n,
            None => return false,
        },
        None => return false,
    };
    if span < 0 {
        return false;
    }
    if span as u64 > usize::MAX as u64 {
        return false;
    }
    if results.len() != span as usize {
        return false;
    }
    let mut i: usize = 0;
    while i < results.len()
        invariant
            i <= results@.len(),
            results@.len() == span,
            span <= i64::MAX,
            forall|j: int| 0 <= j < i ==> (#[trigger] results@[j]).0 == clamp_i64(request.observed_start + j),
        decreases results@.len() - i,
    {
        let expected = sat_add(request.observed_start, i as i64);
        if results[i].0 != expected {
            return false;
        }
        i = i + 1;
    }
    true
}

/// Why the encounter offset field is refused, when the offset is in use:
/// not an integer, negative, above `MAX_ENCOUNTER_OFFSET_FRAMES`, or odd
/// (offsets are whole ticks of two display frames). A blank field is 0.
pub open spec fn offset_error_spec(use_offset: bool, text: Seq<char>) -> Option<Seq<char>> {
    if !use_offset {
        None
    } else {
        let t = trimmed(text);
        let frames: Option<int> = if t.len() == 0 {
            Some(0)
        } else {
            match parsed_i64(t) {
                Some(v) => Some(v as int),
                None => None,
            }
        };
        match frames {
            None => Some("オフセットは整数の表示Fで入力してください。"@),
            Some(f) => if f < 0 {
                Some("オフセットは0以上の表示Fで入力してください。"@)
            } else if f > MAX_ENCOUNTER_OFFSET_FRAMES {
                Some("オフセットは10000F以下で入力してください。"@)
            } else if f % 2 != 0 {
                Some("オフセットは2F単位で入力してください。"@)
            } else {
                None
            },
        }
    }
}

pub fn encounter_offset_error(use_offset: bool, text: &str) -> (r: Option<String>)
    ensures
        match offset_error_spec(use_offset, text@) {
            None => r is None,
            Some(m) => r is Some && r->0@ == m,
        },
{
    if !use_offset {
        return None;
    }
    let t = trim_text(text);
    let frames: i64 = if t.is_empty() {
        0
    } else {
        match parse_i64(t) {
            Some(v) => v,
            None => return Some("オフセットは整数の表示Fで入力してください。".to_owned()),
        }
    };
    if frames < 0 {
        return Some("オフセットは0以上の表示Fで入力してください。".to_owned());
    }
    if frames > MAX_ENCOUNTER_OFFSET_FRAMES {
        return Some("オフセットは10000F以下で入力してください。".to_owned());
    }
    if frames % 2 != 0 {
        return Some("オフセットは2F単位で入力してください。".to_owned());
    }
    None
}

/// The offset as whole ticks: `None` for a negative or odd frame count.
pub fn encounter_offset_ticks(frames: i64) -> (r: Option<i64>)
    ensures
        (frames >= 0 && frames % 2 == 0) ==> r == Some((frames / 2) as i64),
        !(frames >= 0 && frames % 2 == 0) ==> r is None,
{
    if frames >= 0 && frames % 2 == 0 {
        Some(frames / 2)
    } else {
        None
    }
}

} // verus!
