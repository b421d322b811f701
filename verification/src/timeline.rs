//! Production timelines: the model counters advanced tick by tick from a
//! start position, and the queries that locate a target position on them.

use vstd::prelude::*;
use crate::sfmt::{Sfmt, sfmt_after, seeded, sfmt_u64_at, stream_from, lemma_values64_shift, lemma_skip64_add, generate_u64_values_from, generate_u64_values};
use crate::model_status::{ModelStatus, status_used, status_next, status_blinks, lemma_draws_before_bounds};

verus! {

/// Upper bound on the number of ticks any timeline query simulates.
pub const MAX_TIMELINE_TICKS: i64 = 10_000_000;

/// Largest number of model counters a status can hold (allocation limit of
/// 4-byte counters).
pub open spec fn max_models() -> int {
    isize::MAX as int / 4
}

/// Counters of a fresh status for `models` models.
pub open spec fn initial_remain(models: nat) -> Seq<i32> {
    Seq::new(if models == 0 { 1nat } else { models }, |i: int| 0i32)
}

/// The values one tick starting at absolute `frame` draws.
pub open spec fn tick_values(seed: u32, frame: int, rs: Seq<i32>) -> Seq<u64> {
    Seq::new(status_used(rs), |j: int| sfmt_u64_at(seed, (frame + j) as nat))
}

/// Timeline state (SFMT position, counters) after `k` ticks from `start`.
pub open spec fn tl(seed: u32, start: int, models: nat, k: nat) -> (int, Seq<i32>)
    decreases k,
{
    if k == 0 {
        (start, initial_remain(models))
    } else {
        let prev = tl(seed, start, models, (k - 1) as nat);
        (prev.0 + status_used(prev.1), status_next(prev.1, tick_values(seed, prev.0, prev.1)))
    }
}

pub open spec fn tl_frame(seed: u32, start: int, models: nat, k: nat) -> int {
    tl(seed, start, models, k).0
}

pub open spec fn tl_remain(seed: u32, start: int, models: nat, k: nat) -> Seq<i32> {
    tl(seed, start, models, k).1
}

pub proof fn lemma_tl_unfold(seed: u32, start: int, models: nat, k: nat)
    ensures
        tl_frame(seed, start, models, k + 1) == tl_frame(seed, start, models, k) + status_used(
            tl_remain(seed, start, models, k),
        ),
        tl_remain(seed, start, models, k + 1) == status_next(
            tl_remain(seed, start, models, k),
            tick_values(seed, tl_frame(seed, start, models, k), tl_remain(seed, start, models, k)),
        ),
{
    assert((k + 1 - 1) as nat == k);
}

pub proof fn lemma_tl_monotone(seed: u32, start: int, models: nat, j: nat, k: nat)
    requires
        j <= k,
    ensures
        tl_frame(seed, start, models, j) <= tl_frame(seed, start, models, k),
    decreases k - j,
{
    if j < k {
        lemma_tl_monotone(seed, start, models, j, (k - 1) as nat);
        lemma_tl_unfold(seed, start, models, (k - 1) as nat);
    }
}

/// Where a target falls on a timeline.
#[derive(Clone, Copy, Debug, PartialEq, Eq)]
pub struct TimelineTarget {
    /// The tick whose start position equals the target; `None` when a step
    /// jumps over it.
    pub exact_tick: Option<i64>,
    /// The first tick with `frame_before <= target < frame_after`; equal to
    /// `exact_tick` on an exact landing.
    pub timeline_tick: i64,
    pub frame_before: i64,
    pub frame_after: i64,
}

/// Tick `k` either starts exactly at `target` or steps over it.
pub open spec fn hits_at(seed: u32, start: int, models: nat, target: int, k: nat) -> bool {
    let f = tl_frame(seed, start, models, k);
    f == target || (f <= target && target < tl_frame(seed, start, models, k + 1))
}

/// Tick `k` is the first tick (below the simulation limit) that hits `target`.
pub open spec fn first_hit(seed: u32, start: int, models: nat, target: int, k: int) -> bool {
    &&& 0 <= k < MAX_TIMELINE_TICKS
    &&& hits_at(seed, start, models, target, k as nat)
    &&& forall|j: int| 0 <= j < k ==> !#[trigger] hits_at(seed, start, models, target, j as nat)
}

/// The answer when tick `k` is the first hit: an exact landing, or the step
/// that crosses the target (unless its end position overflows).
pub open spec fn target_result_at(seed: u32, start: int, models: nat, target: int, k: int) -> Option<
    TimelineTarget,
> {
    let f = tl_frame(seed, start, models, k as nat);
    let g = tl_frame(seed, start, models, (k + 1) as nat);
    if f == target {
        Some(
            TimelineTarget {
                exact_tick: Some(k as i64),
                timeline_tick: k as i64,
                frame_before: target as i64,
                frame_after: target as i64,
            },
        )
    } else if g <= i64::MAX {
        Some(
            TimelineTarget {
                exact_tick: None,
                timeline_tick: (k + 1) as i64,
                frame_before: f as i64,
                frame_after: g as i64,
            },
        )
    } else {
        None
    }
}

/// The full specification of locating `target` on the timeline from `start`.
pub open spec fn spec_timeline_target(seed: u32, start: int, target: int, models: nat, r: Option<
    TimelineTarget,
>) -> bool {
    &&& (start < 0 || target < start || models == 0) ==> r is None
    &&& !(start < 0 || target < start || models == 0) ==> {
        &&& forall|k: int| #[trigger]
            first_hit(seed, start, models, target, k) ==> r == target_result_at(
                seed,
                start,
                models,
                target,
                k,
            )
        &&& (forall|k: int| !#[trigger] first_hit(seed, start, models, target, k)) ==> r is None
    }
}

/// At most one tick is the first hit.
pub proof fn lemma_first_hit_unique(seed: u32, start: int, models: nat, target: int, a: int, b: int)
    requires
        first_hit(seed, start, models, target, a),
        first_hit(seed, start, models, target, b),
    ensures
        a == b,
{
    if a < b {
        assert(hits_at(seed, start, models, target, a as nat));
    } else if b < a {
        assert(hits_at(seed, start, models, target, b as nat));
    }
}

/// The specification of a target lookup determines its answer.
pub proof fn lemma_spec_timeline_target_unique(
    seed: u32,
    start: int,
    target: int,
    models: nat,
    r1: Option<TimelineTarget>,
    r2: Option<TimelineTarget>,
)
    requires
        spec_timeline_target(seed, start, target, models, r1),
        spec_timeline_target(seed, start, target, models, r2),
    ensures
        r1 == r2,
{
    if !(start < 0 || target < start || models == 0) {
        if exists|k: int| #[trigger] first_hit(seed, start, models, target, k) {
            let k = choose|k: int| #[trigger] first_hit(seed, start, models, target, k);
            assert(r1 == target_result_at(seed, start, models, target, k));
            assert(r2 == target_result_at(seed, start, models, target, k));
        }
    }
}

/// Locates `target` on the production timeline starting at `start`: the tick
/// that lands on it exactly, or the first step that jumps over it.
pub fn timeline_target(seed: u32, start: i64, target: i64, models: usize) -> (r: Option<TimelineTarget>)
    requires
        models <= max_models(),
    ensures
        spec_timeline_target(seed, start as int, target as int, models as nat, r),
{
    if start < 0 || target < start || models == 0 {
        return None;
    }
    let ghost m = models as nat;
    let ghost st = start as int;
    let mut sfmt = sfmt_after(seed, start as u64);
    let mut status = ModelStatus::new(models);
    let mut frame = start;
    let mut tick: i64 = 0;
    assert(status.remain@ =~= tl_remain(seed, st, m, 0));
    while tick < MAX_TIMELINE_TICKS
        invariant
            0 <= tick <= MAX_TIMELINE_TICKS,
            0 <= st <= frame <= target,
            models as int <= max_models(),
            models > 0,
            st == start as int,
            m == models as nat,
            frame == tl_frame(seed, st, m, tick as nat),
            status.remain@ == tl_remain(seed, st, m, tick as nat),
            status.remain@.len() == models,
            sfmt@ == seeded(seed).skip64(frame as nat),
            sfmt.wf(),
            forall|j: int| 0 <= j < tick ==> !#[trigger] hits_at(seed, st, m, target as int, j as nat),
        decreases MAX_TIMELINE_TICKS - tick,
    {
        if frame == target {
            proof {
                assert(first_hit(seed, st, m, target as int, tick as int));
                assert forall|k: int| #[trigger] first_hit(seed, st, m, target as int, k) implies k
                    == tick by {
                    if k < tick {
                    } else if k > tick {
                        assert(hits_at(seed, st, m, target as int, tick as nat));
                    }
                }
                assert(target_result_at(seed, st, m, target as int, tick as int) == Some(
                    TimelineTarget {
                        exact_tick: Some(tick),
                        timeline_tick: tick,
                        frame_before: frame,
                        frame_after: frame,
                    },
                ));
            }
            return Some(
                TimelineTarget {
                    exact_tick: Some(tick),
                    timeline_tick: tick,
                    frame_before: frame,
                    frame_after: frame,
                },
            );
        }
        let before = frame;
        let ghost rs = status.remain@;
        let (used, _) = status.next_state(&mut sfmt);
        proof {
            lemma_tl_unfold(seed, st, m, tick as nat);
            lemma_values64_shift(seed, frame as nat, used as nat);
            lemma_skip64_add(seeded(seed), frame as nat, used as nat);
            lemma_draws_before_bounds(rs, rs.len() as int);
        }
        let next = frame.checked_add(used as i64);
        match next {
            None => {
                proof {
                    assert(first_hit(seed, st, m, target as int, tick as int));
                    assert forall|k: int| #[trigger] first_hit(seed, st, m, target as int, k) implies k
                        == tick by {
                        if k > tick {
                            assert(hits_at(seed, st, m, target as int, tick as nat));
                        }
                    }
                }
                return None;
            },
            Some(f) => {
                frame = f;
            },
        }
        if before <= target && target < frame {
            proof {
                assert(first_hit(seed, st, m, target as int, tick as int));
                assert forall|k: int| #[trigger] first_hit(seed, st, m, target as int, k) implies k
                    == tick by {
                    if k > tick {
                        assert(hits_at(seed, st, m, target as int, tick as nat));
                    }
                }
            }
            return Some(
                TimelineTarget {
                    exact_tick: None,
                    timeline_tick: tick + 1,
                    frame_before: before,
                    frame_after: frame,
                },
            );
        }
        proof {
            assert(!hits_at(seed, st, m, target as int, tick as nat));
        }
        tick = tick + 1;
    }
    proof {
        assert forall|k: int| !#[trigger] first_hit(seed, st, m, target as int, k) by {
            if 0 <= k < MAX_TIMELINE_TICKS {
                assert(!hits_at(seed, st, m, target as int, k as nat));
            }
        }
    }
    None
}


pub proof fn lemma_tl_remain_len(seed: u32, start: int, models: nat, k: nat)
    ensures
        tl_remain(seed, start, models, k).len() == if models == 0 { 1 } else { models },
    decreases k,
{
    if k > 0 {
        lemma_tl_remain_len(seed, start, models, (k - 1) as nat);
        lemma_tl_unfold(seed, start, models, (k - 1) as nat);
    }
}

/// Each tick consumes at most one value per model.
pub proof fn lemma_tl_step_bound(seed: u32, start: int, models: nat, k: nat)
    ensures
        tl_frame(seed, start, models, k) <= tl_frame(seed, start, models, k + 1),
        tl_frame(seed, start, models, k + 1) <= tl_frame(seed, start, models, k) + if models == 0 {
            1
        } else {
            models
        },
{
    lemma_tl_unfold(seed, start, models, k);
    lemma_tl_remain_len(seed, start, models, k);
    let rs = tl_remain(seed, start, models, k);
    lemma_draws_before_bounds(rs, rs.len() as int);
}

/// After `k` ticks the position has advanced by at most `k` values per model.
pub proof fn lemma_tl_growth(seed: u32, start: int, models: nat, k: nat)
    ensures
        start <= tl_frame(seed, start, models, k),
        tl_frame(seed, start, models, k) <= start + k * (if models == 0 { 1 } else { models }),
    decreases k,
{
    if k > 0 {
        let mm: int = if models == 0 { 1 } else { models as int };
        lemma_tl_growth(seed, start, models, (k - 1) as nat);
        lemma_tl_step_bound(seed, start, models, (k - 1) as nat);
        assert((k - 1) * mm + mm == k * mm) by (nonlinear_arith);
    }
}

/// The positions `advance_timeline` reaches: the start itself after no
/// tick, never before the start nor more than one value per model per tick
/// after it, and never going back as the ticks grow.
pub proof fn lemma_advance_bounds_and_order(seed: u32, start: int, models: nat, j: nat, k: nat)
    requires
        models > 0,
        j <= k,
    ensures
        tl_frame(seed, start, models, 0) == start,
        start <= tl_frame(seed, start, models, k) <= start + k * models,
        tl_frame(seed, start, models, j) <= tl_frame(seed, start, models, k),
{
    lemma_tl_growth(seed, start, models, 0);
    lemma_tl_growth(seed, start, models, k);
    lemma_tl_monotone(seed, start, models, j, k);
}

/// A target at the start position is reached exactly at tick 0, with the
/// start as both surrounding positions.
pub proof fn lemma_target_at_start(seed: u32, start: int, models: nat, r: Option<TimelineTarget>)
    requires
        0 <= start <= i64::MAX,
        models > 0,
        spec_timeline_target(seed, start, start, models, r),
    ensures
        r == Some(TimelineTarget { exact_tick: Some(0), timeline_tick: 0, frame_before: start as i64, frame_after: start as i64 }),
{
    lemma_tl_growth(seed, start, models, 0);
    assert(hits_at(seed, start, models, start, 0));
    assert(first_hit(seed, start, models, start, 0));
}

/// The SFMT position after advancing `ticks` steps from `start`, or `None`
/// for invalid input or when the position overflows.
pub fn advance_timeline(seed: u32, start: i64, models: usize, ticks: i64) -> (r: Option<i64>)
    requires
        models <= max_models(),
    ensures
        (start < 0 || ticks < 0 || models == 0) ==> r is None,
        !(start < 0 || ticks < 0 || models == 0) ==> {
            let f = tl_frame(seed, start as int, models as nat, ticks as nat);
            &&& f <= i64::MAX ==> r == Some(f as i64)
            &&& f > i64::MAX ==> r is None
        },
{
    if start < 0 || ticks < 0 || models == 0 {
        return None;
    }
    let ghost m = models as nat;
    let ghost st = start as int;
    let mut sfmt = sfmt_after(seed, start as u64);
    let mut status = ModelStatus::new(models);
    let mut frame = start;
    let mut i: i64 = 0;
    assert(status.remain@ =~= tl_remain(seed, st, m, 0));
    while i < ticks
        invariant
            0 <= i <= ticks,
            st == start as int,
            st >= 0,
            m == models as nat,
            models > 0,
            models as int <= max_models(),
            frame == tl_frame(seed, st, m, i as nat),
            st <= frame,
            status.remain@ == tl_remain(seed, st, m, i as nat),
            status.remain@.len() == models,
            sfmt@ == seeded(seed).skip64(frame as nat),
            sfmt.wf(),
        decreases ticks - i,
    {
        let ghost rs = status.remain@;
        let (used, _) = status.next_state(&mut sfmt);
        proof {
            lemma_tl_unfold(seed, st, m, i as nat);
            lemma_values64_shift(seed, frame as nat, used as nat);
            lemma_skip64_add(seeded(seed), frame as nat, used as nat);
            lemma_draws_before_bounds(rs, rs.len() as int);
            lemma_tl_remain_len(seed, st, m, (i + 1) as nat);
            lemma_tl_growth(seed, st, m, (i + 1) as nat);
        }
        match frame.checked_add(used as i64) {
            None => {
                proof {
                    lemma_tl_monotone(seed, st, m, (i + 1) as nat, ticks as nat);
                }
                return None;
            },
            Some(f) => {
                frame = f;
            },
        }
        i = i + 1;
    }
    Some(frame)
}

/// The largest tick below the limit whose start position is `target`.
pub open spec fn last_landing(seed: u32, start: int, models: nat, target: int, k: int) -> bool {
    &&& 0 <= k < MAX_TIMELINE_TICKS
    &&& tl_frame(seed, start, models, k as nat) == target
    &&& forall|j: int| k < j < MAX_TIMELINE_TICKS ==> #[trigger] tl_frame(seed, start, models, j as nat) != target
}

/// Blink completion positions observed during the first `k` ticks: the end
/// position of every tick in which some model completed a blink.
pub open spec fn blink_frames_upto(seed: u32, start: int, models: nat, k: nat) -> Seq<int>
    decreases k,
{
    if k == 0 {
        Seq::empty()
    } else {
        let prev = blink_frames_upto(seed, start, models, (k - 1) as nat);
        if status_blinks(tl_remain(seed, start, models, (k - 1) as nat)).len() > 0 {
            prev.push(tl_frame(seed, start, models, k))
        } else {
            prev
        }
    }
}

/// Number of ticks a simulation up to `target` runs: it stops once the
/// position passes `target` or at the tick limit.
pub open spec fn simulation_ticks(seed: u32, start: int, models: nat, target: int, k: int) -> bool {
    &&& 0 <= k <= MAX_TIMELINE_TICKS
    &&& forall|j: int| 0 <= j < k ==> #[trigger] tl_frame(seed, start, models, j as nat) <= target
    &&& k < MAX_TIMELINE_TICKS ==> tl_frame(seed, start, models, k as nat) > target
}

/// A simulated production timeline.
#[derive(Clone)]
pub struct Timeline {
    pub start: i64,
    pub blink_frames: Vec<i64>,
    pub target_tick: Option<i64>,
}

/// Simulates the timeline from `start` up to `target`, reading SFMT values
/// from `values` (which hold the outputs from absolute `values_start`).
pub(crate) fn simulate_with_stream(
    values: &[u64],
    values_start: i64,
    start: i64,
    target: i64,
    models: usize,
    Ghost(seed): Ghost<u32>,
) -> (r: Timeline)
    requires
        stream_from(values@, seed, values_start as int),
        models <= max_models(),
        0 <= values_start <= start,
        values_start + values@.len() <= i64::MAX,
        target + (if models == 0 { 1 } else { models as int }) <= values_start + values@.len(),
    ensures
        r.start == start,
        ({
            &&& (r.target_tick is None <==> forall|k: int| 0 <= k < MAX_TIMELINE_TICKS ==> #[trigger] tl_frame(seed, start as int, models as nat, k as nat) != target)
            &&& r.target_tick matches Some(k) ==> last_landing(seed, start as int, models as nat, target as int, k as int)
            &&& exists|n: int| #[trigger] simulation_ticks(seed, start as int, models as nat, target as int, n)
                && r.blink_frames@.map_values(|f: i64| f as int) == blink_frames_upto(seed, start as int, models as nat, n as nat)
        }),
{
    let ghost m = models as nat;
    let ghost st = start as int;
    let ghost mm: int = if models == 0 { 1 } else { models as int };
    let vlen = values.len();
    let mut cursor: usize = if start <= target {
        assert(start - values_start < vlen);
        (start - values_start) as usize
    } else {
        0
    };
    let mut status = ModelStatus::new(models);
    let mut frame = start;
    let mut blink_frames: Vec<i64> = Vec::new();
    let mut tick: i64 = 0;
    let mut target_tick: Option<i64> = None;
    assert(status.remain@ =~= tl_remain(seed, st, m, 0));
    proof { lemma_tl_remain_len(seed, st, m, 0); }
    while frame <= target && tick < MAX_TIMELINE_TICKS
        invariant
            stream_from(values@, seed, values_start as int),
            0 <= tick <= MAX_TIMELINE_TICKS,
            st == start as int,
            m == models as nat,
            mm == if models == 0 { 1 } else { models as int },
            models as int <= max_models(),
            0 <= values_start <= start,
            values_start + values@.len() <= i64::MAX,
            target + mm <= values_start + values@.len(),
            frame == tl_frame(seed, st, m, tick as nat),
            frame <= target ==> frame == values_start + cursor,
            status.remain@ == tl_remain(seed, st, m, tick as nat),
            status.remain@.len() == mm,
            forall|j: int| 0 <= j < tick ==> #[trigger] tl_frame(seed, st, m, j as nat) <= target,
            blink_frames@.map_values(|f: i64| f as int) == blink_frames_upto(seed, st, m, tick as nat),
            target_tick is None ==> forall|j: int| 0 <= j < tick ==> #[trigger] tl_frame(seed, st, m, j as nat) != target,
            target_tick matches Some(k) ==> 0 <= k < tick && tl_frame(seed, st, m, k as nat) == target
                && forall|j: int| k < j < tick ==> #[trigger] tl_frame(seed, st, m, j as nat) != target,
        decreases MAX_TIMELINE_TICKS - tick,
    {
        let before = frame;
        if before == target {
            target_tick = Some(tick);
        }
        let ghost rs = status.remain@;
        let ghost c0 = cursor as int;
        proof {
            lemma_draws_before_bounds(rs, rs.len() as int);
        }
        let res = status.next_state_from(values, &mut cursor);
        let (used, blink) = match res {
            Some(x) => x,
            None => {
                proof { assert(false); }
                (0, Vec::new())
            },
        };
        proof {
            lemma_tl_unfold(seed, st, m, tick as nat);
            lemma_tl_remain_len(seed, st, m, (tick + 1) as nat);
            assert(values@.subrange(c0, c0 + used) =~= tick_values(seed, frame as int, rs));
        }
        frame = frame + used as i64;
        if blink.len() > 0 {
            blink_frames.push(before + used as i64);
        }
        proof {
            assert((tick + 1 - 1) as nat == tick as nat);
            assert(blink_frames@.map_values(|f: i64| f as int) =~= blink_frames_upto(seed, st, m, (tick + 1) as nat));
        }
        tick = tick + 1;
    }
    proof {
        assert(simulation_ticks(seed, st, m, target as int, tick as int));
        if target_tick is None {
            assert forall|k: int| 0 <= k < MAX_TIMELINE_TICKS implies #[trigger] tl_frame(seed, st, m, k as nat) != target by {
                if k >= tick {
                    lemma_tl_monotone(seed, st, m, tick as nat, k as nat);
                }
            }
        } else {
            let k = target_tick->0;
            assert forall|j: int| k < j < MAX_TIMELINE_TICKS implies #[trigger] tl_frame(seed, st, m, j as nat) != target by {
                if j >= tick {
                    lemma_tl_monotone(seed, st, m, tick as nat, j as nat);
                }
            }
        }
    }
    Timeline { start, blink_frames, target_tick }
}


/// The timeline from `start` lands exactly on `target` within the tick limit.
pub open spec fn lands_on(seed: u32, start: int, target: int, models: nat) -> bool {
    &&& 0 <= start <= target
    &&& models > 0
    &&& exists|k: int| 0 <= k < MAX_TIMELINE_TICKS && #[trigger] tl_frame(seed, start, models, k as nat) == target
}

/// When the timeline passes through `target` at some tick, the first tick
/// that hits `target` lands on it exactly.
pub proof fn lemma_landing_is_first_hit(seed: u32, start: int, target: int, models: nat, k: int)
    requires
        0 <= k < MAX_TIMELINE_TICKS,
        tl_frame(seed, start, models, k as nat) == target,
    ensures
        exists|j: int| #[trigger] first_hit(seed, start, models, target, j) && tl_frame(seed, start, models, j as nat) == target,
    decreases k,
{
    if exists|j: int| 0 <= j < k && #[trigger] hits_at(seed, start, models, target, j as nat) {
        let j = choose|j: int| 0 <= j < k && #[trigger] hits_at(seed, start, models, target, j as nat);
        if tl_frame(seed, start, models, j as nat) == target {
            lemma_landing_is_first_hit(seed, start, target, models, j);
        } else {
            lemma_tl_monotone(seed, start, models, (j + 1) as nat, k as nat);
            assert(false);
        }
    } else {
        assert(first_hit(seed, start, models, target, k));
    }
}

/// The answer of `timeline_target` has an exact tick exactly when the
/// timeline lands on the target.
pub proof fn lemma_exact_iff_lands(seed: u32, start: int, target: int, models: nat, r: Option<TimelineTarget>)
    requires
        spec_timeline_target(seed, start, target, models, r),
    ensures
        (r matches Some(t) && t.exact_tick is Some) <==> lands_on(seed, start, target, models),
{
    if start < 0 || target < start || models == 0 {
    } else {
        if lands_on(seed, start, target, models) {
            let k = choose|k: int| 0 <= k < MAX_TIMELINE_TICKS && #[trigger] tl_frame(seed, start, models, k as nat) == target;
            lemma_landing_is_first_hit(seed, start, target, models, k);
        }
        if r matches Some(t) && t.exact_tick is Some {
            if forall|k: int| !#[trigger] first_hit(seed, start, models, target, k) {
            } else {
                let k = choose|k: int| #[trigger] first_hit(seed, start, models, target, k);
                assert(tl_frame(seed, start, models, k as nat) == target);
            }
        }
    }
}

/// What a target lookup reports has one of two shapes: an exact landing,
/// where the tick is the landing tick and the positions before and after are
/// both the target, or a crossing, reported at the end of the step that
/// jumps from below the target to beyond it.
pub proof fn lemma_target_shape(seed: u32, start: i64, target: i64, models: nat, r: Option<TimelineTarget>)
    requires
        spec_timeline_target(seed, start as int, target as int, models, r),
        r is Some,
    ensures
        ({
            let t = r->0;
            &&& t.exact_tick matches Some(k) ==> {
                &&& t.timeline_tick == k
                &&& t.frame_before == target
                &&& t.frame_after == target
                &&& tl_frame(seed, start as int, models, k as nat) == target
            }
            &&& t.exact_tick is None ==> {
                &&& t.timeline_tick >= 1
                &&& t.frame_before < target < t.frame_after
                &&& t.frame_before == tl_frame(seed, start as int, models, (t.timeline_tick - 1) as nat)
                &&& t.frame_after == tl_frame(seed, start as int, models, t.timeline_tick as nat)
            }
        }),
{
    let k = choose|k: int| #[trigger] first_hit(seed, start as int, models, target as int, k);
    assert(r == target_result_at(seed, start as int, models, target as int, k));
    lemma_tl_monotone(seed, start as int, models, 0, k as nat);
    lemma_tl_unfold(seed, start as int, models, 0);
}

/// Without a fixed tick count, the batched reachability scan answers for each
/// start what one simulation of the production timeline from that start
/// answers: reachable exactly when the timeline lands on the target.
pub proof fn lemma_batched_reachability_is_landing(seed: u32, start: int, target: int, models: nat)
    ensures
        start_reaches(seed, start, target, models, None) == lands_on(seed, start, target, models),
{
}

/// Whether the production timeline from `start` lands exactly on `target`;
/// stepping over it does not count.
pub fn reaches_exactly(seed: u32, start: i64, target: i64, models: usize) -> (r: bool)
    requires
        models <= max_models(),
    ensures
        r == lands_on(seed, start as int, target as int, models as nat),
{
    let t = timeline_target(seed, start, target, models);
    proof {
        lemma_exact_iff_lands(seed, start as int, target as int, models as nat, t);
    }
    match t {
        Some(timing) => timing.exact_tick.is_some(),
        None => false,
    }
}

/// Result of the production section after hatching.
#[derive(Clone, Copy)]
pub struct ProductionTimeline {
    pub target: i64,
    pub target_tick: Option<i64>,
}

/// The production timeline from the observed end of the hatch animation:
/// the tick at which it lands exactly on `target`, if any.
pub fn production_timeline(seed: u32, start: i64, target: i64, models: usize) -> (r: ProductionTimeline)
    requires
        models <= max_models(),
    ensures
        r.target == target,
        r.target_tick is Some <==> lands_on(seed, start as int, target as int, models as nat),
        r.target_tick matches Some(k) ==> first_hit(seed, start as int, models as nat, target as int, k as int)
            && tl_frame(seed, start as int, models as nat, k as nat) == target,
{
    let t = timeline_target(seed, start, target, models);
    proof {
        lemma_exact_iff_lands(seed, start as int, target as int, models as nat, t);
        if t matches Some(tt) && tt.exact_tick is Some {
            let k = choose|k: int| #[trigger] first_hit(seed, start as int, models as nat, target as int, k);
            assert(first_hit(seed, start as int, models as nat, target as int, k));
        }
    }
    let target_tick = match t {
        Some(timing) => timing.exact_tick,
        None => None,
    };
    ProductionTimeline { target, target_tick }
}

/// Like `advance_timeline`, reading SFMT values from `values` (the outputs
/// from absolute `values_start`).
pub(crate) fn advance_timeline_with_stream(
    values: &[u64],
    values_start: i64,
    start: i64,
    models: usize,
    ticks: i64,
    Ghost(seed): Ghost<u32>,
) -> (r: Option<i64>)
    requires
        stream_from(values@, seed, values_start as int),
        models <= max_models(),
        values_start + values@.len() <= i64::MAX,
        start + ticks * (if models == 0 { 1 } else { models as int }) <= values_start + values@.len(),
    ensures
        (start < 0 || ticks < 0 || models == 0 || start < values_start) ==> r is None,
        !(start < 0 || ticks < 0 || models == 0 || start < values_start) ==> r == Some(
            tl_frame(seed, start as int, models as nat, ticks as nat) as i64,
        ),
{
    if start < 0 || ticks < 0 || models == 0 || start < values_start {
        return None;
    }
    let ghost m = models as nat;
    let ghost st = start as int;
    let vlen = values.len();
    proof {
        lemma_tl_growth(seed, st, m, ticks as nat);
    }
    assert(start - values_start <= vlen) by (nonlinear_arith)
        requires
            start + ticks * (models as int) <= values_start + vlen,
            ticks >= 0,
            models >= 1;
    let mut cursor: usize = (start - values_start) as usize;
    let mut status = ModelStatus::new(models);
    let mut frame = start;
    let mut i: i64 = 0;
    assert(status.remain@ =~= tl_remain(seed, st, m, 0));
    while i < ticks
        invariant
            stream_from(values@, seed, values_start as int),
            0 <= i <= ticks,
            st == start as int,
            0 <= values_start <= st,
            m == models as nat,
            models > 0,
            models as int <= max_models(),
            values_start + values@.len() <= i64::MAX,
            tl_frame(seed, st, m, ticks as nat) <= st + ticks * (models as int),
            st + ticks * (models as int) <= values_start + values@.len(),
            frame == tl_frame(seed, st, m, i as nat),
            frame == values_start + cursor,
            status.remain@ == tl_remain(seed, st, m, i as nat),
            status.remain@.len() == models,
        decreases ticks - i,
    {
        let ghost rs = status.remain@;
        let ghost c0 = cursor as int;
        proof {
            lemma_draws_before_bounds(rs, rs.len() as int);
            lemma_tl_unfold(seed, st, m, i as nat);
            lemma_tl_monotone(seed, st, m, (i + 1) as nat, ticks as nat);
            lemma_tl_remain_len(seed, st, m, (i + 1) as nat);
        }
        let res = status.next_state_from(values, &mut cursor);
        let used = match res {
            Some((u, _)) => u,
            None => {
                proof { assert(false); }
                0
            },
        };
        proof {
            assert(values@.subrange(c0, c0 + used) =~= tick_values(seed, frame as int, rs));
        }
        frame = frame + used as i64;
        i = i + 1;
    }
    Some(frame)
}

/// Whether the timeline from `start` reaches `target`: for a fastest-close
/// run (`Some(ticks)`), the position after exactly `ticks` steps must equal
/// `target`; otherwise the timeline must land on `target`.
pub open spec fn start_reaches(seed: u32, start: int, target: int, models: nat, fastest_ticks: Option<i64>) -> bool {
    match fastest_ticks {
        Some(t) => start >= 0 && t >= 0 && models > 0 && tl_frame(seed, start, models, t as nat) == target,
        None => lands_on(seed, start, target, models),
    }
}

/// Number of extra values read beyond the last position for a batched
/// reachability scan.
pub open spec fn reachability_extra(models: int, fastest_ticks: Option<i64>) -> int {
    let t: int = match fastest_ticks {
        Some(t) => if t < 1 { 1 } else { t as int },
        None => 1,
    };
    t * models + 8
}

/// Reachability of `target` from every start in `range_start..=range_end`,
/// computed from one shared SFMT stream.
pub fn target_reachability_range(
    seed: u32,
    range_start: i64,
    range_end: i64,
    target: i64,
    models: usize,
    fastest_ticks: Option<i64>,
) -> (r: Vec<(i64, bool)>)
    requires
        models <= max_models(),
        (range_start <= range_end && range_start >= 0 && models > 0) ==> {
            let last = if range_end > target { range_end as int } else { target as int };
            &&& (last - range_start) + reachability_extra(models as int, fastest_ticks) + 1 <= isize::MAX as int / 8
            &&& last + reachability_extra(models as int, fastest_ticks) + 1 <= i64::MAX
            &&& range_start <= usize::MAX
        },
    ensures
        (range_start > range_end || range_start < 0 || models == 0) ==> r@.len() == 0,
        !(range_start > range_end || range_start < 0 || models == 0) ==> {
            &&& r@.len() == range_end - range_start + 1
            &&& forall|i: int| 0 <= i < r@.len() ==> #[trigger] r@[i] == (
                (range_start + i) as i64,
                start_reaches(seed, range_start + i, target as int, models as nat, fastest_ticks),
            )
        },
{
    let mut out: Vec<(i64, bool)> = Vec::new();
    if range_start > range_end || range_start < 0 || models == 0 {
        return out;
    }
    let t1: i64 = match fastest_ticks {
        Some(t) => if t < 1 { 1 } else { t },
        None => 1,
    };
    let ghost last_i: int = if range_end > target { range_end as int } else { target as int };
    assert(t1 * (models as int) + 8 <= isize::MAX as int / 8) by (nonlinear_arith)
        requires
            (last_i - range_start) + t1 * (models as int) + 8 + 1 <= isize::MAX as int / 8,
            last_i >= range_start;
    assert(t1 * (models as int) >= 0) by (nonlinear_arith)
        requires t1 >= 1;
    let extra: usize = (t1 * models as i64 + 8) as usize;
    let last: i64 = if range_end > target { range_end } else { target };
    let span: usize = (last - range_start) as usize;
    let count: usize = span + extra + 1;
    let values = generate_u64_values_from(seed, range_start as usize, count);
    let mut s = range_start;
    while s <= range_end
        invariant
            range_start <= s <= range_end + 1,
            range_start >= 0,
            models > 0,
            models <= max_models(),
            last == last_i,
            range_end <= last,
            target <= last,
            t1 >= 1,
            extra == t1 * (models as int) + 8,
            count == (last - range_start) + extra + 1,
            count <= isize::MAX as int / 8,
            range_start + count <= i64::MAX,
            values@.len() == count,
            stream_from(values@, seed, range_start as int),
            fastest_ticks matches Some(t) ==> t1 == (if t < 1 { 1 } else { t }),
            fastest_ticks is None ==> t1 == 1,
            out@.len() == s - range_start,
            forall|i: int| 0 <= i < out@.len() ==> #[trigger] out@[i] == (
                (range_start + i) as i64,
                start_reaches(seed, range_start + i, target as int, models as nat, fastest_ticks),
            ),
        decreases range_end + 1 - s,
    {
        let reachable = match fastest_ticks {
            Some(ticks) => {
                if ticks < 0 {
                    false
                } else {
                    assert(s + ticks * (models as int) <= range_start + count) by (nonlinear_arith)
                        requires
                            s <= last,
                            ticks <= t1,
                            ticks >= 0,
                            models >= 1,
                            count == (last - range_start) + t1 * (models as int) + 8 + 1;
                    let r = advance_timeline_with_stream(values.as_slice(), range_start, s, models, ticks, Ghost(seed));
                    proof {
                        lemma_tl_growth(seed, s as int, models as nat, ticks as nat);
                    }
                    match r {
                        Some(f) => f == target,
                        None => false,
                    }
                }
            },
            None => {
                assert(target + (models as int) <= range_start + count) by (nonlinear_arith)
                    requires
                        target <= last,
                        t1 == 1,
                        count == (last - range_start) + t1 * (models as int) + 8 + 1;
                let tl = simulate_with_stream(values.as_slice(), range_start, s, target, models, Ghost(seed));
                tl.target_tick.is_some()
            },
        };
        proof {
            if fastest_ticks is None && s > target {
                assert forall|k: int| 0 <= k < MAX_TIMELINE_TICKS implies #[trigger] tl_frame(
                    seed,
                    s as int,
                    models as nat,
                    k as nat,
                ) != target by {
                    lemma_tl_growth(seed, s as int, models as nat, k as nat);
                }
            }
        }
        assert(reachable == start_reaches(seed, s as int, target as int, models as nat, fastest_ticks));
        out.push((s, reachable));
        s = s + 1;
    }
    out
}


/// `tl` is the simulation of the timeline of `seed` from `start` up to
/// `target`.
pub open spec fn simulated(seed: u32, start: i64, target: i64, models: nat, tl: Timeline) -> bool {
    &&& tl.start == start
    &&& (tl.target_tick is None <==> forall|k: int| 0 <= k < MAX_TIMELINE_TICKS ==> #[trigger] tl_frame(seed, start as int, models, k as nat) != target)
    &&& tl.target_tick matches Some(k) ==> last_landing(seed, start as int, models, target as int, k as int)
    &&& exists|n: int| #[trigger] simulation_ticks(seed, start as int, models, target as int, n)
        && tl.blink_frames@.map_values(|f: i64| f as int) == blink_frames_upto(seed, start as int, models, n as nat)
}

/// Simulates the timeline of `seed` from `start` up to `target`.
pub fn simulate(seed: u32, start: i64, target: i64, models: usize) -> (r: Timeline)
    requires
        start >= 0,
        models <= max_models(),
        (if start > target { start as int } else { target as int }) + models + 2 <= isize::MAX as int / 8,
    ensures
        simulated(seed, start, target, models as nat, r),
{
    let last = if start > target { start } else { target };
    let count = last as usize + models + 1;
    let values = generate_u64_values(seed, count);
    simulate_with_stream(values.as_slice(), 0, start, target, models, Ghost(seed))
}

/// Simulations of the timeline of `seed` up to `target` from every start in
/// `range_start..=range_end`, sharing one SFMT stream.
pub fn search(seed: u32, range_start: i64, range_end: i64, target: i64, models: usize) -> (r: Vec<Timeline>)
    requires
        range_start >= 0,
        models <= max_models(),
        (if range_end > target { range_end as int } else { target as int }) + models + 2 <= isize::MAX as int / 8,
    ensures
        range_start > range_end ==> r@.len() == 0,
        range_start <= range_end ==> r@.len() == range_end - range_start + 1,
        forall|i: int| 0 <= i < r@.len() ==> simulated(seed, (range_start + i) as i64, target, models as nat, #[trigger] r@[i]),
{
    let mut out: Vec<Timeline> = Vec::new();
    if range_start > range_end {
        return out;
    }
    let last = if range_end > target { range_end } else { target };
    let count = last as usize + models + 1;
    let values = generate_u64_values(seed, count);
    let mut s = range_start;
    while s <= range_end
        invariant
            0 <= range_start <= s <= range_end + 1,
            models <= max_models(),
            last == (if range_end > target { range_end } else { target }),
            last + models + 2 <= isize::MAX as int / 8,
            values@.len() == count,
            count == last + models + 1,
            stream_from(values@, seed, 0),
            out@.len() == s - range_start,
            forall|i: int| 0 <= i < out@.len() ==> simulated(seed, (range_start + i) as i64, target, models as nat, #[trigger] out@[i]),
        decreases range_end + 1 - s,
    {
        let tl = simulate_with_stream(values.as_slice(), 0, s, target, models, Ghost(seed));
        out.push(tl);
        s = s + 1;
    }
    out
}

} // verus!
