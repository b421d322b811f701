//! Inferring the observed model from a measured SFMT position: a model
//! index is kept when its timeline repeats the observed intervals and then
//! ends a step exactly at the measured position.

use vstd::prelude::*;
use crate::sfmt::{sfmt_after, seeded, sfmt_u64_at, lemma_values64_shift, lemma_skip64_add};
use crate::model_status::{ModelStatus, status_blinks, lemma_draws_before_bounds};
use crate::timeline::{tl_frame, tl_remain, max_models, lemma_tl_unfold, lemma_tl_monotone, lemma_tl_remain_len};
use crate::field_scan::{window_fits, interval_fits, as_ints, window_matches};
use crate::field_target::{MAX_TARGET_TICKS, clamp_i64};
use crate::field_types::{FieldResult, FieldIdxInference};
use crate::observation::MAX_SFMT_FRAME;

verus! {

/// Ticks in `1..=k` at which the blink list of the timeline from `start`
/// holds `model`.
pub open spec fn model_blink_ticks(seed: u32, start: int, models: nat, model: u8, k: nat) -> Seq<int>
    decreases k,
{
    if k == 0 {
        Seq::empty()
    } else {
        let prev = model_blink_ticks(seed, start, models, model, (k - 1) as nat);
        if status_blinks(tl_remain(seed, start, models, (k - 1) as nat)).contains(model) {
            prev.push(k as int)
        } else {
            prev
        }
    }
}

/// The blink list of tick `t` (counted from 1) of the timeline from `start`
/// holds `model`.
pub open spec fn blinks_at_tick(seed: u32, start: int, models: nat, model: u8, t: int) -> bool {
    status_blinks(tl_remain(seed, start, models, (t - 1) as nat)).contains(model)
}

/// The listed blink ticks are exactly the ticks in `1..=k` at which `model`
/// blinks, in increasing order.
proof fn lemma_model_blink_ticks(seed: u32, start: int, models: nat, model: u8, k: nat)
    ensures
        forall|x: int|
            0 <= x < model_blink_ticks(seed, start, models, model, k).len() ==> {
                let t = #[trigger] model_blink_ticks(seed, start, models, model, k)[x];
                1 <= t <= k && blinks_at_tick(seed, start, models, model, t)
            },
        forall|x: int, y: int|
            0 <= x < y < model_blink_ticks(seed, start, models, model, k).len() ==> #[trigger] model_blink_ticks(
                seed,
                start,
                models,
                model,
                k,
            )[x] < #[trigger] model_blink_ticks(seed, start, models, model, k)[y],
        forall|t: int|
            1 <= t <= k && #[trigger] blinks_at_tick(seed, start, models, model, t) ==> model_blink_ticks(
                seed,
                start,
                models,
                model,
                k,
            ).contains(t),
    decreases k,
{
    if k > 0 {
        lemma_model_blink_ticks(seed, start, models, model, (k - 1) as nat);
        let prev = model_blink_ticks(seed, start, models, model, (k - 1) as nat);
        let e = model_blink_ticks(seed, start, models, model, k);
        assert((k - 1) as nat == (k as int - 1) as nat);
        if blinks_at_tick(seed, start, models, model, k as int) {
            assert(e == prev.push(k as int));
            assert forall|t: int| 1 <= t <= k && #[trigger] blinks_at_tick(seed, start, models, model, t) implies e.contains(t) by {
                if t < k {
                    assert(prev.contains(t));
                    let w = choose|w: int| 0 <= w < prev.len() && prev[w] == t;
                    assert(e[w] == t);
                } else {
                    assert(e[prev.len() as int] == t);
                }
            }
        } else {
            assert(e == prev);
            assert forall|t: int| 1 <= t <= k && #[trigger] blinks_at_tick(seed, start, models, model, t) implies e.contains(t) by {
                if t == k {
                } else {
                    assert(prev.contains(t));
                }
            }
        }
    }
}

/// Tick `k` of the timeline from `start` ends exactly at `actual`, and the
/// ticks `ts` (all at or before `k`) are blinks of `model`, each followed by
/// the next with no blink of `model` in between, at display-frame distances
/// (two per tick) within `tol` of the observed intervals.
pub open spec fn reach_witness(
    seed: u32,
    start: int,
    models: nat,
    model: u8,
    obs: Seq<i64>,
    tol: int,
    actual: int,
    k: int,
    ts: Seq<int>,
) -> bool {
    &&& 1 <= k <= MAX_TARGET_TICKS
    &&& clamp_i64(tl_frame(seed, start, models, k as nat)) == actual
    &&& ts.len() == obs.len() + 1
    &&& forall|x: int| 0 <= x < ts.len() ==> 1 <= #[trigger] ts[x] <= k && blinks_at_tick(seed, start, models, model, ts[x])
    &&& forall|x: int|
        0 <= x < obs.len() ==> {
            &&& #[trigger] ts[x] < ts[x + 1]
            &&& -tol <= 2 * (ts[x + 1] - ts[x]) - obs[x] <= tol
            &&& forall|t: int| ts[x] < t < ts[x + 1] ==> !#[trigger] blinks_at_tick(seed, start, models, model, t)
        }
}

/// A timeline that reaches the measured position has such a witness.
proof fn lemma_reaches_has_witness(
    seed: u32,
    start: int,
    models: nat,
    target_model: int,
    obs: Seq<i64>,
    tol: int,
    actual: int,
)
    requires
        timeline_reaches_spec(seed, start, models, target_model, obs, tol, actual),
    ensures
        exists|k: int, ts: Seq<int>| #[trigger] reach_witness(seed, start, models, target_model as u8, obs, tol, actual, k, ts),
{
    let model = target_model as u8;
    let k = choose|k: int| #[trigger] reaches_at(seed, start, models, model, obs, tol, actual, k);
    let e = model_blink_ticks(seed, start, models, model, k as nat);
    let i = choose|i: int| #[trigger] window_fits(e, i, obs, tol, 2);
    lemma_model_blink_ticks(seed, start, models, model, k as nat);
    let ts = e.subrange(i, i + obs.len() + 1);
    assert forall|x: int| 0 <= x < ts.len() implies 1 <= #[trigger] ts[x] <= k && blinks_at_tick(
        seed,
        start,
        models,
        model,
        ts[x],
    ) by {
        assert(ts[x] == e[i + x]);
    }
    assert forall|x: int|
        0 <= x < obs.len() implies {
            &&& #[trigger] ts[x] < ts[x + 1]
            &&& -tol <= 2 * (ts[x + 1] - ts[x]) - obs[x] <= tol
            &&& forall|t: int| ts[x] < t < ts[x + 1] ==> !#[trigger] blinks_at_tick(seed, start, models, model, t)
        } by {
        assert(ts[x] == e[i + x] && ts[x + 1] == e[i + x + 1]);
        assert(e[i + x] < e[i + x + 1]);
        assert(interval_fits(e, i, x, obs, tol, 2));
        assert forall|t: int| ts[x] < t < ts[x + 1] implies !#[trigger] blinks_at_tick(seed, start, models, model, t) by {
            if blinks_at_tick(seed, start, models, model, t) {
                assert(e.contains(t));
                let y = choose|y: int| 0 <= y < e.len() && e[y] == t;
                if y <= i + x {
                    if y < i + x {
                        assert(e[y] < e[i + x]);
                    }
                } else if y >= i + x + 1 {
                    if y > i + x + 1 {
                        assert(e[i + x + 1] < e[y]);
                    }
                }
            }
        }
    }
    assert(reach_witness(seed, start, models, model, obs, tol, actual, k, ts));
}

/// Some window of the blink ticks matches the observed intervals.
pub open spec fn some_window_fits(e: Seq<int>, obs: Seq<i64>, tol: int) -> bool {
    exists|i: int| #[trigger] window_fits(e, i, obs, tol, 2)
}

/// Tick `k` ends exactly at `actual` (positions saturate at the 64-bit
/// limit) after the observed intervals have been matched.
pub open spec fn reaches_at(
    seed: u32,
    start: int,
    models: nat,
    model: u8,
    obs: Seq<i64>,
    tol: int,
    actual: int,
    k: int,
) -> bool {
    &&& 1 <= k <= MAX_TARGET_TICKS
    &&& clamp_i64(tl_frame(seed, start, models, k as nat)) == actual
    &&& some_window_fits(model_blink_ticks(seed, start, models, model, k as nat), obs, tol)
}

/// The timeline of `target_model` from `start` matches the observed
/// intervals and then ends a step exactly at `actual`.
pub open spec fn timeline_reaches_spec(
    seed: u32,
    start: int,
    models: nat,
    target_model: int,
    obs: Seq<i64>,
    tol: int,
    actual: int,
) -> bool {
    &&& 0 <= start <= actual
    &&& target_model < models
    &&& exists|k: int| #[trigger] reaches_at(seed, start, models, target_model as u8, obs, tol, actual, k)
}

fn any_window_matches(ticks: &Vec<i64>, obs: &Vec<i64>, tol: i64) -> (r: bool)
    ensures
        r == some_window_fits(as_ints(ticks@), obs@, tol as int),
{
    let mut i: usize = 0;
    while i < ticks.len()
        invariant
            i <= ticks@.len(),
            forall|j: int| 0 <= j < i ==> !#[trigger] window_fits(as_ints(ticks@), j, obs@, tol as int, 2),
        decreases ticks@.len() - i,
    {
        if window_matches(ticks, i, obs, tol, 2) {
            return true;
        }
        i = i + 1;
    }
    assert forall|j: int| !#[trigger] window_fits(as_ints(ticks@), j, obs@, tol as int, 2) by {
        if j >= ticks@.len() {
        }
    }
    false
}

fn contains_u8(blink: &Vec<u8>, model: u8) -> (r: bool)
    ensures
        r == blink@.contains(model),
{
    let mut i: usize = 0;
    while i < blink.len()
        invariant
            i <= blink@.len(),
            forall|j: int| 0 <= j < i ==> blink@[j] != model,
        decreases blink@.len() - i,
    {
        if blink[i] == model {
            assert(blink@[i as int] == model);
            return true;
        }
        i = i + 1;
    }
    false
}

/// Whether the timeline of `target_model` from `start` repeats the observed
/// intervals and then ends a step exactly at `actual_frame`.
pub fn timeline_reaches_frame(
    seed: u32,
    start: i64,
    models: usize,
    target_model: usize,
    observed_intervals: &Vec<i64>,
    tolerance: i64,
    actual_frame: i64,
) -> (r: bool)
    requires
        models <= max_models(),
    ensures
        r == timeline_reaches_spec(
            seed,
            start as int,
            models as nat,
            target_model as int,
            observed_intervals@,
            tolerance as int,
            actual_frame as int,
        ),
{
    if start < 0 || actual_frame < start || target_model >= models {
        return false;
    }
    let ghost st = start as int;
    let ghost mn = models as nat;
    let model = target_model as u8;
    let mut sfmt = sfmt_after(seed, start as u64);
    let mut status = ModelStatus::new(models);
    let ghost mut frame: int = st;
    let mut consumption = start;
    let mut tick: i64 = 0;
    let mut blink_ticks: Vec<i64> = Vec::new();
    let mut matched = false;
    assert(status.remain@ =~= tl_remain(seed, st, mn, 0));
    proof {
        lemma_tl_remain_len(seed, st, mn, 0);
        assert(as_ints(blink_ticks@) =~= model_blink_ticks(seed, st, mn, model, 0));
    }
    while tick < MAX_TARGET_TICKS && consumption <= actual_frame
        invariant
            0 <= st == start <= actual_frame,
            mn == models as nat,
            1 <= models <= max_models(),
            target_model < models,
            model == target_model as u8,
            0 <= tick <= MAX_TARGET_TICKS,
            frame == tl_frame(seed, st, mn, tick as nat),
            st <= frame,
            consumption == clamp_i64(frame),
            status.remain@ == tl_remain(seed, st, mn, tick as nat),
            status.remain@.len() == models,
            sfmt@ == seeded(seed).skip64(frame as nat),
            sfmt.wf(),
            as_ints(blink_ticks@) == model_blink_ticks(seed, st, mn, model, tick as nat),
            blink_ticks@.len() <= tick,
            forall|x: int| 0 <= x < blink_ticks@.len() ==> 1 <= #[trigger] blink_ticks@[x] <= tick,
            matched == some_window_fits(as_ints(blink_ticks@), observed_intervals@, tolerance as int),
            forall|k: int| #![trigger reaches_at(seed, st, mn, model, observed_intervals@, tolerance as int, actual_frame as int, k)]
                k <= tick ==> !reaches_at(seed, st, mn, model, observed_intervals@, tolerance as int, actual_frame as int, k),
        decreases MAX_TARGET_TICKS - tick,
    {
        let ghost rs = status.remain@;
        let (used, blink) = status.next_state(&mut sfmt);
        proof {
            lemma_tl_unfold(seed, st, mn, tick as nat);
            lemma_tl_remain_len(seed, st, mn, (tick + 1) as nat);
            lemma_values64_shift(seed, frame as nat, used as nat);
            lemma_skip64_add(seeded(seed), frame as nat, used as nat);
            lemma_draws_before_bounds(rs, rs.len() as int);
            assert(status.remain@ == crate::model_status::status_next(rs, crate::timeline::tick_values(seed, frame, rs)));
            frame = frame + used;
        }
        assert(used <= models);
        consumption = match consumption.checked_add(used as i64) {
            Some(v) => v,
            None => i64::MAX,
        };
        tick = tick + 1;
        if contains_u8(&blink, model) {
            let ghost prior = blink_ticks@;
            blink_ticks.push(tick);
            proof {
                assert(as_ints(blink_ticks@) =~= as_ints(prior).push(tick as int));
            }
            matched = any_window_matches(&blink_ticks, observed_intervals, tolerance);
        }
        proof {
            assert((tick - 1) as nat + 1 == tick as nat);
        }
        if matched && actual_frame == consumption {
            assert(reaches_at(seed, st, mn, model, observed_intervals@, tolerance as int, actual_frame as int, tick as int));
            return true;
        }
        if consumption > actual_frame {
            proof {
                assert forall|k: int| #![trigger reaches_at(seed, st, mn, model, observed_intervals@, tolerance as int, actual_frame as int, k)]
                    k > tick implies !reaches_at(seed, st, mn, model, observed_intervals@, tolerance as int, actual_frame as int, k) by {
                    if 1 <= k <= MAX_TARGET_TICKS {
                        lemma_tl_monotone(seed, st, mn, tick as nat, k as nat);
                    }
                }
            }
            return false;
        }
    }
    proof {
        assert forall|k: int| #![trigger reaches_at(seed, st, mn, model, observed_intervals@, tolerance as int, actual_frame as int, k)]
            k > tick implies !reaches_at(seed, st, mn, model, observed_intervals@, tolerance as int, actual_frame as int, k) by {
            if 1 <= k <= MAX_TARGET_TICKS {
                lemma_tl_monotone(seed, st, mn, tick as nat, k as nat);
            }
        }
    }
    false
}

/// The SFMT output at `position`, for positions a cache can cover.
fn sfmt_value_in_range(seed: u32, position: i64) -> (r: Option<u64>)
    ensures
        (0 <= position <= MAX_SFMT_FRAME) ==> r == Some(sfmt_u64_at(seed, position as nat)),
        !(0 <= position <= MAX_SFMT_FRAME) ==> r is None,
{
    if position < 0 || position > MAX_SFMT_FRAME {
        return None;
    }
    crate::sfmt::sfmt_value_at(seed, position)
}

/// Start of the timeline on which model `idx` reads the value the observed
/// model read first.
pub open spec fn idx_start(r: FieldResult, idx: int) -> int {
    clamp_i64(r.start_consumption + (r.observed_model - idx))
}

/// Position of the first value model `idx` reads from `idx_start`.
pub open spec fn idx_position(r: FieldResult, idx: int) -> int {
    clamp_i64(idx_start(r, idx) + idx)
}

pub open spec fn idx_models(r: FieldResult) -> nat {
    if r.models == 0 {
        1
    } else {
        r.models as nat
    }
}

/// Model `idx` is kept: it reads the same first value and its timeline
/// reaches the measured position.
pub open spec fn idx_kept(seed: u32, r: FieldResult, tol: int, actual: int, idx: int) -> bool {
    &&& sfmt_u64_at(seed, idx_position(r, idx) as nat) == sfmt_u64_at(
        seed,
        (r.start_consumption + r.observed_model) as nat,
    )
    &&& timeline_reaches_spec(seed, idx_start(r, idx), idx_models(r), idx, r.intervals@, tol, actual)
}

pub open spec fn kept_indices(seed: u32, r: FieldResult, tol: int, actual: int, n: nat) -> Seq<usize>
    decreases n,
{
    if n == 0 {
        Seq::empty()
    } else {
        let prev = kept_indices(seed, r, tol, actual, (n - 1) as nat);
        if idx_kept(seed, r, tol, actual, n - 1) {
            prev.push((n - 1) as usize)
        } else {
            prev
        }
    }
}

/// A witness gives the consecutive blinks of a matching window: the
/// timeline reaches `actual` in the sense of `timeline_reaches_spec`.
#[verifier::spinoff_prover]
proof fn lemma_witness_reaches(
    seed: u32,
    start: int,
    models: nat,
    target_model: int,
    obs: Seq<i64>,
    tol: int,
    actual: int,
    k: int,
    ts: Seq<int>,
)
    requires
        0 <= start <= actual,
        0 <= target_model < models,
        reach_witness(seed, start, models, target_model as u8, obs, tol, actual, k, ts),
    ensures
        timeline_reaches_spec(seed, start, models, target_model, obs, tol, actual),
{
    let model = target_model as u8;
    let e = model_blink_ticks(seed, start, models, model, k as nat);
    assert(e.contains(ts[0])) by {
        lemma_model_blink_ticks(seed, start, models, model, k as nat);
        assert(1 <= ts[0] <= k && blinks_at_tick(seed, start, models, model, ts[0]));
    }
    let i = choose|i: int| 0 <= i < e.len() && e[i] == ts[0];
    assert(window_fits(e, i, obs, tol, 2)) by {
        lemma_window_follows(seed, start, models, model, obs, tol, actual, k, ts, i, obs.len() as int);
        assert forall|j: int| 0 <= j < obs.len() implies #[trigger] interval_fits(e, i, j, obs, tol, 2) by {
            lemma_window_follows(seed, start, models, model, obs, tol, actual, k, ts, i, j);
            lemma_window_follows(seed, start, models, model, obs, tol, actual, k, ts, i, j + 1);
            assert(e[i + j + 1] == e[i + (j + 1)]);
            assert(ts[j] < ts[j + 1]);
            assert(-tol <= 2 * (ts[j + 1] - ts[j]) - obs[j] <= tol);
        }
    }
    assert(reaches_at(seed, start, models, model, obs, tol, actual, k));
}

proof fn lemma_window_follows(
    seed: u32,
    start: int,
    models: nat,
    model: u8,
    obs: Seq<i64>,
    tol: int,
    actual: int,
    k: int,
    ts: Seq<int>,
    i: int,
    x: int,
)
    requires
        reach_witness(seed, start, models, model, obs, tol, actual, k, ts),
        0 <= i < model_blink_ticks(seed, start, models, model, k as nat).len(),
        model_blink_ticks(seed, start, models, model, k as nat)[i] == ts[0],
        0 <= x < ts.len(),
    ensures
        i + x < model_blink_ticks(seed, start, models, model, k as nat).len(),
        model_blink_ticks(seed, start, models, model, k as nat)[i + x] == ts[x],
    decreases x,
{
    let e = model_blink_ticks(seed, start, models, model, k as nat);
    lemma_model_blink_ticks(seed, start, models, model, k as nat);
    if x > 0 {
        lemma_window_follows(seed, start, models, model, obs, tol, actual, k, ts, i, x - 1);
        let p = x - 1;
        assert(ts[p] < ts[p + 1]);
        assert(1 <= ts[x] <= k && blinks_at_tick(seed, start, models, model, ts[x]));
        assert(e.contains(ts[x]));
        let y = choose|y: int| 0 <= y < e.len() && e[y] == ts[x];
        if y <= i + p {
            if y < i + p {
                assert(e[y] < e[i + p]);
            }
        }
        assert(y > i + p);
        assert(i + x < e.len());
        let z = e[i + x];
        assert(1 <= z <= k && blinks_at_tick(seed, start, models, model, z));
        if y > i + x {
            assert(e[i + x] < e[y]);
        }
        assert(z <= ts[x]);
        if z < ts[x] {
            assert(e[i + p] < e[i + x]);
            assert(ts[p] < z < ts[p + 1]);
            assert(!blinks_at_tick(seed, start, models, model, z));
        }
    }
}

/// A model kept among the first `n` stays kept among more.
proof fn lemma_kept_indices_grow(seed: u32, r: FieldResult, tol: int, actual: int, n: nat, idx: int)
    requires
        0 <= idx < n,
        idx_kept(seed, r, tol, actual, idx),
    ensures
        kept_indices(seed, r, tol, actual, n).contains(idx as usize),
    decreases n,
{
    let prev = kept_indices(seed, r, tol, actual, (n - 1) as nat);
    if idx < n - 1 {
        lemma_kept_indices_grow(seed, r, tol, actual, (n - 1) as nat, idx);
        let w = choose|w: int| 0 <= w < prev.len() && prev[w] == idx as usize;
        if idx_kept(seed, r, tol, actual, n - 1) {
            assert(kept_indices(seed, r, tol, actual, n)[w] == idx as usize);
        }
    } else {
        assert(kept_indices(seed, r, tol, actual, n) == prev.push(idx as usize));
        assert(kept_indices(seed, r, tol, actual, n)[prev.len() as int] == idx as usize);
    }
}

/// Every model index among the first `n` that reads first the value the
/// observed model read first, and whose timeline (from `idx_start`, with the
/// result's model count) repeats the observed intervals within `tol` and then
/// ends a step exactly at `actual`, is kept.
pub proof fn lemma_reaching_index_is_kept(
    seed: u32,
    r: FieldResult,
    tol: int,
    actual: int,
    n: nat,
    idx: int,
    k: int,
    ts: Seq<int>,
)
    requires
        0 <= idx < n,
        idx < idx_models(r),
        0 <= idx_start(r, idx) <= actual,
        sfmt_u64_at(seed, idx_position(r, idx) as nat) == sfmt_u64_at(
            seed,
            (r.start_consumption + r.observed_model) as nat,
        ),
        reach_witness(seed, idx_start(r, idx), idx_models(r), idx as u8, r.intervals@, tol, actual, k, ts),
    ensures
        kept_indices(seed, r, tol, actual, n).contains(idx as usize),
{
    lemma_witness_reaches(seed, idx_start(r, idx), idx_models(r), idx, r.intervals@, tol, actual, k, ts);
    lemma_kept_indices_grow(seed, r, tol, actual, n, idx);
}

/// Every model index kept for a measured position `actual` has a timeline,
/// from `idx_start` (`start_consumption + observed_model - idx`) with the
/// result's model count (`idx_models`), whose blinks of that model repeat the observed intervals within
/// `tol` and which then ends a step exactly at `actual`; and on that timeline
/// the model reads first the value the observed model read first. An index
/// whose timeline does not reach `actual` is never kept.
pub proof fn lemma_inferred_index_reaches(seed: u32, r: FieldResult, tol: int, actual: int, n: nat, idx: usize)
    requires
        kept_indices(seed, r, tol, actual, n).contains(idx),
    ensures
        idx < n,
        0 <= idx_start(r, idx as int) <= actual,
        idx < idx_models(r),
        sfmt_u64_at(seed, idx_position(r, idx as int) as nat) == sfmt_u64_at(
            seed,
            (r.start_consumption + r.observed_model) as nat,
        ),
        exists|k: int, ts: Seq<int>| #[trigger] reach_witness(
            seed,
            idx_start(r, idx as int),
            idx_models(r),
            idx as u8,
            r.intervals@,
            tol,
            actual,
            k,
            ts,
        ),
    decreases n,
{
    if n > 0 {
        let prev = kept_indices(seed, r, tol, actual, (n - 1) as nat);
        if prev.contains(idx) {
            lemma_inferred_index_reaches(seed, r, tol, actual, (n - 1) as nat, idx);
        } else {
            assert(idx_kept(seed, r, tol, actual, n - 1));
            assert(kept_indices(seed, r, tol, actual, n) == prev.push((n - 1) as usize));
            assert(idx == n - 1) by {
                let full = prev.push((n - 1) as usize);
                let w = choose|w: int| 0 <= w < full.len() && #[trigger] full[w] == idx;
                if w < prev.len() {
                    assert(prev[w] == idx);
                }
            }
            lemma_reaches_has_witness(
                seed,
                idx_start(r, idx as int),
                idx_models(r),
                idx as int,
                r.intervals@,
                tol,
                actual,
            );
        }
    }
}

pub open spec fn idx_positions_in_range(r: FieldResult) -> bool {
    forall|idx: int| 0 <= idx < idx_models(r) ==> 0 <= #[trigger] idx_position(r, idx) <= MAX_SFMT_FRAME
}

/// The model indices whose timelines can explain the measured position.
/// Refused for a negative position and for starts outside the cache range.
pub fn infer_idx_from_result(seed: u32, result: &FieldResult, tolerance: i64, actual_frame: i64) -> (r: Result<
    FieldIdxInference,
    String,
>)
    requires
        result.models <= max_models(),
        result.observed_model <= i64::MAX / 2,
    ensures
        actual_frame < 0 ==> r is Err && r->Err_0@ == "実際に出たFrameは0以上で入力してください。"@,
        actual_frame >= 0 && result.start_consumption + result.observed_model > i64::MAX ==> r is Err
            && r->Err_0@ == "Timelineの開始位置が大きすぎます。"@,
        actual_frame >= 0 && result.start_consumption + result.observed_model <= i64::MAX ==> {
            let anchor = result.start_consumption + result.observed_model;
            if 0 <= anchor <= MAX_SFMT_FRAME && idx_positions_in_range(*result) {
                r is Ok && r->Ok_0.indices@ == kept_indices(
                    seed,
                    *result,
                    tolerance as int,
                    actual_frame as int,
                    idx_models(*result),
                ) && r->Ok_0.results@.len() == 0 && r->Ok_0.suggested_offset is None && forall|x: int|
                    0 <= x < r->Ok_0.indices@.len() ==> {
                        let idx = #[trigger] r->Ok_0.indices@[x];
                        &&& 0 <= idx_start(*result, idx as int) <= actual_frame
                        &&& idx < idx_models(*result)
                        &&& exists|k: int, ts: Seq<int>| #[trigger] reach_witness(
                            seed,
                            idx_start(*result, idx as int),
                            idx_models(*result),
                            idx as u8,
                            result.intervals@,
                            tolerance as int,
                            actual_frame as int,
                            k,
                            ts,
                        )
                    } && forall|idx: int, k: int, ts: Seq<int>|
                    0 <= idx < idx_models(*result) && 0 <= idx_start(*result, idx) <= actual_frame && sfmt_u64_at(
                        seed,
                        idx_position(*result, idx) as nat,
                    ) == sfmt_u64_at(seed, anchor as nat) && #[trigger] reach_witness(
                        seed,
                        idx_start(*result, idx),
                        idx_models(*result),
                        idx as u8,
                        result.intervals@,
                        tolerance as int,
                        actual_frame as int,
                        k,
                        ts,
                    ) ==> r->Ok_0.indices@.contains(idx as usize)
            } else {
                r is Err && r->Err_0@ == "Timelineの開始位置が範囲外です。"@
            }
        },
{
    if actual_frame < 0 {
        return Err("実際に出たFrameは0以上で入力してください。".to_owned());
    }
    let models: usize = if result.models == 0 {
        1
    } else {
        result.models
    };
    let anchor_model = result.observed_model as i64;
    let anchor_position = match result.start_consumption.checked_add(anchor_model) {
        Some(p) => p,
        None => return Err("Timelineの開始位置が大きすぎます。".to_owned()),
    };
    let anchor_value = match sfmt_value_in_range(seed, anchor_position) {
        Some(v) => v,
        None => return Err("Timelineの開始位置が範囲外です。".to_owned()),
    };
    let mut indices: Vec<usize> = Vec::new();
    let mut idx: usize = 0;
    while idx < models
        invariant
            models as nat == idx_models(*result),
            models <= max_models(),
            anchor_model == result.observed_model as int,
            anchor_position == result.start_consumption + result.observed_model,
            0 <= anchor_position <= MAX_SFMT_FRAME,
            anchor_value == sfmt_u64_at(seed, anchor_position as nat),
            idx <= models,
            forall|j: int| 0 <= j < idx ==> 0 <= #[trigger] idx_position(*result, j) <= MAX_SFMT_FRAME,
            indices@ == kept_indices(seed, *result, tolerance as int, actual_frame as int, idx as nat),
        decreases models - idx,
    {
        let delta = anchor_model - idx as i64;
        let candidate_start = match result.start_consumption.checked_add(delta) {
            Some(v) => v,
            None => if delta > 0 {
                i64::MAX
            } else {
                i64::MIN
            },
        };
        let position = match candidate_start.checked_add(idx as i64) {
            Some(v) => v,
            None => if idx > 0 {
                i64::MAX
            } else {
                i64::MIN
            },
        };
        assert(candidate_start == idx_start(*result, idx as int));
        assert(position == idx_position(*result, idx as int));
        let value = match sfmt_value_in_range(seed, position) {
            Some(v) => v,
            None => return Err("Timelineの開始位置が範囲外です。".to_owned()),
        };
        if value == anchor_value && timeline_reaches_frame(
            seed,
            candidate_start,
            models,
            idx,
            &result.intervals,
            tolerance,
            actual_frame,
        ) {
            indices.push(idx);
        }
        idx = idx + 1;
    }
    proof {
        assert forall|x: int| 0 <= x < indices@.len() implies {
            let idx = #[trigger] indices@[x];
            &&& 0 <= idx_start(*result, idx as int) <= actual_frame
            &&& idx < idx_models(*result)
            &&& exists|k: int, ts: Seq<int>| #[trigger] reach_witness(
                seed,
                idx_start(*result, idx as int),
                idx_models(*result),
                idx as u8,
                result.intervals@,
                tolerance as int,
                actual_frame as int,
                k,
                ts,
            )
        } by {
            assert(indices@.contains(indices@[x]));
            lemma_inferred_index_reaches(
                seed,
                *result,
                tolerance as int,
                actual_frame as int,
                idx_models(*result),
                indices@[x],
            );
        }
    }
    proof {
        assert forall|idx: int, k: int, ts: Seq<int>|
            0 <= idx < idx_models(*result) && 0 <= idx_start(*result, idx) <= actual_frame && sfmt_u64_at(
                seed,
                idx_position(*result, idx) as nat,
            ) == sfmt_u64_at(seed, anchor_position as nat) && #[trigger] reach_witness(
                seed,
                idx_start(*result, idx),
                idx_models(*result),
                idx as u8,
                result.intervals@,
                tolerance as int,
                actual_frame as int,
                k,
                ts,
            ) implies indices@.contains(idx as usize) by {
            lemma_reaching_index_is_kept(
                seed,
                *result,
                tolerance as int,
                actual_frame as int,
                idx_models(*result),
                idx,
                k,
                ts,
            );
        }
    }
    Ok(FieldIdxInference { indices, results: Vec::new(), suggested_offset: None })
}

} // verus!
