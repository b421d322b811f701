//! Matching observed blink intervals against the timeline of one candidate
//! start, and building the candidate's result.
//!
//! A candidate start `s` runs the model counters from `s`; tick `k` ends at
//! `tl_frame(seed, s, models, k)`. The scan records, for every model, the
//! ticks at which it completes a blink while the position stays within the
//! search window; observed intervals are compared with consecutive blinks
//! in display frames (two per tick).

use vstd::prelude::*;
use crate::sfmt::stream_from;
use crate::model_status::{ModelStatus, status_used, status_next, status_blinks, model_blinks, lemma_draws_before_bounds};
use crate::timeline::{tl_frame, tl_remain, tick_values, lemma_tl_unfold, lemma_tl_remain_len, lemma_tl_monotone, lemma_tl_growth};
use crate::field_types::{FieldResult, FieldTimelineRow, TimelineCursor};

verus! {

/// Ticks one observation scan, or one continuation, may run.
pub const MAX_WAIT_TICKS: i64 = 5_000;

/// Matching windows kept per start position and model.
pub const MAX_MATCHING_WINDOWS_PER_START: usize = 64;

/// Future blinks materialized after the observed ones.
pub const MAX_CANDIDATE_TIMELINE_EVENTS: usize = 64;

/// Model `m` completes a blink during tick `k`.
pub open spec fn blinks_at(seed: u32, start: int, models: nat, m: int, k: int) -> bool {
    k >= 1 && model_blinks(tl_remain(seed, start, models, (k - 1) as nat), m)
}

/// (tick, model) of every blink during ticks `1..=n` whose tick ends at or
/// before position `lim`, in tick order and, within a tick, model order.
pub open spec fn blink_log(seed: u32, start: int, models: nat, lim: int, n: nat) -> Seq<(int, int)>
    decreases n,
{
    if n == 0 {
        Seq::empty()
    } else {
        let prev = blink_log(seed, start, models, lim, (n - 1) as nat);
        if tl_frame(seed, start, models, n) <= lim {
            prev + status_blinks(tl_remain(seed, start, models, (n - 1) as nat)).map_values(
                |b: u8| (n as int, b as int),
            )
        } else {
            prev
        }
    }
}

/// Ticks of the entries of `log` that belong to model `m`.
pub open spec fn ticks_of(log: Seq<(int, int)>, m: int) -> Seq<int>
    decreases log.len(),
{
    if log.len() == 0 {
        Seq::empty()
    } else {
        let prev = ticks_of(log.drop_last(), m);
        if log.last().1 == m {
            prev.push(log.last().0)
        } else {
            prev
        }
    }
}

/// Blink ticks of model `m` seen by the scan from `start`: at most
/// `n_ticks` ticks, each ending at or before `lim`.
pub open spec fn scan_ticks(seed: u32, start: int, models: nat, m: int, lim: int, n_ticks: nat) -> Seq<int> {
    ticks_of(blink_log(seed, start, models, lim, n_ticks), m)
}

/// Interval `j` of the window at `i`, in units of `unit` per tick, is within
/// `tol` of the observation.
pub open spec fn interval_fits(e: Seq<int>, i: int, j: int, obs: Seq<i64>, tol: int, unit: int) -> bool {
    let d = unit * (e[i + j + 1] - e[i + j]) - obs[j];
    -tol <= d <= tol
}

/// The `obs.len() + 1` blinks from index `i` match every observed interval.
pub open spec fn window_fits(e: Seq<int>, i: int, obs: Seq<i64>, tol: int, unit: int) -> bool {
    &&& 0 <= i
    &&& i + obs.len() < e.len()
    &&& forall|j: int| 0 <= j < obs.len() ==> #[trigger] interval_fits(e, i, j, obs, tol, unit)
}

/// Number of matching windows starting before index `n`.
pub open spec fn fit_count(e: Seq<int>, obs: Seq<i64>, tol: int, unit: int, n: nat) -> nat
    decreases n,
{
    if n == 0 {
        0
    } else {
        fit_count(e, obs, tol, unit, (n - 1) as nat) + if window_fits(e, n - 1, obs, tol, unit) {
            1nat
        } else {
            0nat
        }
    }
}

/// First tick in `k..=MAX_WAIT_TICKS` at which `m` blinks, provided the
/// values (positions below `vend`) reach it.
pub open spec fn next_blink_from(seed: u32, start: int, models: nat, m: int, vend: int, k: int) -> Option<int>
    decreases MAX_WAIT_TICKS - k,
{
    if k > MAX_WAIT_TICKS || k < 1 {
        None
    } else if tl_frame(seed, start, models, k as nat) > vend {
        None
    } else if blinks_at(seed, start, models, m, k) {
        Some(k)
    } else if k >= MAX_WAIT_TICKS {
        None
    } else {
        next_blink_from(seed, start, models, m, vend, k + 1)
    }
}

/// Continuing from tick `k` with the later blinks `found` so far: the
/// later blinks collected (up to `MAX_CANDIDATE_TIMELINE_EVENTS`) and the
/// tick where the continuation stops.
pub open spec fn continue_from(seed: u32, start: int, models: nat, m: int, vend: int, k: int, found: Seq<int>) -> (
    Seq<int>,
    int,
)
    decreases MAX_WAIT_TICKS - k,
{
    if k >= MAX_WAIT_TICKS || found.len() >= MAX_CANDIDATE_TIMELINE_EVENTS || k < 0 || tl_frame(
        seed,
        start,
        models,
        (k + 1) as nat,
    ) > vend {
        (found, k)
    } else {
        continue_from(
            seed,
            start,
            models,
            m,
            vend,
            k + 1,
            if blinks_at(seed, start, models, m, k + 1) {
                found.push(k + 1)
            } else {
                found
            },
        )
    }
}

/// Window indices of model `m` kept among the first `n`: matching, among
/// the first `MAX_MATCHING_WINDOWS_PER_START` matches, and followed by a
/// further blink.
pub open spec fn picks(
    seed: u32,
    start: int,
    models: nat,
    m: int,
    lim: int,
    n_ticks: nat,
    vend: int,
    obs: Seq<i64>,
    tol: int,
    unit: int,
    n: nat,
) -> Seq<int>
    decreases n,
{
    if n == 0 {
        Seq::empty()
    } else {
        let prev = picks(seed, start, models, m, lim, n_ticks, vend, obs, tol, unit, (n - 1) as nat);
        let i = n - 1;
        let e = scan_ticks(seed, start, models, m, lim, n_ticks);
        if window_fits(e, i, obs, tol, unit) && fit_count(e, obs, tol, unit, i as nat) < MAX_MATCHING_WINDOWS_PER_START
            && next_blink_from(seed, start, models, m, vend, e[i + obs.len()] + 1) is Some {
            prev.push(i)
        } else {
            prev
        }
    }
}

/// Kept windows of model `m`.
pub open spec fn model_picks(
    seed: u32,
    start: int,
    models: nat,
    m: int,
    lim: int,
    n_ticks: nat,
    vend: int,
    obs: Seq<i64>,
    tol: int,
    unit: int,
) -> Seq<int> {
    picks(seed, start, models, m, lim, n_ticks, vend, obs, tol, unit, scan_ticks(seed, start, models, m, lim, n_ticks).len())
}

/// (model, window index) of every result of a start, models `0..mc` in
/// order.
pub open spec fn start_picks(
    seed: u32,
    start: int,
    models: nat,
    lim: int,
    n_ticks: nat,
    vend: int,
    obs: Seq<i64>,
    tol: int,
    unit: int,
    mc: nat,
) -> Seq<(int, int)>
    decreases mc,
{
    if mc == 0 {
        Seq::empty()
    } else {
        let m = mc - 1;
        start_picks(seed, start, models, lim, n_ticks, vend, obs, tol, unit, (mc - 1) as nat) + model_picks(
            seed,
            start,
            models,
            m,
            lim,
            n_ticks,
            vend,
            obs,
            tol,
            unit,
        ).map_values(|i: int| (m, i))
    }
}

/// Timeline rows for blinks given as (tick, observed).
pub open spec fn rows_of(seed: u32, start: int, models: nat, ticks: Seq<(int, bool)>) -> Seq<FieldTimelineRow> {
    Seq::new(
        ticks.len(),
        |x: int|
            FieldTimelineRow {
                frame: tl_frame(seed, start, models, ticks[x].0 as nat) as i64,
                timeline_frame: (2 * ticks[x].0) as i64,
                duration_frames: if x + 1 < ticks.len() {
                    (2 * ticks[x + 1].0 - 2 * ticks[x].0) as i64
                } else {
                    0
                },
                observed: ticks[x].1,
            },
    )
}

/// The cursor holds the timeline state after tick `k`.
pub open spec fn cursor_at(c: TimelineCursor, seed: u32, start: int, models: nat, k: int) -> bool {
    &&& c.status.remain@ == tl_remain(seed, start, models, k as nat)
    &&& c.stream_cursor == tl_frame(seed, start, models, k as nat)
    &&& c.consumption == tl_frame(seed, start, models, k as nat)
    &&& c.tick == k
}

/// `r` is the result of the window at index `i` of model `m`, the target
/// fields aside.
pub open spec fn result_core_spec(
    r: FieldResult,
    seed: u32,
    start: int,
    models: nat,
    m: int,
    lim: int,
    n_ticks: nat,
    vend: int,
    obs: Seq<i64>,
    i: int,
) -> bool {
    let e = scan_ticks(seed, start, models, m, lim, n_ticks);
    let l = obs.len() as int;
    let f = e[i];
    let t = e[i + l];
    let nb = next_blink_from(seed, start, models, m, vend, t + 1)->0;
    let cont = continue_from(seed, start, models, m, vend, t, Seq::empty());
    let ticks = Seq::new((l + 1) as nat, |j: int| (e[i + j], true)) + cont.0.map_values(|k: int| (k, false));
    &&& 1 <= f
    &&& 1 <= t
    &&& r.start_consumption == start
    &&& r.first_wait_frame == 2 * f
    &&& r.last_wait_frame == 2 * t
    &&& r.first_consumption == tl_frame(seed, start, models, f as nat)
    &&& r.last_consumption == tl_frame(seed, start, models, t as nat)
    &&& r.intervals@ == Seq::new(l as nat, |j: int| (2 * e[i + j + 1] - 2 * e[i + j]) as i64)
    &&& r.next_blink_wait_frame == 2 * nb - 2 * t
    &&& r.observed_model == m
    &&& r.models == models
    &&& r.timeline@ == rows_of(seed, start, models, ticks)
    &&& r.timeline_cursor is Some && cursor_at(r.timeline_cursor->0, seed, start, models, cont.1)
    &&& r.target_cursor is Some && cursor_at(r.target_cursor->0, seed, start, models, t)
}

/// No target was located.
pub open spec fn no_target(r: FieldResult) -> bool {
    &&& r.target_wait_frame is None
    &&& r.target_exact is None
    &&& r.target_frame_before is None
    &&& r.target_frame_after is None
    &&& r.target_blink_count is None
}

/// `r` is the result of the window at index `i` of model `m`.
pub open spec fn result_spec(
    r: FieldResult,
    seed: u32,
    start: int,
    models: nat,
    m: int,
    lim: int,
    n_ticks: nat,
    vend: int,
    obs: Seq<i64>,
    i: int,
) -> bool {
    &&& result_core_spec(r, seed, start, models, m, lim, n_ticks, vend, obs, i)
    &&& no_target(r)
}

/// Longest scan a search runs, in ticks.
pub const MAX_SCAN_TICKS: i64 = 100_001;

/// One recorded blink: the tick, the model, and the state right after it.
pub struct BlinkEvent {
    pub tick: i64,
    pub model: usize,
    pub frame: i64,
    pub status: ModelStatus,
}

pub open spec fn event_at(ev: BlinkEvent, seed: u32, start: int, models: nat) -> bool {
    &&& ev.frame == tl_frame(seed, start, models, ev.tick as nat)
    &&& ev.status.remain@ == tl_remain(seed, start, models, ev.tick as nat)
    &&& 1 <= ev.tick <= MAX_SCAN_TICKS
}

pub open spec fn event_keys(evs: Seq<BlinkEvent>) -> Seq<(int, int)> {
    evs.map_values(|ev: BlinkEvent| (ev.tick as int, ev.model as int))
}

/// Runs the counters from `start` for at most `n_ticks` ticks while
/// the position stays within `scan_end`, reading values below `vend`, and
/// records every blink.
fn scan_blinks(
    values: &[u64],
    base: i64,
    start: i64,
    models: usize,
    scan_end: i64,
    vend: i64,
    n_ticks: i64,
    Ghost(seed): Ghost<u32>,
) -> (r: Vec<BlinkEvent>)
    requires
        0 <= n_ticks <= MAX_SCAN_TICKS,
        stream_from(values@, seed, base as int),
        0 <= base <= start,
        1 <= models <= 256,
        vend <= base + values@.len(),
        base + values@.len() <= i64::MAX,
    ensures
        event_keys(r@) == blink_log(
            seed,
            start as int,
            models as nat,
            if scan_end < vend { scan_end as int } else { vend as int },
            n_ticks as nat,
        ),
        forall|x: int| 0 <= x < r@.len() ==> event_at(#[trigger] r@[x], seed, start as int, models as nat),
        forall|x: int| 0 <= x < r@.len() ==> (#[trigger] r@[x]).frame <= scan_end && r@[x].frame <= vend,
{
    let ghost st = start as int;
    let ghost mn = models as nat;
    let ghost lim: int = if scan_end < vend { scan_end as int } else { vend as int };
    let mut events: Vec<BlinkEvent> = Vec::new();
    let vlen = values.len();
    if start > scan_end || start > vend {
        proof {
            lemma_tl_growth(seed, st, mn, 1);
            lemma_log_stops(seed, st, mn, lim, 0, n_ticks as nat);
        }
        return events;
    }
    let mut status = ModelStatus::new(models);
    let mut cursor: usize = (start - base) as usize;
    let mut frame: i64 = start;
    let mut tick: i64 = 0;
    assert(status.remain@ =~= tl_remain(seed, st, mn, 0));
    proof {
        lemma_tl_remain_len(seed, st, mn, 0);
    }
    while tick < n_ticks && frame <= scan_end
        invariant_except_break
            frame <= scan_end,
            tick > 0 ==> frame <= lim,
        invariant
            stream_from(values@, seed, base as int),
            0 <= base <= start,
            start <= vend,
            st == start as int,
            mn == models as nat,
            1 <= models <= 256,
            vend <= base + values@.len(),
            base + values@.len() <= i64::MAX,
            lim == if scan_end < vend { scan_end as int } else { vend as int },
            0 <= tick <= n_ticks,
            n_ticks <= MAX_SCAN_TICKS,
            frame == tl_frame(seed, st, mn, tick as nat),
            frame == base + cursor,
            status.remain@ == tl_remain(seed, st, mn, tick as nat),
            status.remain@.len() == models,
            event_keys(events@) == blink_log(seed, st, mn, lim, tick as nat),
            forall|x: int| 0 <= x < events@.len() ==> event_at(#[trigger] events@[x], seed, st, mn),
            forall|x: int| 0 <= x < events@.len() ==> (#[trigger] events@[x]).frame <= lim,
        ensures
            event_keys(events@) == blink_log(seed, st, mn, lim, n_ticks as nat),
            forall|x: int| 0 <= x < events@.len() ==> event_at(#[trigger] events@[x], seed, st, mn),
            forall|x: int| 0 <= x < events@.len() ==> (#[trigger] events@[x]).frame <= lim,
        decreases n_ticks - tick,
    {
        let need = status.draw_count();
        proof {
            lemma_tl_unfold(seed, st, mn, tick as nat);
            lemma_tl_remain_len(seed, st, mn, (tick + 1) as nat);
            lemma_draws_before_bounds(status.remain@, status.remain@.len() as int);
        }
        if frame > vend - need as i64 {
            proof {
                lemma_log_stops(seed, st, mn, lim, tick as nat, n_ticks as nat);
            }
            break;
        }
        let ghost rs = status.remain@;
        let ghost c0 = cursor as int;
        let res = status.next_state_from(values, &mut cursor);
        let (used, blink) = match res {
            Some(x) => x,
            None => {
                proof { assert(false); }
                (0, Vec::new())
            },
        };
        proof {
            assert(values@.subrange(c0, c0 + used) =~= tick_values(seed, frame as int, rs));
        }
        frame = frame + used as i64;
        tick = tick + 1;
        if frame > scan_end {
            proof {
                assert((tick - 1) as nat + 1 == tick as nat);
                lemma_log_stops(seed, st, mn, lim, (tick - 1) as nat, n_ticks as nat);
            }
            break;
        }
        let ghost before = events@;
        assert(frame <= lim);
        let mut b: usize = 0;
        while b < blink.len()
            invariant
                0 <= b <= blink@.len(),
                blink@ == status_blinks(rs),
                rs == tl_remain(seed, st, mn, (tick - 1) as nat),
                status.remain@ == tl_remain(seed, st, mn, tick as nat),
                frame == tl_frame(seed, st, mn, tick as nat),
                1 <= tick <= n_ticks,
                n_ticks <= MAX_SCAN_TICKS,
                events@.len() == before.len() + b,
                events@.subrange(0, before.len() as int) == before,
                forall|x: int| 0 <= x < before.len() ==> event_at(#[trigger] before[x], seed, st, mn),
                forall|x: int| 0 <= x < events@.len() ==> event_at(#[trigger] events@[x], seed, st, mn),
                forall|x: int| 0 <= x < events@.len() ==> (#[trigger] events@[x]).frame <= lim,
                frame <= lim,
                lim == if scan_end < vend { scan_end as int } else { vend as int },
                event_keys(events@) == event_keys(before) + blink@.subrange(0, b as int).map_values(
                    |bb: u8| (tick as int, bb as int),
                ),
            decreases blink@.len() - b,
        {
            let model = blink[b] as usize;
            let snapshot = status.clone();
            let ghost prior = events@;
            events.push(BlinkEvent { tick, model, frame, status: snapshot });
            proof {
                assert(event_keys(events@) =~= event_keys(prior).push((tick as int, model as int)));
                assert(blink@.subrange(0, b + 1) =~= blink@.subrange(0, b as int).push(blink@[b as int]));
                assert(event_keys(events@) =~= event_keys(before) + blink@.subrange(0, b + 1).map_values(
                    |bb: u8| (tick as int, bb as int),
                ));
            }
            b = b + 1;
        }
        proof {
            assert(blink@.subrange(0, blink@.len() as int) =~= blink@);
            assert((tick - 1) as nat + 1 == tick as nat);
            assert(frame <= lim);
        }
    }
    events
}

/// Past the first tick that ends beyond `lim`, the log gains nothing.
proof fn lemma_log_stops(seed: u32, start: int, models: nat, lim: int, k: nat, n: nat)
    requires
        k <= n,
        tl_frame(seed, start, models, k + 1) > lim,
    ensures
        blink_log(seed, start, models, lim, n) == blink_log(seed, start, models, lim, k),
    decreases n - k,
{
    if n > k {
        lemma_log_stops(seed, start, models, lim, k, (n - 1) as nat);
        lemma_tl_monotone(seed, start, models, k + 1, n);
    }
}


pub open spec fn as_ints(v: Seq<i64>) -> Seq<int> {
    v.map_values(|x: i64| x as int)
}

/// Positions in `events` of the blinks of model `m`, and their ticks.
fn model_event_ticks(events: &Vec<BlinkEvent>, m: usize) -> (r: (Vec<usize>, Vec<i64>))
    ensures
        r.0@.len() == r.1@.len(),
        as_ints(r.1@) == ticks_of(event_keys(events@), m as int),
        forall|x: int| 0 <= x < r.0@.len() ==> {
            &&& r.0@[x] < events@.len()
            &&& events@[#[trigger] r.0@[x] as int].tick == r.1@[x]
            &&& events@[r.0@[x] as int].model == m
        },
{
    let mut pos: Vec<usize> = Vec::new();
    let mut ticks: Vec<i64> = Vec::new();
    let mut j: usize = 0;
    let ghost keys = event_keys(events@);
    while j < events.len()
        invariant
            j <= events@.len(),
            keys == event_keys(events@),
            pos@.len() == ticks@.len(),
            as_ints(ticks@) == ticks_of(keys.take(j as int), m as int),
            forall|x: int| 0 <= x < pos@.len() ==> {
                &&& pos@[x] < events@.len()
                &&& events@[#[trigger] pos@[x] as int].tick == ticks@[x]
                &&& events@[pos@[x] as int].model == m
            },
        decreases events@.len() - j,
    {
        assert(keys.take(j + 1).drop_last() =~= keys.take(j as int));
        if events[j].model == m {
            pos.push(j);
            ticks.push(events[j].tick);
            assert(as_ints(ticks@) =~= ticks_of(keys.take(j + 1), m as int));
        } else {
            assert(as_ints(ticks@) =~= ticks_of(keys.take(j + 1), m as int));
        }
        j = j + 1;
    }
    assert(keys.take(events@.len() as int) =~= keys);
    (pos, ticks)
}

/// Whether the window of `ticks` at `i` matches the observed intervals.
pub(crate) fn window_matches(ticks: &Vec<i64>, i: usize, obs: &Vec<i64>, tol: i64, unit: i64) -> (r: bool)
    requires
        1 <= unit <= 2,
    ensures
        r == window_fits(as_ints(ticks@), i as int, obs@, tol as int, unit as int),
{
    let ghost e = as_ints(ticks@);
    let n = ticks.len();
    if i >= n || obs.len() >= n - i {
        return false;
    }
    let mut j: usize = 0;
    while j < obs.len()
        invariant
            e == as_ints(ticks@),
            n == ticks@.len(),
            i + obs@.len() < ticks@.len(),
            j <= obs@.len(),
            1 <= unit <= 2,
            forall|y: int| 0 <= y < j ==> #[trigger] interval_fits(e, i as int, y, obs@, tol as int, unit as int),
        decreases obs@.len() - j,
    {
        let a = ticks[i + j] as i128;
        let b = ticks[i + j + 1] as i128;
        let step: i128 = if unit == 1 {
            b - a
        } else {
            2 * (b - a)
        };
        let d: i128 = step - obs[j] as i128;
        if d < -(tol as i128) || d > tol as i128 {
            assert(!interval_fits(e, i as int, j as int, obs@, tol as int, unit as int));
            return false;
        }
        j = j + 1;
    }
    true
}

/// The first blink of model `m` after the state of `ev`, as a tick.
fn next_blink_tick(
    values: &[u64],
    base: i64,
    vend: i64,
    ev: &BlinkEvent,
    m: usize,
    Ghost(seed): Ghost<u32>,
    Ghost(start): Ghost<int>,
    Ghost(models): Ghost<nat>,
) -> (r: Option<i64>)
    requires
        stream_from(values@, seed, base as int),
        0 <= base <= start,
        1 <= models <= 256,
        event_at(*ev, seed, start, models),
        ev.frame <= vend <= base + values@.len(),
        base + values@.len() <= i64::MAX,
    ensures
        as_opt(r) == next_blink_from(seed, start, models, m as int, vend as int, ev.tick + 1),
        r matches Some(k) ==> ev.tick < k <= MAX_WAIT_TICKS,
{
    if ev.tick >= MAX_WAIT_TICKS {
        return None;
    }
    let mut status = ev.status.clone();
    let mut frame = ev.frame;
    let mut tick = ev.tick;
    proof {
        lemma_tl_growth(seed, start, models, tick as nat);
        lemma_tl_remain_len(seed, start, models, tick as nat);
    }
    let vlen = values.len();
    let mut cursor: usize = (frame - base) as usize;
    while tick < MAX_WAIT_TICKS
        invariant
            stream_from(values@, seed, base as int),
            0 <= base <= start,
            1 <= models <= 256,
            1 <= tick <= MAX_WAIT_TICKS,
            ev.tick <= tick,
            frame == tl_frame(seed, start, models, tick as nat),
            frame == base + cursor,
            frame <= vend <= base + values@.len(),
            base + values@.len() <= i64::MAX,
            status.remain@ == tl_remain(seed, start, models, tick as nat),
            status.remain@.len() == models,
            next_blink_from(seed, start, models, m as int, vend as int, ev.tick + 1) == next_blink_from(
                seed,
                start,
                models,
                m as int,
                vend as int,
                tick + 1,
            ),
        decreases MAX_WAIT_TICKS - tick,
    {
        let need = status.draw_count();
        proof {
            lemma_tl_unfold(seed, start, models, tick as nat);
            lemma_tl_remain_len(seed, start, models, (tick + 1) as nat);
            lemma_draws_before_bounds(status.remain@, status.remain@.len() as int);
        }
        if frame > vend - need as i64 {
            return None;
        }
        let ghost rs = status.remain@;
        let ghost c0 = cursor as int;
        let res = status.next_state_target_from(m, values, &mut cursor);
        let (used, blinked) = match res {
            Some(x) => x,
            None => {
                proof { assert(false); }
                (0, false)
            },
        };
        proof {
            assert(values@.subrange(c0, c0 + used) =~= tick_values(seed, frame as int, rs));
        }
        frame = frame + used as i64;
        tick = tick + 1;
        if blinked {
            return Some(tick);
        }
    }
    None
}

pub open spec fn as_opt(r: Option<i64>) -> Option<int> {
    match r {
        Some(x) => Some(x as int),
        None => None,
    }
}

/// Continues the timeline after the state of `ev`, collecting the later
/// blinks of model `m` (ticks and end positions) and the final state.
fn continue_timeline(
    values: &[u64],
    base: i64,
    vend: i64,
    ev: &BlinkEvent,
    m: usize,
    Ghost(seed): Ghost<u32>,
    Ghost(start): Ghost<int>,
    Ghost(models): Ghost<nat>,
) -> (r: (Vec<i64>, Vec<i64>, TimelineCursor))
    requires
        stream_from(values@, seed, base as int),
        0 <= base <= start,
        1 <= models <= 256,
        event_at(*ev, seed, start, models),
        ev.frame <= vend <= base + values@.len(),
        base + values@.len() <= i64::MAX,
    ensures
        as_ints(r.0@) == continue_from(seed, start, models, m as int, vend as int, ev.tick as int, Seq::empty()).0,
        cursor_at(r.2, seed, start, models, continue_from(seed, start, models, m as int, vend as int, ev.tick as int, Seq::empty()).1),
        r.1@.len() == r.0@.len(),
        forall|x: int| 0 <= x < r.0@.len() ==> #[trigger] r.1@[x] == tl_frame(seed, start, models, r.0@[x] as nat),
        forall|x: int| 0 <= x < r.0@.len() ==> ev.tick < #[trigger] r.0@[x] <= MAX_WAIT_TICKS,
        r.0@.len() == 0 || ev.tick < MAX_WAIT_TICKS,
{
    if ev.tick >= MAX_WAIT_TICKS {
        let snapshot = ev.status.clone();
        proof {
            assert(as_ints(Seq::<i64>::empty()) =~= Seq::<int>::empty());
        }
        return (Vec::new(), Vec::new(), TimelineCursor { status: snapshot, stream_cursor: ev.frame, consumption: ev.frame, tick: ev.tick });
    }
    let mut status = ev.status.clone();
    let mut frame = ev.frame;
    let mut tick = ev.tick;
    let mut found: Vec<i64> = Vec::new();
    let mut frames: Vec<i64> = Vec::new();
    proof {
        lemma_tl_growth(seed, start, models, tick as nat);
        lemma_tl_remain_len(seed, start, models, tick as nat);
        assert(as_ints(found@) =~= Seq::<int>::empty());
    }
    let vlen = values.len();
    let mut cursor: usize = (frame - base) as usize;
    while tick < MAX_WAIT_TICKS && found.len() < MAX_CANDIDATE_TIMELINE_EVENTS
        invariant
            stream_from(values@, seed, base as int),
            0 <= base <= start,
            1 <= models <= 256,
            1 <= ev.tick <= tick <= MAX_WAIT_TICKS,
            frame == tl_frame(seed, start, models, tick as nat),
            frame == base + cursor,
            frame <= vend <= base + values@.len(),
            base + values@.len() <= i64::MAX,
            status.remain@ == tl_remain(seed, start, models, tick as nat),
            status.remain@.len() == models,
            frames@.len() == found@.len(),
            found@.len() <= MAX_CANDIDATE_TIMELINE_EVENTS,
            forall|x: int| 0 <= x < found@.len() ==> #[trigger] frames@[x] == tl_frame(seed, start, models, found@[x] as nat),
            forall|x: int| 0 <= x < found@.len() ==> ev.tick < #[trigger] found@[x] <= tick,
            continue_from(seed, start, models, m as int, vend as int, ev.tick as int, Seq::empty())
                == continue_from(seed, start, models, m as int, vend as int, tick as int, as_ints(found@)),
        ensures
            continue_from(seed, start, models, m as int, vend as int, tick as int, as_ints(found@)) == (
                as_ints(found@),
                tick as int,
            ),
        decreases MAX_WAIT_TICKS - tick,
    {
        let need = status.draw_count();
        proof {
            lemma_tl_unfold(seed, start, models, tick as nat);
            lemma_tl_remain_len(seed, start, models, (tick + 1) as nat);
            lemma_draws_before_bounds(status.remain@, status.remain@.len() as int);
        }
        if frame > vend - need as i64 {
            assert(tl_frame(seed, start, models, (tick + 1) as nat) > vend);
            break;
        }
        let ghost rs = status.remain@;
        let ghost c0 = cursor as int;
        let res = status.next_state_target_from(m, values, &mut cursor);
        let (used, blinked) = match res {
            Some(x) => x,
            None => {
                proof { assert(false); }
                (0, false)
            },
        };
        proof {
            assert(values@.subrange(c0, c0 + used) =~= tick_values(seed, frame as int, rs));
        }
        frame = frame + used as i64;
        tick = tick + 1;
        if blinked {
            let ghost prior = found@;
            found.push(tick);
            frames.push(frame);
            proof {
                assert(as_ints(found@) =~= as_ints(prior).push(tick as int));
            }
        }
    }
    let snapshot = status.clone();
    (found, frames, TimelineCursor { status: snapshot, stream_cursor: frame, consumption: frame, tick })
}

/// The (tick, observed) list of a window's rows: the observed blinks, then
/// the later ones.
pub open spec fn window_row_ticks(e: Seq<int>, i: int, l: int, later: Seq<int>) -> Seq<(int, bool)> {
    Seq::new((l + 1) as nat, |j: int| (e[i + j], true)) + later.map_values(|k: int| (k, false))
}

/// Builds the result of the window at index `i` of model `m`; `None` when
/// no further blink follows it.
fn result_from_window(
    events: &Vec<BlinkEvent>,
    pos: &Vec<usize>,
    ticks: &Vec<i64>,
    i: usize,
    obs: &Vec<i64>,
    m: usize,
    models: usize,
    values: &[u64],
    base: i64,
    vend: i64,
    start: i64,
    Ghost(seed): Ghost<u32>,
    Ghost(lim): Ghost<int>,
    Ghost(n_ticks): Ghost<nat>,
) -> (r: Option<FieldResult>)
    requires
        stream_from(values@, seed, base as int),
        0 <= base <= start,
        1 <= models <= 256,
        vend <= base + values@.len(),
        base + values@.len() <= i64::MAX,
        as_ints(ticks@) == scan_ticks(seed, start as int, models as nat, m as int, lim, n_ticks),
        pos@.len() == ticks@.len(),
        forall|x: int| 0 <= x < pos@.len() ==> {
            &&& pos@[x] < events@.len()
            &&& events@[#[trigger] pos@[x] as int].tick == ticks@[x]
            &&& events@[pos@[x] as int].model == m
        },
        forall|x: int| 0 <= x < events@.len() ==> event_at(#[trigger] events@[x], seed, start as int, models as nat),
        forall|x: int| 0 <= x < events@.len() ==> (#[trigger] events@[x]).frame <= vend,
        i + obs@.len() < ticks@.len(),
    ensures
        ({
            let e = scan_ticks(seed, start as int, models as nat, m as int, lim, n_ticks);
            &&& r is Some <==> next_blink_from(seed, start as int, models as nat, m as int, vend as int, e[i + obs@.len()] + 1) is Some
            &&& r is Some ==> result_spec(r->0, seed, start as int, models as nat, m as int, lim, n_ticks, vend as int, obs@, i as int)
        }),
{
    let ghost st = start as int;
    let ghost mn = models as nat;
    let ghost e = as_ints(ticks@);
    let tn = ticks.len();
    let l = obs.len();
    let first = &events[pos[i]];
    let last = &events[pos[i + l]];
    let nb = match next_blink_tick(values, base, vend, last, m, Ghost(seed), Ghost(st), Ghost(mn)) {
        Some(k) => k,
        None => return None,
    };
    let (later, later_frames, timeline_cursor) = continue_timeline(
        values,
        base,
        vend,
        last,
        m,
        Ghost(seed),
        Ghost(st),
        Ghost(mn),
    );
    let ghost cont = continue_from(seed, st, mn, m as int, vend as int, e[i + l], Seq::empty());
    let ghost row_ticks = window_row_ticks(e, i as int, l as int, cont.0);
    let mut entries: Vec<(i64, i64, bool)> = Vec::new();
    let mut j: usize = 0;
    while j <= l
        invariant
            tn == ticks@.len(),
            i + l < ticks@.len(),
            l == obs@.len(),
            e == as_ints(ticks@),
            pos@.len() == ticks@.len(),
            forall|x: int| 0 <= x < pos@.len() ==> {
                &&& pos@[x] < events@.len()
                &&& events@[#[trigger] pos@[x] as int].tick == ticks@[x]
                &&& events@[pos@[x] as int].model == m
            },
            forall|x: int| 0 <= x < events@.len() ==> event_at(#[trigger] events@[x], seed, st, mn),
            row_ticks == window_row_ticks(e, i as int, l as int, cont.0),
            j <= l + 1,
            entries@.len() == j,
            forall|x: int| 0 <= x < j ==> (#[trigger] entries@[x]).0 == row_ticks[x].0 && entries@[x].2
                == row_ticks[x].1 && entries@[x].1 == tl_frame(seed, st, mn, entries@[x].0 as nat)
                && 1 <= entries@[x].0 <= MAX_SCAN_TICKS,
        decreases l + 1 - j,
    {
        let ev = &events[pos[i + j]];
        entries.push((ticks[i + j], ev.frame, true));
        j = j + 1;
    }
    let mut x: usize = 0;
    while x < later.len()
        invariant
            l == obs@.len(),
            as_ints(later@) == cont.0,
            later_frames@.len() == later@.len(),
            forall|y: int| 0 <= y < later@.len() ==> #[trigger] later_frames@[y] == tl_frame(seed, st, mn, later@[y] as nat),
            forall|y: int| 0 <= y < later@.len() ==> last.tick < #[trigger] later@[y] <= MAX_WAIT_TICKS,
            last.tick >= 1,
            row_ticks == window_row_ticks(e, i as int, l as int, cont.0),
            x <= later@.len(),
            entries@.len() == l + 1 + x,
            forall|y: int| 0 <= y < l + 1 + x ==> (#[trigger] entries@[y]).0 == row_ticks[y].0 && entries@[y].2
                == row_ticks[y].1 && entries@[y].1 == tl_frame(seed, st, mn, entries@[y].0 as nat)
                && 1 <= entries@[y].0 <= MAX_SCAN_TICKS,
        decreases later@.len() - x,
    {
        entries.push((later[x], later_frames[x], false));
        x = x + 1;
    }
    assert(row_ticks.len() == entries@.len());
    let mut rows: Vec<FieldTimelineRow> = Vec::new();
    let n = entries.len();
    let mut y: usize = 0;
    while y < n
        invariant
            n == entries@.len(),
            row_ticks.len() == n,
            forall|z: int| 0 <= z < n ==> (#[trigger] entries@[z]).0 == row_ticks[z].0 && entries@[z].2
                == row_ticks[z].1 && entries@[z].1 == tl_frame(seed, st, mn, entries@[z].0 as nat)
                && 1 <= entries@[z].0 <= MAX_SCAN_TICKS,
            y <= n,
            rows@ == rows_of(seed, st, mn, row_ticks).take(y as int),
        decreases n - y,
    {
        let (tk, fr, observed) = entries[y];
        let duration: i64 = if y + 1 < n {
            2 * entries[y + 1].0 - 2 * tk
        } else {
            0
        };
        rows.push(FieldTimelineRow { frame: fr, timeline_frame: 2 * tk, duration_frames: duration, observed });
        proof {
            assert(rows@ =~= rows_of(seed, st, mn, row_ticks).take(y + 1));
        }
        y = y + 1;
    }
    proof {
        assert(rows@ =~= rows_of(seed, st, mn, row_ticks));
    }
    let mut intervals: Vec<i64> = Vec::new();
    let mut k: usize = 0;
    while k < l
        invariant
            tn == ticks@.len(),
            i + l < ticks@.len(),
            l == obs@.len(),
            e == as_ints(ticks@),
            pos@.len() == ticks@.len(),
            forall|x: int| 0 <= x < pos@.len() ==> {
                &&& pos@[x] < events@.len()
                &&& events@[#[trigger] pos@[x] as int].tick == ticks@[x]
            },
            forall|x: int| 0 <= x < events@.len() ==> event_at(#[trigger] events@[x], seed, st, mn),
            k <= l,
            intervals@ == Seq::new(k as nat, |z: int| (2 * e[i + z + 1] - 2 * e[i + z]) as i64),
        decreases l - k,
    {
        let a = ticks[i + k];
        let b = ticks[i + k + 1];
        assert(event_at(events@[pos@[i + k] as int], seed, st, mn));
        assert(event_at(events@[pos@[i + k + 1] as int], seed, st, mn));
        intervals.push(2 * b - 2 * a);
        proof {
            assert(intervals@ =~= Seq::new((k + 1) as nat, |z: int| (2 * e[i + z + 1] - 2 * e[i + z]) as i64));
        }
        k = k + 1;
    }
    let target_cursor = TimelineCursor {
        status: last.status.clone(),
        stream_cursor: last.frame,
        consumption: last.frame,
        tick: last.tick,
    };
    Some(FieldResult {
        start_consumption: start,
        first_wait_frame: 2 * first.tick,
        last_wait_frame: 2 * last.tick,
        first_consumption: first.frame,
        last_consumption: last.frame,
        intervals,
        next_blink_wait_frame: 2 * nb - 2 * last.tick,
        target_wait_frame: None,
        target_exact: None,
        target_frame_before: None,
        target_frame_after: None,
        observed_model: m,
        models,
        timeline: rows,
        target_blink_count: None,
        timeline_cursor: Some(timeline_cursor),
        target_cursor: Some(target_cursor),
    })
}

/// The position limit of the scan: the search window end, or the end of
/// the available values when that comes first.
pub open spec fn scan_limit(scan_end: int, vend: int) -> int {
    if scan_end < vend {
        scan_end
    } else {
        vend
    }
}

/// The results of model `m` for one start, one per kept window.
fn collect_model_results(
    events: &Vec<BlinkEvent>,
    m: usize,
    values: &[u64],
    base: i64,
    vend: i64,
    start: i64,
    models: usize,
    obs: &Vec<i64>,
    tol: i64,
    unit: i64,
    Ghost(seed): Ghost<u32>,
    Ghost(lim): Ghost<int>,
    Ghost(n_ticks): Ghost<nat>,
) -> (r: Vec<FieldResult>)
    requires
        stream_from(values@, seed, base as int),
        0 <= base <= start,
        1 <= models <= 256,
        1 <= unit <= 2,
        vend <= base + values@.len(),
        base + values@.len() <= i64::MAX,
        event_keys(events@) == blink_log(seed, start as int, models as nat, lim, n_ticks),
        forall|x: int| 0 <= x < events@.len() ==> event_at(#[trigger] events@[x], seed, start as int, models as nat),
        forall|x: int| 0 <= x < events@.len() ==> (#[trigger] events@[x]).frame <= vend,
    ensures
        ({
            let mp = model_picks(seed, start as int, models as nat, m as int, lim, n_ticks, vend as int, obs@, tol as int, unit as int);
            &&& r@.len() == mp.len()
            &&& forall|x: int| 0 <= x < r@.len() ==> result_spec(
                #[trigger] r@[x],
                seed,
                start as int,
                models as nat,
                m as int,
                lim,
                n_ticks,
                vend as int,
                obs@,
                mp[x],
            )
        }),
{
    let ghost st = start as int;
    let ghost mn = models as nat;
    let (pos, ticks) = model_event_ticks(events, m);
    let ghost e = scan_ticks(seed, st, mn, m as int, lim, n_ticks);
    assert(as_ints(ticks@) == e);
    let mut results: Vec<FieldResult> = Vec::new();
    let mut count: usize = 0;
    let mut i: usize = 0;
    while i < ticks.len()
        invariant
            stream_from(values@, seed, base as int),
            0 <= base <= start,
            1 <= models <= 256,
            1 <= unit <= 2,
            vend <= base + values@.len(),
            base + values@.len() <= i64::MAX,
            st == start as int,
            mn == models as nat,
            e == scan_ticks(seed, st, mn, m as int, lim, n_ticks),
            as_ints(ticks@) == e,
            pos@.len() == ticks@.len(),
            forall|x: int| 0 <= x < pos@.len() ==> {
                &&& pos@[x] < events@.len()
                &&& events@[#[trigger] pos@[x] as int].tick == ticks@[x]
                &&& events@[pos@[x] as int].model == m
            },
            forall|x: int| 0 <= x < events@.len() ==> event_at(#[trigger] events@[x], seed, st, mn),
            forall|x: int| 0 <= x < events@.len() ==> (#[trigger] events@[x]).frame <= vend,
            i <= ticks@.len(),
            count == fit_count(e, obs@, tol as int, unit as int, i as nat),
            count <= i,
            results@.len() == picks(seed, st, mn, m as int, lim, n_ticks, vend as int, obs@, tol as int, unit as int, i as nat).len(),
            forall|x: int| 0 <= x < results@.len() ==> result_spec(
                #[trigger] results@[x],
                seed,
                st,
                mn,
                m as int,
                lim,
                n_ticks,
                vend as int,
                obs@,
                picks(seed, st, mn, m as int, lim, n_ticks, vend as int, obs@, tol as int, unit as int, i as nat)[x],
            ),
        decreases ticks@.len() - i,
    {
        let fits = window_matches(&ticks, i, obs, tol, unit);
        let ghost before = results@;
        if fits {
            if count < MAX_MATCHING_WINDOWS_PER_START {
                match result_from_window(
                    events,
                    &pos,
                    &ticks,
                    i,
                    obs,
                    m,
                    models,
                    values,
                    base,
                    vend,
                    start,
                    Ghost(seed),
                    Ghost(lim),
                    Ghost(n_ticks),
                ) {
                    Some(res) => {
                        results.push(res);
                    },
                    None => {},
                }
            }
            count = count + 1;
        }
        proof {
            let pi = picks(seed, st, mn, m as int, lim, n_ticks, vend as int, obs@, tol as int, unit as int, i as nat);
            let pn = picks(seed, st, mn, m as int, lim, n_ticks, vend as int, obs@, tol as int, unit as int, (i + 1) as nat);
            assert((i + 1) as nat - 1 == i as nat);
            assert forall|x: int| 0 <= x < results@.len() implies result_spec(
                #[trigger] results@[x],
                seed,
                st,
                mn,
                m as int,
                lim,
                n_ticks,
                vend as int,
                obs@,
                pn[x],
            ) by {
                if x < before.len() {
                    assert(pn[x] == pi[x]);
                }
            }
        }
        i = i + 1;
    }
    results
}

/// Every result of one candidate start: for each model in order, one per
/// kept matching window, in window order.
pub(crate) fn search_start_results(
    values: &[u64],
    base: i64,
    vend: i64,
    start: i64,
    models: usize,
    scan_end: i64,
    n_ticks: i64,
    obs: &Vec<i64>,
    tol: i64,
    unit: i64,
    Ghost(seed): Ghost<u32>,
) -> (r: Vec<FieldResult>)
    requires
        stream_from(values@, seed, base as int),
        0 <= base <= start,
        1 <= models <= 256,
        1 <= unit <= 2,
        0 <= n_ticks <= MAX_SCAN_TICKS,
        vend <= base + values@.len(),
        base + values@.len() <= i64::MAX,
    ensures
        ({
            let lim = scan_limit(scan_end as int, vend as int);
            let sp = start_picks(seed, start as int, models as nat, lim, n_ticks as nat, vend as int, obs@, tol as int, unit as int, models as nat);
            &&& r@.len() == sp.len()
            &&& forall|x: int| 0 <= x < r@.len() ==> result_spec(
                #[trigger] r@[x],
                seed,
                start as int,
                models as nat,
                sp[x].0,
                lim,
                n_ticks as nat,
                vend as int,
                obs@,
                sp[x].1,
            )
        }),
{
    let ghost st = start as int;
    let ghost mn = models as nat;
    let ghost nt = n_ticks as nat;
    let ghost lim = scan_limit(scan_end as int, vend as int);
    let events = scan_blinks(values, base, start, models, scan_end, vend, n_ticks, Ghost(seed));
    let mut results: Vec<FieldResult> = Vec::new();
    let mut m: usize = 0;
    while m < models
        invariant
            stream_from(values@, seed, base as int),
            0 <= base <= start,
            1 <= models <= 256,
            1 <= unit <= 2,
            vend <= base + values@.len(),
            base + values@.len() <= i64::MAX,
            st == start as int,
            mn == models as nat,
            nt == n_ticks as nat,
            lim == scan_limit(scan_end as int, vend as int),
            event_keys(events@) == blink_log(seed, st, mn, lim, nt),
            forall|x: int| 0 <= x < events@.len() ==> event_at(#[trigger] events@[x], seed, st, mn),
            forall|x: int| 0 <= x < events@.len() ==> (#[trigger] events@[x]).frame <= vend,
            m <= models,
            results@.len() == start_picks(seed, st, mn, lim, nt, vend as int, obs@, tol as int, unit as int, m as nat).len(),
            forall|x: int| 0 <= x < results@.len() ==> result_spec(
                #[trigger] results@[x],
                seed,
                st,
                mn,
                start_picks(seed, st, mn, lim, nt, vend as int, obs@, tol as int, unit as int, m as nat)[x].0,
                lim,
                nt,
                vend as int,
                obs@,
                start_picks(seed, st, mn, lim, nt, vend as int, obs@, tol as int, unit as int, m as nat)[x].1,
            ),
        decreases models - m,
    {
        let ghost prior = start_picks(seed, st, mn, lim, nt, vend as int, obs@, tol as int, unit as int, m as nat);
        let ghost before = results@;
        let mut found = collect_model_results(
            &events,
            m,
            values,
            base,
            vend,
            start,
            models,
            obs,
            tol,
            unit,
            Ghost(seed),
            Ghost(lim),
            Ghost(nt),
        );
        let ghost mp = model_picks(seed, st, mn, m as int, lim, nt, vend as int, obs@, tol as int, unit as int);
        let ghost added = found@;
        results.append(&mut found);
        proof {
            let next = start_picks(seed, st, mn, lim, nt, vend as int, obs@, tol as int, unit as int, (m + 1) as nat);
            assert((m + 1) as nat - 1 == m as nat);
            assert(next =~= prior + mp.map_values(|w: int| (m as int, w)));
            assert(results@ =~= before + added);
            assert forall|x: int| 0 <= x < results@.len() implies result_spec(
                #[trigger] results@[x],
                seed,
                st,
                mn,
                next[x].0,
                lim,
                nt,
                vend as int,
                obs@,
                next[x].1,
            ) by {
                if x >= before.len() {
                    assert(next[x] == (m as int, mp[x - before.len()]));
                    assert(results@[x] == added[x - before.len()]);
                } else {
                    assert(results@[x] == before[x]);
                }
            }
        }
        m = m + 1;
    }
    results
}

/// The results of one candidate start for model `m` alone.
pub(crate) fn search_start_model_results(
    values: &[u64],
    base: i64,
    vend: i64,
    start: i64,
    models: usize,
    scan_end: i64,
    n_ticks: i64,
    obs: &Vec<i64>,
    tol: i64,
    unit: i64,
    m: usize,
    Ghost(seed): Ghost<u32>,
) -> (r: Vec<FieldResult>)
    requires
        stream_from(values@, seed, base as int),
        0 <= base <= start,
        1 <= models <= 256,
        1 <= unit <= 2,
        0 <= n_ticks <= MAX_SCAN_TICKS,
        vend <= base + values@.len(),
        base + values@.len() <= i64::MAX,
    ensures
        ({
            let lim = scan_limit(scan_end as int, vend as int);
            let mp = model_picks(seed, start as int, models as nat, m as int, lim, n_ticks as nat, vend as int, obs@, tol as int, unit as int);
            &&& r@.len() == mp.len()
            &&& forall|x: int| 0 <= x < r@.len() ==> result_spec(
                #[trigger] r@[x],
                seed,
                start as int,
                models as nat,
                m as int,
                lim,
                n_ticks as nat,
                vend as int,
                obs@,
                mp[x],
            )
        }),
{
    let ghost lim = scan_limit(scan_end as int, vend as int);
    let events = scan_blinks(values, base, start, models, scan_end, vend, n_ticks, Ghost(seed));
    collect_model_results(
        &events,
        m,
        values,
        base,
        vend,
        start,
        models,
        obs,
        tol,
        unit,
        Ghost(seed),
        Ghost(lim),
        Ghost(n_ticks as nat),
    )
}

} // verus!
