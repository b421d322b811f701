//! The field timeline search: checking a search request, trying every
//! candidate start in order, keeping the candidates near the first one that
//! matches, and locating the target on each.

use vstd::prelude::*;
use crate::sfmt::{generate_u64_values_from, stream_from};
use crate::timeline::lemma_tl_remain_len;
use crate::field_types::{FieldConfig, FieldResult, same_untargeted};
use crate::field_scan::{
    MAX_WAIT_TICKS, MAX_SCAN_TICKS, model_picks, start_picks, scan_limit, result_core_spec, result_spec, no_target,
    cursor_at, search_start_results, search_start_model_results,
};
use crate::field_target::{target_timing_spec, target_applied, target_fields, apply_target_from_cursor, resume_cursor, lemma_target_applied_own};
use crate::observation::MAX_SFMT_FRAME;

verus! {

/// Largest SFMT position a search range may reach.
pub const MAX_SEARCH_FRAME: i64 = 50_000_000;

/// Widest search range, in SFMT positions.
pub const MAX_SEARCH_SPAN: i64 = 100_000;

/// Most models (the player included) a search runs.
pub const MAX_MODELS: usize = 256;

/// Most blink observations one session records.
pub const MAX_BLINK_OBSERVATIONS: usize = 64;

/// Candidates are kept up to this many positions after the first match.
pub const CANDIDATE_CONFIRM_SPAN: i64 = 1_000;

/// Tolerance, in ticks, of the anchored search.
pub const ANCHORED_TOLERANCE_TICKS: i64 = 10;

/// Why a search request was refused.
#[derive(Clone, Copy, Debug, PartialEq, Eq, Structural)]
pub enum FieldConfigError {
    /// Range, model count, observed model or tolerance out of bounds.
    RangeOrModel,
    SpanTooWide,
    TargetTooFar,
    NoIntervals,
    TooManyIntervals,
    NegativeInterval,
}

pub open spec fn field_error_message(e: FieldConfigError) -> Seq<char> {
    match e {
        FieldConfigError::RangeOrModel => "タイムライン仕様の入力範囲または観測対象を確認してください（消費数範囲は0～50000000、モデル数は1～256）。"@,
        FieldConfigError::SpanTooWide => "検索範囲は100000F以内で指定してください。"@,
        FieldConfigError::TargetTooFar => "目標消費数は50000000以下で入力してください。"@,
        FieldConfigError::NoIntervals => "瞬き間隔を1つ以上入力してください。"@,
        FieldConfigError::TooManyIntervals => "瞬き観測は64回まで入力できます。"@,
        FieldConfigError::NegativeInterval => "瞬き間隔は0以上の整数で入力してください。"@,
    }
}

/// What is wrong with the range, models and target of a request.
pub open spec fn static_config_error(c: FieldConfig) -> Option<FieldConfigError> {
    if c.range_start < 0 || c.range_end < c.range_start || c.range_end > MAX_SEARCH_FRAME || c.models == 0
        || c.models > MAX_MODELS || c.target_model >= c.models || c.tolerance < 0 {
        Some(FieldConfigError::RangeOrModel)
    } else if c.range_end - c.range_start > MAX_SEARCH_SPAN {
        Some(FieldConfigError::SpanTooWide)
    } else if c.target_consumption is Some && c.target_consumption->0 > MAX_SEARCH_FRAME {
        Some(FieldConfigError::TargetTooFar)
    } else {
        None
    }
}

/// What is wrong with a request, the observed intervals included.
pub open spec fn config_error(c: FieldConfig) -> Option<FieldConfigError> {
    if static_config_error(c) is Some {
        static_config_error(c)
    } else if c.observed_intervals@.len() == 0 {
        Some(FieldConfigError::NoIntervals)
    } else if c.observed_intervals@.len() >= MAX_BLINK_OBSERVATIONS {
        Some(FieldConfigError::TooManyIntervals)
    } else if exists|i: int| 0 <= i < c.observed_intervals@.len() && #[trigger] c.observed_intervals@[i] < 0 {
        Some(FieldConfigError::NegativeInterval)
    } else {
        None
    }
}

fn error_message(e: FieldConfigError) -> (r: String)
    ensures
        r@ == field_error_message(e),
{
    match e {
        FieldConfigError::RangeOrModel => "タイムライン仕様の入力範囲または観測対象を確認してください（消費数範囲は0～50000000、モデル数は1～256）。".to_owned(),
        FieldConfigError::SpanTooWide => "検索範囲は100000F以内で指定してください。".to_owned(),
        FieldConfigError::TargetTooFar => "目標消費数は50000000以下で入力してください。".to_owned(),
        FieldConfigError::NoIntervals => "瞬き間隔を1つ以上入力してください。".to_owned(),
        FieldConfigError::TooManyIntervals => "瞬き観測は64回まで入力できます。".to_owned(),
        FieldConfigError::NegativeInterval => "瞬き間隔は0以上の整数で入力してください。".to_owned(),
    }
}

fn static_error(c: &FieldConfig) -> (r: Option<FieldConfigError>)
    ensures
        r == static_config_error(*c),
{
    if c.range_start < 0 || c.range_end < c.range_start || c.range_end > MAX_SEARCH_FRAME || c.models == 0
        || c.models > MAX_MODELS || c.target_model >= c.models || c.tolerance < 0 {
        return Some(FieldConfigError::RangeOrModel);
    }
    if c.range_end - c.range_start > MAX_SEARCH_SPAN {
        return Some(FieldConfigError::SpanTooWide);
    }
    match c.target_consumption {
        Some(t) => if t > MAX_SEARCH_FRAME {
            return Some(FieldConfigError::TargetTooFar);
        },
        None => {},
    }
    None
}

fn request_error(c: &FieldConfig) -> (r: Option<FieldConfigError>)
    ensures
        r == config_error(*c),
{
    match static_error(c) {
        Some(e) => return Some(e),
        None => {},
    }
    let n = c.observed_intervals.len();
    if n == 0 {
        return Some(FieldConfigError::NoIntervals);
    }
    if n >= MAX_BLINK_OBSERVATIONS {
        return Some(FieldConfigError::TooManyIntervals);
    }
    let mut i: usize = 0;
    while i < n
        invariant
            n == c.observed_intervals@.len(),
            0 < n < MAX_BLINK_OBSERVATIONS,
            static_config_error(*c) is None,
            i <= n,
            forall|j: int| 0 <= j < i ==> c.observed_intervals@[j] >= 0,
        decreases n - i,
    {
        if c.observed_intervals[i] < 0 {
            assert(exists|j: int| 0 <= j < c.observed_intervals@.len() && #[trigger] c.observed_intervals@[j] < 0) by {
                assert(c.observed_intervals@[i as int] < 0);
            }
            return Some(FieldConfigError::NegativeInterval);
        }
        i = i + 1;
    }
    None
}

/// Checks the range, models and target of a request.
pub fn validate_static_config(c: &FieldConfig) -> (r: Result<(), String>)
    ensures
        match static_config_error(*c) {
            None => r is Ok,
            Some(e) => r is Err && r->Err_0@ == field_error_message(e),
        },
{
    match static_error(c) {
        None => Ok(()),
        Some(e) => Err(error_message(e)),
    }
}

/// Checks a whole request, the observed intervals included.
pub fn validate(c: &FieldConfig) -> (r: Result<(), String>)
    ensures
        match config_error(*c) {
            None => r is Ok,
            Some(e) => r is Err && r->Err_0@ == field_error_message(e),
        },
{
    match request_error(c) {
        None => Ok(()),
        Some(e) => Err(error_message(e)),
    }
}

/// The values a candidate start may read: every position below this.
pub open spec fn search_vend(c: FieldConfig, s: int) -> int {
    let v = s + MAX_WAIT_TICKS * c.models + 1;
    if v < MAX_SFMT_FRAME + 1 {
        v
    } else {
        MAX_SFMT_FRAME + 1
    }
}

/// A start's observed blinks must lie within the search range, and at
/// least one step past the start.
pub open spec fn search_scan_end(c: FieldConfig, s: int) -> int {
    if c.range_end > s + 1 {
        c.range_end as int
    } else {
        s + 1
    }
}

pub open spec fn search_lim(c: FieldConfig, s: int) -> int {
    scan_limit(search_scan_end(c, s), search_vend(c, s))
}

/// (model, window) of every result of start `s`: every model when `all`,
/// else the observed model only.
pub open spec fn start_pairs(c: FieldConfig, all: bool, s: int) -> Seq<(int, int)> {
    let obs = c.observed_intervals@;
    let tol = c.tolerance as int;
    if all {
        start_picks(c.seed, s, c.models as nat, search_lim(c, s), MAX_WAIT_TICKS as nat, search_vend(c, s), obs, tol, 2, c.models as nat)
    } else {
        model_picks(
            c.seed,
            s,
            c.models as nat,
            c.target_model as int,
            search_lim(c, s),
            MAX_WAIT_TICKS as nat,
            search_vend(c, s),
            obs,
            tol,
            2,
        ).map_values(|w: int| (c.target_model as int, w))
    }
}

/// (start, model, window) of the results of the starts `a..a + n`.
pub open spec fn picks_from(c: FieldConfig, all: bool, a: int, n: nat) -> Seq<(int, int, int)>
    decreases n,
{
    if n == 0 {
        Seq::empty()
    } else {
        let s = a + n - 1;
        picks_from(c, all, a, (n - 1) as nat) + start_pairs(c, all, s).map_values(|p: (int, int)| (s, p.0, p.1))
    }
}

/// The first start among `a..a + n` with a result.
pub open spec fn first_candidate(c: FieldConfig, all: bool, a: int, n: nat) -> Option<int>
    decreases n,
{
    if n == 0 {
        None
    } else {
        match first_candidate(c, all, a, (n - 1) as nat) {
            Some(f) => Some(f),
            None => if start_pairs(c, all, a + n - 1).len() > 0 {
                Some(a + n - 1)
            } else {
                None
            },
        }
    }
}

/// The last start searched: `CANDIDATE_CONFIRM_SPAN` after the first start
/// with a result, within the range.
pub open spec fn confirm_end(c: FieldConfig, all: bool) -> int {
    match first_candidate(c, all, c.range_start as int, (c.range_end - c.range_start + 1) as nat) {
        Some(f) => if c.range_end < f + CANDIDATE_CONFIRM_SPAN {
            c.range_end as int
        } else {
            f + CANDIDATE_CONFIRM_SPAN
        },
        None => c.range_end as int,
    }
}

/// (start, model, window) of every result a search returns, in order.
pub open spec fn search_picks(c: FieldConfig, all: bool) -> Seq<(int, int, int)> {
    picks_from(c, all, c.range_start as int, (confirm_end(c, all) - c.range_start + 1) as nat)
}

/// `r` is the search result for `p`, target fields aside.
pub open spec fn search_result_core(r: FieldResult, c: FieldConfig, p: (int, int, int)) -> bool {
    result_core_spec(
        r,
        c.seed,
        p.0,
        c.models as nat,
        p.1,
        search_lim(c, p.0),
        MAX_WAIT_TICKS as nat,
        search_vend(c, p.0),
        c.observed_intervals@,
        p.2,
    )
}

proof fn lemma_picks_from_shape(c: FieldConfig, all: bool, a: int, n: nat)
    ensures
        forall|x: int|
            0 <= x < picks_from(c, all, a, n).len() ==> a <= (#[trigger] picks_from(c, all, a, n)[x]).0 < a + n,
        forall|x: int, y: int|
            0 <= x < y < picks_from(c, all, a, n).len() ==> (#[trigger] picks_from(c, all, a, n)[x]).0 <= (
            #[trigger] picks_from(c, all, a, n)[y]).0,
        !all ==> forall|x: int|
            0 <= x < picks_from(c, all, a, n).len() ==> (#[trigger] picks_from(c, all, a, n)[x]).1
                == c.target_model as int,
    decreases n,
{
    if n > 0 {
        let s = a + n - 1;
        let prev = picks_from(c, all, a, (n - 1) as nat);
        let tail = start_pairs(c, all, s).map_values(|p: (int, int)| (s, p.0, p.1));
        let cur = picks_from(c, all, a, n);
        lemma_picks_from_shape(c, all, a, (n - 1) as nat);
        assert(cur == prev + tail);
        assert forall|x: int| 0 <= x < cur.len() implies a <= (#[trigger] cur[x]).0 < a + n by {
            if x < prev.len() {
                assert(cur[x] == prev[x]);
            } else {
                assert(cur[x] == tail[x - prev.len()]);
            }
        }
        assert forall|x: int, y: int| 0 <= x < y < cur.len() implies (#[trigger] cur[x]).0 <= (#[trigger] cur[y]).0 by {
            if y < prev.len() {
                assert(cur[x] == prev[x]);
                assert(cur[y] == prev[y]);
            } else if x < prev.len() {
                assert(cur[x] == prev[x]);
                assert(cur[y] == tail[y - prev.len()]);
            } else {
                assert(cur[x] == tail[x - prev.len()]);
                assert(cur[y] == tail[y - prev.len()]);
            }
        }
        if !all {
            assert forall|x: int| 0 <= x < cur.len() implies (#[trigger] cur[x]).1 == c.target_model as int by {
                if x < prev.len() {
                    assert(cur[x] == prev[x]);
                } else {
                    assert(cur[x] == tail[x - prev.len()]);
                }
            }
        }
    }
}

/// Every result of a field search comes from a start inside the requested
/// range, no later than the confirmation span after the first match, and the
/// results come in ascending start order. When the observed model is known,
/// every result is for that model: the search never falls back to another.
pub proof fn lemma_search_results_in_range_and_order(c: FieldConfig, all: bool)
    requires
        c.range_start <= c.range_end,
    ensures
        c.range_start <= confirm_end(c, all) <= c.range_end,
        forall|x: int|
            0 <= x < search_picks(c, all).len() ==> c.range_start <= (#[trigger] search_picks(c, all)[x]).0
                <= confirm_end(c, all),
        forall|x: int, y: int|
            0 <= x < y < search_picks(c, all).len() ==> (#[trigger] search_picks(c, all)[x]).0 <= (
            #[trigger] search_picks(c, all)[y]).0,
        !all ==> forall|x: int|
            0 <= x < search_picks(c, all).len() ==> (#[trigger] search_picks(c, all)[x]).1 == c.target_model as int,
{
    let n = (c.range_end - c.range_start + 1) as nat;
    lemma_first_candidate_in_range(c, all, c.range_start as int, n);
    lemma_picks_from_shape(c, all, c.range_start as int, (confirm_end(c, all) - c.range_start + 1) as nat);
}

proof fn lemma_first_candidate_in_range(c: FieldConfig, all: bool, a: int, n: nat)
    ensures
        first_candidate(c, all, a, n) matches Some(f) ==> a <= f < a + n,
    decreases n,
{
    if n > 0 {
        lemma_first_candidate_in_range(c, all, a, (n - 1) as nat);
    }
}

proof fn lemma_first_candidate_stable(c: FieldConfig, all: bool, a: int, n: nat, m: nat)
    requires
        n <= m,
        first_candidate(c, all, a, n) is Some,
    ensures
        first_candidate(c, all, a, m) == first_candidate(c, all, a, n),
    decreases m - n,
{
    if n < m {
        lemma_first_candidate_stable(c, all, a, n, (m - 1) as nat);
    }
}

proof fn lemma_first_candidate_range(c: FieldConfig, all: bool, a: int, n: nat)
    ensures
        first_candidate(c, all, a, n) matches Some(f) ==> a <= f < a + n && start_pairs(c, all, f).len() > 0,
    decreases n,
{
    if n > 0 {
        lemma_first_candidate_range(c, all, a, (n - 1) as nat);
    }
}

/// Tries the candidate starts of the range in order and keeps the results
/// of the starts up to `CANDIDATE_CONFIRM_SPAN` after the first one that
/// matches.
fn search_candidates(c: &FieldConfig, all: bool) -> (r: Vec<FieldResult>)
    requires
        static_config_error(*c) is None,
    ensures
        r@.len() == search_picks(*c, all).len(),
        forall|x: int| 0 <= x < r@.len() ==> {
            &&& search_result_core(#[trigger] r@[x], *c, search_picks(*c, all)[x])
            &&& no_target(r@[x])
        },
{
    let rs = c.range_start;
    let re = c.range_end;
    let models = c.models;
    let ghost n_all = (re - rs + 1) as nat;
    let wait_span: i64 = MAX_WAIT_TICKS * models as i64;
    let stream_end: i64 = if re + wait_span + 8 < MAX_SFMT_FRAME {
        re + wait_span + 8
    } else {
        MAX_SFMT_FRAME
    };
    let count: i64 = stream_end - rs + 1;
    let values = generate_u64_values_from(c.seed, rs as usize, count as usize);
    let mut results: Vec<FieldResult> = Vec::new();
    let mut found = false;
    let mut bound = re;
    let mut s = rs;
    while s <= bound
        invariant
            static_config_error(*c) is None,
            rs == c.range_start,
            re == c.range_end,
            models == c.models,
            wait_span == MAX_WAIT_TICKS * models,
            stream_end == if re + wait_span + 8 < MAX_SFMT_FRAME { re + wait_span + 8 } else { MAX_SFMT_FRAME as int },
            values@.len() == stream_end - rs + 1,
            stream_from(values@, c.seed, rs as int),
            rs <= s <= bound + 1,
            bound <= re,
            found == first_candidate(*c, all, rs as int, (s - rs) as nat) is Some,
            found ==> bound == if re < first_candidate(*c, all, rs as int, (s - rs) as nat)->0 + CANDIDATE_CONFIRM_SPAN {
                re as int
            } else {
                first_candidate(*c, all, rs as int, (s - rs) as nat)->0 + CANDIDATE_CONFIRM_SPAN
            },
            !found ==> bound == re,
            results@.len() == picks_from(*c, all, rs as int, (s - rs) as nat).len(),
            forall|x: int| 0 <= x < results@.len() ==> {
                &&& search_result_core(#[trigger] results@[x], *c, picks_from(*c, all, rs as int, (s - rs) as nat)[x])
                &&& no_target(results@[x])
            },
        decreases bound + 1 - s,
    {
        let reach = s + wait_span + 1;
        let vend: i64 = if reach < MAX_SFMT_FRAME + 1 {
            reach
        } else {
            MAX_SFMT_FRAME + 1
        };
        let scan_end: i64 = if re > s + 1 {
            re
        } else {
            s + 1
        };
        let ghost prior = picks_from(*c, all, rs as int, (s - rs) as nat);
        let ghost before = results@;
        let ghost pairs = start_pairs(*c, all, s as int);
        let mut start_results = if all {
            search_start_results(
                values.as_slice(),
                rs,
                vend,
                s,
                models,
                scan_end,
                MAX_WAIT_TICKS,
                &c.observed_intervals,
                c.tolerance,
                2,
                Ghost(c.seed),
            )
        } else {
            let v = search_start_model_results(
                values.as_slice(),
                rs,
                vend,
                s,
                models,
                scan_end,
                MAX_WAIT_TICKS,
                &c.observed_intervals,
                c.tolerance,
                2,
                c.target_model,
                Ghost(c.seed),
            );
            v
        };
        let ghost added = start_results@;
        assert(added.len() == pairs.len());
        assert forall|x: int| 0 <= x < added.len() implies {
            &&& result_core_spec(
                #[trigger] added[x],
                c.seed,
                s as int,
                c.models as nat,
                pairs[x].0,
                search_lim(*c, s as int),
                MAX_WAIT_TICKS as nat,
                search_vend(*c, s as int),
                c.observed_intervals@,
                pairs[x].1,
            )
            &&& no_target(added[x])
        } by {
        }
        if !found && start_results.len() > 0 {
            found = true;
            bound = if re < s + CANDIDATE_CONFIRM_SPAN {
                re
            } else {
                s + CANDIDATE_CONFIRM_SPAN
            };
        }
        results.append(&mut start_results);
        proof {
            let next = picks_from(*c, all, rs as int, (s + 1 - rs) as nat);
            assert((s + 1 - rs) as nat - 1 == (s - rs) as nat);
            assert(next =~= prior + pairs.map_values(|p: (int, int)| (s as int, p.0, p.1)));
            assert(results@ =~= before + added);
            assert forall|x: int| 0 <= x < results@.len() implies {
                &&& search_result_core(#[trigger] results@[x], *c, next[x])
                &&& no_target(results@[x])
            } by {
                if x >= before.len() {
                    assert(results@[x] == added[x - before.len()]);
                    assert(next[x] == (s as int, pairs[x - before.len()].0, pairs[x - before.len()].1));
                } else {
                    assert(results@[x] == before[x]);
                    assert(next[x] == prior[x]);
                }
            }
        }
        s = s + 1;
    }
    proof {
        if found {
            lemma_first_candidate_stable(*c, all, rs as int, (s - rs) as nat, n_all);
            lemma_first_candidate_range(*c, all, rs as int, (s - rs) as nat);
        }
    }
    results
}

/// Results that can be continued from their saved state.
pub open spec fn resumable(r: FieldResult) -> bool {
    &&& resume_cursor(r) is Some ==> resume_cursor(r)->0.status.remain@.len() <= i64::MAX
    &&& r.last_wait_frame >= -0x4000_0000_0000_0000
}

/// Locates `target` on each result, keeping the order.
fn apply_targets(results: Vec<FieldResult>, seed: u32, target: i64) -> (r: Vec<FieldResult>)
    requires
        forall|x: int| 0 <= x < results@.len() ==> resumable(#[trigger] results@[x]),
    ensures
        r@.len() == results@.len(),
        forall|x: int| 0 <= x < r@.len() ==> target_applied(#[trigger] r@[x], results@[x], seed, target as int),
{
    let ghost orig = results@;
    let n = results.len();
    let mut pending = results;
    let mut reversed: Vec<FieldResult> = Vec::new();
    while pending.len() > 0
        invariant
            n == orig.len(),
            pending@ == orig.take(pending@.len() as int),
            pending@.len() + reversed@.len() == n,
            forall|x: int| 0 <= x < orig.len() ==> resumable(#[trigger] orig[x]),
            forall|j: int| 0 <= j < reversed@.len() ==> target_applied(
                #[trigger] reversed@[j],
                orig[n - 1 - j],
                seed,
                target as int,
            ),
        decreases pending@.len(),
    {
        let item = match pending.pop() {
            Some(x) => x,
            None => {
                proof { assert(false); }
                return Vec::new();
            },
        };
        assert(item == orig[pending@.len() as int]);
        assert(pending@ =~= orig.take(pending@.len() as int));
        let done = apply_target_from_cursor(item, seed, target);
        reversed.push(done);
    }
    let mut out: Vec<FieldResult> = Vec::new();
    while reversed.len() > 0
        invariant
            n == orig.len(),
            reversed@.len() + out@.len() == n,
            forall|j: int| 0 <= j < reversed@.len() ==> target_applied(
                #[trigger] reversed@[j],
                orig[n - 1 - j],
                seed,
                target as int,
            ),
            forall|k: int| 0 <= k < out@.len() ==> target_applied(#[trigger] out@[k], orig[k], seed, target as int),
        decreases reversed@.len(),
    {
        let ghost rlen = reversed@.len();
        let item = match reversed.pop() {
            Some(x) => x,
            None => {
                proof { assert(false); }
                return Vec::new();
            },
        };
        assert(target_applied(item, orig[n - 1 - (rlen - 1)], seed, target as int));
        out.push(item);
    }
    out
}

/// Results of the search, target fields aside, are kept by locating a
/// target.
proof fn lemma_core_untargeted(a: FieldResult, b: FieldResult, c: FieldConfig, p: (int, int, int))
    requires
        same_untargeted(a, b),
        search_result_core(b, c, p),
    ensures
        search_result_core(a, c, p),
{
}

/// A search result can be continued from its saved state.
proof fn lemma_core_resumable(r: FieldResult, c: FieldConfig, p: (int, int, int))
    requires
        search_result_core(r, c, p),
        1 <= c.models <= MAX_MODELS,
    ensures
        resumable(r),
{
    let t = r.target_cursor->0.tick;
    lemma_tl_remain_len(c.seed, p.0, c.models as nat, t as nat);
}

/// The field search for a known observed model: every candidate start of
/// the range in order, kept up to `CANDIDATE_CONFIRM_SPAN` after the first
/// match, with the target located on each when one is given.
pub fn search(config: &FieldConfig) -> (r: Result<Vec<FieldResult>, String>)
    ensures
        config_error(*config) is Some ==> r is Err && r->Err_0@ == field_error_message(config_error(*config)->0),
        config_error(*config) is None ==> r is Ok && {
            let p = search_picks(*config, false);
            let v = r->Ok_0@;
            &&& v.len() == p.len()
            &&& forall|x: int| 0 <= x < v.len() ==> {
                &&& search_result_core(#[trigger] v[x], *config, p[x])
                &&& config.target_consumption is None ==> no_target(v[x])
                &&& config.target_consumption is Some ==> target_fields(v[x], config.seed, config.target_consumption->0 as int)
            }
        },
{
    match validate(config) {
        Err(e) => return Err(e),
        Ok(()) => {},
    }
    let results = search_candidates(config, false);
    let ghost p = search_picks(*config, false);
    match config.target_consumption {
        None => Ok(results),
        Some(t) => {
            let ghost before = results@;
            proof {
                assert forall|x: int| 0 <= x < before.len() implies resumable(#[trigger] before[x]) by {
                    lemma_core_resumable(before[x], *config, p[x]);
                }
            }
            let targeted = apply_targets(results, config.seed, t);
            proof {
                assert forall|x: int| 0 <= x < targeted@.len() implies {
                    &&& search_result_core(#[trigger] targeted@[x], *config, p[x])
                    &&& target_fields(targeted@[x], config.seed, t as int)
                } by {
                    lemma_core_untargeted(targeted@[x], before[x], *config, p[x]);
                    lemma_target_applied_own(targeted@[x], before[x], config.seed, t as int);
                }
            }
            Ok(targeted)
        },
    }
}

/// The field search when the observed model is unknown: every model is
/// tried at each start, and no target is located.
pub fn search_without_target_model(config: &FieldConfig) -> (r: Result<Vec<FieldResult>, String>)
    ensures
        config_error(*config) is Some ==> r is Err && r->Err_0@ == field_error_message(config_error(*config)->0),
        config_error(*config) is None ==> r is Ok && {
            let p = search_picks(*config, true);
            let v = r->Ok_0@;
            &&& v.len() == p.len()
            &&& forall|x: int| 0 <= x < v.len() ==> search_result_core(#[trigger] v[x], *config, p[x]) && no_target(v[x])
        },
{
    match validate(config) {
        Err(e) => return Err(e),
        Ok(()) => {},
    }
    Ok(search_candidates(config, true))
}

/// A display-frame interval rounded to ticks (halves away from zero).
pub open spec fn anchored_tick(f: int) -> int {
    if f >= 0 {
        (f + 1) / 2
    } else {
        -((-f + 1) / 2)
    }
}

pub open spec fn anchored_obs(c: FieldConfig) -> Seq<i64> {
    c.observed_intervals@.map_values(|f: i64| anchored_tick(f as int) as i64)
}

/// Ticks the anchored scan runs: one per position of the range, plus one.
pub open spec fn anchored_ticks(c: FieldConfig) -> nat {
    (c.range_end - c.range_start + 1) as nat
}

/// Every position below this can be read by the anchored search.
pub open spec fn anchored_vend(c: FieldConfig) -> int {
    let e = c.range_start + (c.models - 1) + (c.range_end - c.range_start + 1) * c.models + 8;
    (if e < MAX_SFMT_FRAME {
        e
    } else {
        MAX_SFMT_FRAME as int
    }) + 1
}

pub open spec fn anchored_pairs(c: FieldConfig, all: bool, s: int) -> Seq<(int, int)> {
    let v = anchored_vend(c);
    let obs = anchored_obs(c);
    if all {
        start_picks(c.seed, s, c.models as nat, v, anchored_ticks(c), v, obs, ANCHORED_TOLERANCE_TICKS as int, 1, c.models as nat)
    } else {
        model_picks(
            c.seed,
            s,
            c.models as nat,
            c.target_model as int,
            v,
            anchored_ticks(c),
            v,
            obs,
            ANCHORED_TOLERANCE_TICKS as int,
            1,
        ).map_values(|w: int| (c.target_model as int, w))
    }
}

/// (start, model, window) of the anchored results of the first `n`
/// starts, the starts being `range_start` onwards.
pub open spec fn anchored_picks_from(c: FieldConfig, all: bool, n: nat) -> Seq<(int, int, int)>
    decreases n,
{
    if n == 0 {
        Seq::empty()
    } else {
        let s = c.range_start + n - 1;
        anchored_picks_from(c, all, (n - 1) as nat) + anchored_pairs(c, all, s).map_values(
            |p: (int, int)| (s, p.0, p.1),
        )
    }
}

/// The anchored search tries one start per model.
pub open spec fn anchored_picks(c: FieldConfig, all: bool) -> Seq<(int, int, int)> {
    anchored_picks_from(c, all, c.models as nat)
}

pub open spec fn anchored_result_core(r: FieldResult, c: FieldConfig, p: (int, int, int)) -> bool {
    result_core_spec(
        r,
        c.seed,
        p.0,
        c.models as nat,
        p.1,
        anchored_vend(c),
        anchored_ticks(c),
        anchored_vend(c),
        anchored_obs(c),
        p.2,
    )
}

fn round_to_tick(f: i64) -> (r: i64)
    ensures
        r == anchored_tick(f as int),
{
    if f >= 0 {
        (((f as u64) + 1) / 2) as i64
    } else {
        let g: u64 = (-(f as i128)) as u64;
        -(((g + 1) / 2) as i64)
    }
}

proof fn lemma_anchored_resumable(r: FieldResult, c: FieldConfig, p: (int, int, int))
    requires
        anchored_result_core(r, c, p),
        1 <= c.models <= MAX_MODELS,
    ensures
        resumable(r),
{
    let t = r.target_cursor->0.tick;
    lemma_tl_remain_len(c.seed, p.0, c.models as nat, t as nat);
}

/// The anchored field search: the observed intervals are compared in
/// ticks with a fixed tolerance, from one start per model at the range
/// start, over as many ticks as the range is wide. The target is located
/// only when the observed model is known.
pub fn search_anchored(config: &FieldConfig, all_models: bool) -> (r: Result<Vec<FieldResult>, String>)
    ensures
        static_config_error(*config) is Some ==> r is Err && r->Err_0@ == field_error_message(
            static_config_error(*config)->0,
        ),
        static_config_error(*config) is None ==> r is Ok && {
            let p = anchored_picks(*config, all_models);
            let v = r->Ok_0@;
            &&& v.len() == p.len()
            &&& forall|x: int| 0 <= x < v.len() ==> {
                &&& anchored_result_core(#[trigger] v[x], *config, p[x])
                &&& (all_models || config.target_consumption is None) ==> no_target(v[x])
                &&& (!all_models && config.target_consumption is Some) ==> target_fields(
                    v[x],
                    config.seed,
                    config.target_consumption->0 as int,
                )
            }
        },
{
    match validate_static_config(config) {
        Err(e) => return Err(e),
        Ok(()) => {},
    }
    let rs = config.range_start;
    let re = config.range_end;
    let models = config.models;
    let ghost c = *config;
    let mut obs: Vec<i64> = Vec::new();
    let mut j: usize = 0;
    while j < config.observed_intervals.len()
        invariant
            j <= config.observed_intervals@.len(),
            obs@ == anchored_obs(*config).take(j as int),
        decreases config.observed_intervals@.len() - j,
    {
        let t = round_to_tick(config.observed_intervals[j]);
        obs.push(t);
        proof {
            assert(obs@ =~= anchored_obs(*config).take(j + 1));
        }
        j = j + 1;
    }
    assert(obs@ =~= anchored_obs(*config));
    let n_ticks: i64 = re - rs + 1;
    assert(n_ticks * models <= 100_001 * 256) by (nonlinear_arith)
        requires
            0 <= n_ticks <= 100_001,
            0 <= models <= 256;
    let span: i64 = rs + (models as i64 - 1) + n_ticks * models as i64 + 8;
    let last: i64 = if span < MAX_SFMT_FRAME {
        span
    } else {
        MAX_SFMT_FRAME
    };
    let count: i64 = last - rs + 1;
    let vend: i64 = last + 1;
    assert(vend == anchored_vend(*config));
    let values = generate_u64_values_from(config.seed, rs as usize, count as usize);
    let mut results: Vec<FieldResult> = Vec::new();
    let mut k: usize = 0;
    while k < models
        invariant
            static_config_error(*config) is None,
            rs == config.range_start,
            models == config.models,
            n_ticks == anchored_ticks(*config),
            0 <= n_ticks <= MAX_SCAN_TICKS,
            vend == anchored_vend(*config),
            values@.len() == vend - rs,
            stream_from(values@, config.seed, rs as int),
            obs@ == anchored_obs(*config),
            k <= models,
            results@.len() == anchored_picks_from(*config, all_models, k as nat).len(),
            forall|x: int| 0 <= x < results@.len() ==> {
                &&& anchored_result_core(#[trigger] results@[x], *config, anchored_picks_from(*config, all_models, k as nat)[x])
                &&& no_target(results@[x])
            },
        decreases models - k,
    {
        let s = rs + k as i64;
        let ghost prior = anchored_picks_from(*config, all_models, k as nat);
        let ghost before = results@;
        let ghost pairs = anchored_pairs(*config, all_models, s as int);
        assert(scan_limit(i64::MAX as int, vend as int) == vend);
        let mut start_results = if all_models {
            search_start_results(
                values.as_slice(),
                rs,
                vend,
                s,
                models,
                i64::MAX,
                n_ticks,
                &obs,
                ANCHORED_TOLERANCE_TICKS,
                1,
                Ghost(config.seed),
            )
        } else {
            let v = search_start_model_results(
                values.as_slice(),
                rs,
                vend,
                s,
                models,
                i64::MAX,
                n_ticks,
                &obs,
                ANCHORED_TOLERANCE_TICKS,
                1,
                config.target_model,
                Ghost(config.seed),
            );
            v
        };
        let ghost added = start_results@;
        results.append(&mut start_results);
        proof {
            let next = anchored_picks_from(*config, all_models, (k + 1) as nat);
            assert((k + 1) as nat - 1 == k as nat);
            assert(next =~= prior + pairs.map_values(|p: (int, int)| (s as int, p.0, p.1)));
            assert(results@ =~= before + added);
            assert forall|x: int| 0 <= x < results@.len() implies {
                &&& anchored_result_core(#[trigger] results@[x], *config, next[x])
                &&& no_target(results@[x])
            } by {
                if x >= before.len() {
                    assert(results@[x] == added[x - before.len()]);
                    assert(next[x] == (s as int, pairs[x - before.len()].0, pairs[x - before.len()].1));
                } else {
                    assert(results@[x] == before[x]);
                    assert(next[x] == prior[x]);
                }
            }
        }
        k = k + 1;
    }
    let ghost p = anchored_picks(*config, all_models);
    if all_models {
        return Ok(results);
    }
    match config.target_consumption {
        None => Ok(results),
        Some(t) => {
            let ghost before = results@;
            proof {
                assert forall|x: int| 0 <= x < before.len() implies resumable(#[trigger] before[x]) by {
                    lemma_anchored_resumable(before[x], *config, p[x]);
                }
            }
            let targeted = apply_targets(results, config.seed, t);
            proof {
                assert forall|x: int| 0 <= x < targeted@.len() implies {
                    &&& anchored_result_core(#[trigger] targeted@[x], *config, p[x])
                    &&& target_fields(targeted@[x], config.seed, t as int)
                } by {
                    lemma_target_applied_own(targeted@[x], before[x], config.seed, t as int);
                }
            }
            Ok(targeted)
        },
    }
}

} // verus!
