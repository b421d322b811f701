//! Narrowing the field candidates with one more observed blink interval:
//! each candidate's next unobserved blink must come after about the
//! measured interval, and the survivors move their observation point to it.

use vstd::prelude::*;
use crate::field_types::{FieldResult, FieldTimelineRow, same_cursor};
use crate::field_target::{clamp_i64, saturating_sub_i64};
use crate::field_extend::rows_between;
use crate::text::{parsed_i64, trimmed, trim_text, parse_i64};

verus! {

/// Row `i` is the first row after display frame `last` that was not
/// observed.
pub open spec fn is_next_unobserved(rows: Seq<FieldTimelineRow>, last: int, i: int) -> bool {
    &&& 0 <= i < rows.len()
    &&& rows[i].timeline_frame > last
    &&& !rows[i].observed
    &&& forall|j: int| 0 <= j < i ==> !(rows[j].timeline_frame > last && !rows[j].observed)
}

/// Index of the first row after display frame `last` that was not observed.
pub open spec fn next_unobserved(rows: Seq<FieldTimelineRow>, last: int) -> Option<int> {
    if exists|i: int| is_next_unobserved(rows, last, i) {
        Some(choose|i: int| is_next_unobserved(rows, last, i))
    } else {
        None
    }
}

/// Row `i` is the first row whose display frame is after `t`.
pub open spec fn is_first_after(rows: Seq<FieldTimelineRow>, t: int, i: int) -> bool {
    &&& 0 <= i < rows.len()
    &&& rows[i].timeline_frame > t
    &&& forall|j: int| 0 <= j < i ==> rows[j].timeline_frame <= t
}

/// The first row whose display frame is after `t`.
pub open spec fn first_after(rows: Seq<FieldTimelineRow>, t: int) -> Option<int> {
    if exists|i: int| is_first_after(rows, t, i) {
        Some(choose|i: int| is_first_after(rows, t, i))
    } else {
        None
    }
}

/// Display frames are counted from the candidate's start, never negative.
pub open spec fn frames_nonnegative(r: FieldResult) -> bool {
    &&& r.last_wait_frame >= 0
    &&& forall|i: int| 0 <= i < r.timeline@.len() ==> r.timeline@[i].timeline_frame >= 0
}

/// The candidate keeps up with an interval of `expected` display frames
/// within `tolerance`: its next unobserved blink, and the interval to it.
pub open spec fn next_match(r: FieldResult, expected: i64, tolerance: i64) -> Option<(int, int)> {
    match next_unobserved(r.timeline@, r.last_wait_frame as int) {
        None => None,
        Some(i) => {
            let actual = clamp_i64(r.timeline@[i].timeline_frame - r.last_wait_frame);
            let d = actual - expected;
            if (if d < 0 { -d } else { d }) > tolerance {
                None
            } else {
                Some((i, actual))
            }
        },
    }
}

/// `out` is `inp` after observing its blink at row `i`, `actual` display
/// frames after the previous one: the row is marked observed, the
/// observation point moves there, and the waits to the next blink and to
/// the target are counted from it again.
pub open spec fn advanced(out: FieldResult, inp: FieldResult, i: int, actual: int) -> bool {
    let row = inp.timeline@[i];
    let next_wait = row.timeline_frame as int;
    let target_absolute: Option<int> = match inp.target_wait_frame {
        Some(w) => Some(clamp_i64(inp.last_wait_frame + w)),
        None => None,
    };
    &&& out.timeline@ == inp.timeline@.update(i, FieldTimelineRow { observed: true, ..row })
    &&& out.last_wait_frame == next_wait
    &&& out.last_consumption == row.frame
    &&& out.intervals@ == inp.intervals@.push(actual as i64)
    &&& out.next_blink_wait_frame == match first_after(out.timeline@, next_wait) {
        Some(j) => out.timeline@[j].timeline_frame - next_wait,
        None => 0,
    }
    &&& out.target_wait_frame == match target_absolute {
        Some(a) => if a >= next_wait {
            Some((a - next_wait) as i64)
        } else {
            None::<i64>
        },
        None => None,
    }
    &&& out.target_blink_count == match target_absolute {
        Some(a) => Some(rows_between(out.timeline@, next_wait, a) as usize),
        None => inp.target_blink_count,
    }
    &&& out.start_consumption == inp.start_consumption
    &&& out.first_wait_frame == inp.first_wait_frame
    &&& out.first_consumption == inp.first_consumption
    &&& out.target_exact == inp.target_exact
    &&& out.target_frame_before == inp.target_frame_before
    &&& out.target_frame_after == inp.target_frame_after
    &&& out.observed_model == inp.observed_model
    &&& out.models == inp.models
    &&& same_cursor(out.timeline_cursor, inp.timeline_cursor)
    &&& same_cursor(out.target_cursor, inp.target_cursor)
}

fn find_next_unobserved(rows: &Vec<FieldTimelineRow>, last: i64) -> (r: Option<usize>)
    ensures
        r matches Some(k) ==> next_unobserved(rows@, last as int) == Some(k as int) && is_next_unobserved(
            rows@,
            last as int,
            k as int,
        ),
        r is None ==> next_unobserved(rows@, last as int) is None,
{
    let mut i: usize = 0;
    while i < rows.len()
        invariant
            i <= rows@.len(),
            forall|j: int| 0 <= j < i ==> !(rows@[j].timeline_frame > last && !rows@[j].observed),
        decreases rows@.len() - i,
    {
        if rows[i].timeline_frame > last && !rows[i].observed {
            proof {
                assert(is_next_unobserved(rows@, last as int, i as int));
                let c = choose|c: int| is_next_unobserved(rows@, last as int, c);
                if c < i {
                    assert(rows@[c].timeline_frame > last && !rows@[c].observed);
                } else if c > i {
                    assert(!(rows@[i as int].timeline_frame > last && !rows@[i as int].observed));
                }
            }
            return Some(i);
        }
        i = i + 1;
    }
    proof {
        if exists|c: int| is_next_unobserved(rows@, last as int, c) {
            let c = choose|c: int| is_next_unobserved(rows@, last as int, c);
            assert(!(rows@[c].timeline_frame > last && !rows@[c].observed));
        }
    }
    None
}

fn find_first_after(rows: &Vec<FieldTimelineRow>, t: i64) -> (r: Option<usize>)
    ensures
        r matches Some(k) ==> first_after(rows@, t as int) == Some(k as int) && is_first_after(rows@, t as int, k as int),
        r is None ==> first_after(rows@, t as int) is None,
{
    let mut i: usize = 0;
    while i < rows.len()
        invariant
            i <= rows@.len(),
            forall|j: int| 0 <= j < i ==> rows@[j].timeline_frame <= t,
        decreases rows@.len() - i,
    {
        if rows[i].timeline_frame > t {
            proof {
                assert(is_first_after(rows@, t as int, i as int));
                let c = choose|c: int| is_first_after(rows@, t as int, c);
                if c < i {
                    assert(rows@[c].timeline_frame > t);
                } else if c > i {
                    assert(rows@[i as int].timeline_frame <= t);
                }
            }
            return Some(i);
        }
        i = i + 1;
    }
    proof {
        if exists|c: int| is_first_after(rows@, t as int, c) {
            let c = choose|c: int| is_first_after(rows@, t as int, c);
            assert(rows@[c].timeline_frame <= t);
        }
    }
    None
}

fn count_between(rows: &Vec<FieldTimelineRow>, lo: i64, hi: i64) -> (r: usize)
    ensures
        r == rows_between(rows@, lo as int, hi as int),
{
    let mut count: usize = 0;
    let mut i: usize = 0;
    while i < rows.len()
        invariant
            i <= rows@.len(),
            count == rows_between(rows@.subrange(0, i as int), lo as int, hi as int),
            count <= i,
        decreases rows@.len() - i,
    {
        proof {
            assert(rows@.subrange(0, i + 1).drop_last() =~= rows@.subrange(0, i as int));
        }
        let f = rows[i].timeline_frame;
        if lo < f && f <= hi {
            count = count + 1;
        }
        i = i + 1;
    }
    proof {
        assert(rows@.subrange(0, rows@.len() as int) =~= rows@);
    }
    count
}

fn sat_add(a: i64, b: i64) -> (r: i64)
    ensures
        r == clamp_i64(a + b),
{
    match a.checked_add(b) {
        Some(v) => v,
        None => if b > 0 {
            i64::MAX
        } else {
            i64::MIN
        },
    }
}

/// Observes the candidate's next blink when it comes after about `expected`
/// display frames (within `tolerance`); `None` when it does not, or when no
/// unobserved blink follows.
pub fn advance_result_by_interval(result: FieldResult, expected: i64, tolerance: i64) -> (r: Option<FieldResult>)
    requires
        frames_nonnegative(result),
    ensures
        match next_match(result, expected, tolerance) {
            None => r is None,
            Some((i, actual)) => r matches Some(out) && advanced(out, result, i, actual) && frames_nonnegative(out),
        },
{
    let mut result = result;
    let ghost inp = result;
    let previous_last = result.last_wait_frame;
    let next_index = match find_next_unobserved(&result.timeline, previous_last) {
        Some(i) => i,
        None => return None,
    };
    let next_wait = result.timeline[next_index].timeline_frame;
    let next_consumption = result.timeline[next_index].frame;
    let actual = saturating_sub_i64(next_wait, previous_last);
    let difference: i128 = actual as i128 - expected as i128;
    let magnitude: i128 = if difference < 0 {
        -difference
    } else {
        difference
    };
    if magnitude > tolerance as i128 {
        return None;
    }
    let target_absolute: Option<i64> = match result.target_wait_frame {
        Some(wait) => Some(sat_add(previous_last, wait)),
        None => None,
    };
    let row = result.timeline[next_index];
    result.timeline.set(
        next_index,
        FieldTimelineRow { frame: row.frame, timeline_frame: row.timeline_frame, duration_frames: row.duration_frames, observed: true },
    );
    result.last_wait_frame = next_wait;
    result.last_consumption = next_consumption;
    result.intervals.push(actual);
    proof {
        assert(result.timeline@ == inp.timeline@.update(next_index as int, FieldTimelineRow { observed: true, ..row }));
        assert forall|k: int| 0 <= k < result.timeline@.len() implies result.timeline@[k].timeline_frame >= 0 by {
            if k != next_index {
                assert(result.timeline@[k] == inp.timeline@[k]);
            }
        }
    }
    result.next_blink_wait_frame = match find_first_after(&result.timeline, next_wait) {
        Some(j) => result.timeline[j].timeline_frame - next_wait,
        None => 0,
    };
    result.target_wait_frame = match target_absolute {
        Some(absolute) => if absolute >= next_wait {
            Some(absolute - next_wait)
        } else {
            None
        },
        None => None,
    };
    match target_absolute {
        Some(absolute) => {
            let count = count_between(&result.timeline, next_wait, absolute);
            result.target_blink_count = Some(count);
        },
        None => {},
    }
    Some(result)
}

/// The candidates among `results[..n]` that keep up with the interval, by
/// index, in order.
pub open spec fn survivors(results: Seq<FieldResult>, expected: i64, tolerance: i64, n: nat) -> Seq<int>
    decreases n,
{
    if n == 0 {
        Seq::empty()
    } else {
        let prev = survivors(results, expected, tolerance, (n - 1) as nat);
        if next_match(results[n - 1], expected, tolerance) is Some {
            prev.push(n - 1)
        } else {
            prev
        }
    }
}

/// Narrowing only drops candidates: the survivors are distinct candidates
/// among the first `n`, kept in their original order.
pub proof fn lemma_survivors_in_order(results: Seq<FieldResult>, expected: i64, tolerance: i64, n: nat)
    ensures
        forall|j: int|
            0 <= j < survivors(results, expected, tolerance, n).len() ==> 0 <= #[trigger] survivors(
                results,
                expected,
                tolerance,
                n,
            )[j] < n,
        forall|a: int, b: int|
            0 <= a < b < survivors(results, expected, tolerance, n).len() ==> #[trigger] survivors(
                results,
                expected,
                tolerance,
                n,
            )[a] < #[trigger] survivors(results, expected, tolerance, n)[b],
    decreases n,
{
    if n > 0 {
        lemma_survivors_in_order(results, expected, tolerance, (n - 1) as nat);
        let prev = survivors(results, expected, tolerance, (n - 1) as nat);
        let cur = survivors(results, expected, tolerance, n);
        if next_match(results[n - 1], expected, tolerance) is Some {
            assert(cur == prev.push(n - 1));
            assert forall|j: int| 0 <= j < cur.len() implies 0 <= #[trigger] cur[j] < n by {
                if j < prev.len() {
                    assert(cur[j] == prev[j]);
                }
            }
            assert forall|a: int, b: int| 0 <= a < b < cur.len() implies #[trigger] cur[a] < #[trigger] cur[b] by {
                assert(cur[a] == prev[a]);
                if b < prev.len() {
                    assert(cur[b] == prev[b]);
                }
            }
        }
    }
}

/// Narrows the candidates with a newly measured interval of `expected`
/// display frames, the tolerance read from its field. A tolerance that is
/// not a non-negative integer leaves the candidates as they are; otherwise
/// the candidates that keep up survive, in order, each advanced to the
/// blink it was matched with.
pub fn advance_candidates_by_interval(results: Vec<FieldResult>, expected: i64, tolerance_text: &str) -> (r: Vec<
    FieldResult,
>)
    requires
        forall|i: int| 0 <= i < results@.len() ==> frames_nonnegative(#[trigger] results@[i]),
    ensures
        match parsed_i64(trimmed(tolerance_text@)) {
            Some(t) if t >= 0 => {
                let s = survivors(results@, expected, t, results@.len());
                &&& r@.len() == s.len()
                &&& forall|j: int| 0 <= j < s.len() ==> {
                    let m = next_match(results@[s[j]], expected, t)->0;
                    &&& advanced(#[trigger] r@[j], results@[s[j]], m.0, m.1)
                    &&& frames_nonnegative(r@[j])
                }
            },
            _ => r@.len() == results@.len() && forall|j: int| 0 <= j < r@.len() ==> #[trigger] r@[j] == results@[j],
        },
{
    let tolerance = match parse_i64(trim_text(tolerance_text)) {
        Some(t) => t,
        None => return results,
    };
    if tolerance < 0 {
        return results;
    }
    let ghost all = results@;
    let mut remaining = results;
    let mut out: Vec<FieldResult> = Vec::new();
    let mut k: usize = 0;
    let n = remaining.len();
    proof {
        assert(remaining@ =~= all.subrange(0, n as int));
    }
    while k < n
        invariant
            n == all.len(),
            k <= n,
            remaining@ == all.subrange(k as int, n as int),
            forall|i: int| 0 <= i < all.len() ==> frames_nonnegative(#[trigger] all[i]),
            out@.len() == survivors(all, expected, tolerance, k as nat).len(),
            forall|j: int| 0 <= j < out@.len() ==> {
                let s = survivors(all, expected, tolerance, k as nat);
                let m = next_match(all[s[j]], expected, tolerance)->0;
                &&& advanced(#[trigger] out@[j], all[s[j]], m.0, m.1)
                &&& frames_nonnegative(out@[j])
            },
        decreases n - k,
    {
        let candidate = remaining.remove(0);
        proof {
            assert(remaining@ =~= all.subrange(k + 1, n as int));
        }
        let ghost before = out@;
        let ghost s0 = survivors(all, expected, tolerance, k as nat);
        match advance_result_by_interval(candidate, expected, tolerance) {
            Some(advanced_result) => {
                out.push(advanced_result);
                proof {
                    let s1 = survivors(all, expected, tolerance, (k + 1) as nat);
                    assert(s1 == s0.push(k as int));
                    assert forall|j: int| 0 <= j < out@.len() implies {
                        let m = next_match(all[s1[j]], expected, tolerance)->0;
                        &&& advanced(#[trigger] out@[j], all[s1[j]], m.0, m.1)
                        &&& frames_nonnegative(out@[j])
                    } by {
                        if j < before.len() {
                            assert(out@[j] == before[j]);
                            assert(s1[j] == s0[j]);
                        }
                    }
                }
            },
            None => {
                proof {
                    let s1 = survivors(all, expected, tolerance, (k + 1) as nat);
                    assert(s1 == s0);
                }
            },
        }
        k = k + 1;
    }
    out
}

} // verus!
