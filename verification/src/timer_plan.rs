//! The plain countdown timer: the enabled offsets are timed top to bottom,
//! then the actual wait. This module reads the frame fields and plans the
//! segments; running the clock is the caller's business.

use vstd::prelude::*;
use crate::state_types::NormalTimerSegment;
use crate::text::{parsed_i64, trimmed, decimal_text, trim_text, parse_i64, join_text, number_text};

verus! {

/// Why the timer fields were refused.
#[derive(Clone, Copy, Debug, PartialEq, Eq, Structural)]
pub enum TimerInputError {
    WaitNotInteger,
    WaitNegative,
    /// The offset at this index (0-based) is not an integer.
    OffsetNotInteger(usize),
    /// The offset at this index (0-based) is negative.
    OffsetNegative(usize),
    TotalTooLarge,
}

pub open spec fn timer_error_message(e: TimerInputError) -> Seq<char> {
    match e {
        TimerInputError::WaitNotInteger => "実際の待機Frameは整数で入力してください。"@,
        TimerInputError::WaitNegative => "実際の待機Frameは0以上で入力してください。"@,
        TimerInputError::OffsetNotInteger(i) => "オフセット"@ + decimal_text((i + 1) as nat)
            + "は整数で入力してください。"@,
        TimerInputError::OffsetNegative(i) => "オフセット"@ + decimal_text((i + 1) as nat)
            + "は0以上で入力してください。"@,
        TimerInputError::TotalTooLarge => "待機Frameの合計が大きすぎます。"@,
    }
}

/// An offset without a flag of its own counts as enabled.
pub open spec fn offset_enabled_at(enabled: Seq<bool>, i: int) -> bool {
    i >= enabled.len() || enabled[i]
}

pub open spec fn texts(v: Seq<String>) -> Seq<Seq<char>> {
    v.map_values(|s: String| s@)
}

/// Running total of the wait and the enabled offsets among the first `n`,
/// or the first problem met on the way.
pub open spec fn offsets_total(wait: int, offsets: Seq<Seq<char>>, enabled: Seq<bool>, n: nat) -> Result<
    int,
    TimerInputError,
>
    decreases n,
{
    if n == 0 {
        Ok(wait)
    } else {
        let i = n - 1;
        match offsets_total(wait, offsets, enabled, (n - 1) as nat) {
            Err(e) => Err(e),
            Ok(t) => if !offset_enabled_at(enabled, i) {
                Ok(t)
            } else {
                match parsed_i64(trimmed(offsets[i])) {
                    None => Err(TimerInputError::OffsetNotInteger(i as usize)),
                    Some(v) => if v < 0 {
                        Err(TimerInputError::OffsetNegative(i as usize))
                    } else if t + v > i64::MAX {
                        Err(TimerInputError::TotalTooLarge)
                    } else {
                        Ok(t + v)
                    },
                }
            },
        }
    }
}

/// The total frames the timer runs, or why the fields are refused.
pub open spec fn total_frames_spec(wait: Seq<char>, offsets: Seq<Seq<char>>, enabled: Seq<bool>) -> Result<
    int,
    TimerInputError,
> {
    match parsed_i64(trimmed(wait)) {
        None => Err(TimerInputError::WaitNotInteger),
        Some(w) => if w < 0 {
            Err(TimerInputError::WaitNegative)
        } else {
            offsets_total(w as int, offsets, enabled, offsets.len())
        },
    }
}

/// The enabled offsets among the first `n`, in order, as timer segments.
pub open spec fn offset_segments(offsets: Seq<Seq<char>>, enabled: Seq<bool>, n: nat) -> Seq<
    (NormalTimerSegment, i64),
>
    decreases n,
{
    if n == 0 {
        Seq::empty()
    } else {
        let i = n - 1;
        let prev = offset_segments(offsets, enabled, (n - 1) as nat);
        if offset_enabled_at(enabled, i) {
            prev.push((NormalTimerSegment::Offset(i as usize), parsed_i64(trimmed(offsets[i]))->0))
        } else {
            prev
        }
    }
}

fn timer_message(e: TimerInputError) -> (r: String)
    requires
        e matches TimerInputError::OffsetNotInteger(i) ==> i < usize::MAX,
        e matches TimerInputError::OffsetNegative(i) ==> i < usize::MAX,
    ensures
        r@ == timer_error_message(e),
{
    match e {
        TimerInputError::WaitNotInteger => "実際の待機Frameは整数で入力してください。".to_owned(),
        TimerInputError::WaitNegative => "実際の待機Frameは0以上で入力してください。".to_owned(),
        TimerInputError::OffsetNotInteger(i) => {
            let head = join_text("オフセット", &number_text((i + 1) as u64));
            join_text(&head, "は整数で入力してください。")
        },
        TimerInputError::OffsetNegative(i) => {
            let head = join_text("オフセット", &number_text((i + 1) as u64));
            join_text(&head, "は0以上で入力してください。")
        },
        TimerInputError::TotalTooLarge => "待機Frameの合計が大きすぎます。".to_owned(),
    }
}

fn enabled_at(enabled: &Vec<bool>, i: usize) -> (r: bool)
    ensures
        r == offset_enabled_at(enabled@, i as int),
{
    if i < enabled.len() {
        enabled[i]
    } else {
        true
    }
}

fn total_frames_checked(wait_frames: &str, offsets: &Vec<String>, offset_enabled: &Vec<bool>) -> (r: Result<
    i64,
    TimerInputError,
>)
    ensures
        match total_frames_spec(wait_frames@, texts(offsets@), offset_enabled@) {
            Ok(t) => r == Ok::<i64, TimerInputError>(t as i64),
            Err(e) => r == Err::<i64, TimerInputError>(e),
        },
        r matches Err(TimerInputError::OffsetNotInteger(i)) ==> i < offsets@.len(),
        r matches Err(TimerInputError::OffsetNegative(i)) ==> i < offsets@.len(),
{
    let ghost offs = texts(offsets@);
    let wait = match parse_i64(trim_text(wait_frames)) {
        Some(w) => w,
        None => return Err(TimerInputError::WaitNotInteger),
    };
    if wait < 0 {
        return Err(TimerInputError::WaitNegative);
    }
    let mut total: i64 = wait;
    let mut i: usize = 0;
    while i < offsets.len()
        invariant
            i <= offsets@.len(),
            offs == texts(offsets@),
            0 <= wait,
            parsed_i64(trimmed(wait_frames@)) == Some(wait),
            offsets_total(wait as int, offs, offset_enabled@, i as nat) == Ok::<int, TimerInputError>(
                total as int,
            ),
        decreases offsets@.len() - i,
    {
        if enabled_at(offset_enabled, i) {
            assert(offs[i as int] == offsets@[i as int]@);
            let value = match parse_i64(trim_text(offsets[i].as_str())) {
                Some(v) => v,
                None => {
                    proof {
                        lemma_total_err_persists(wait as int, offs, offset_enabled@, (i + 1) as nat, offs.len());
                    }
                    return Err(TimerInputError::OffsetNotInteger(i));
                },
            };
            if value < 0 {
                proof {
                    lemma_total_err_persists(wait as int, offs, offset_enabled@, (i + 1) as nat, offs.len());
                }
                return Err(TimerInputError::OffsetNegative(i));
            }
            total = match total.checked_add(value) {
                Some(t) => t,
                None => {
                    proof {
                        lemma_total_err_persists(wait as int, offs, offset_enabled@, (i + 1) as nat, offs.len());
                    }
                    return Err(TimerInputError::TotalTooLarge);
                },
            };
        }
        i = i + 1;
    }
    Ok(total)
}

/// Total frames of the plain timer: the wait plus every enabled offset.
/// The error text names the first field that is refused.
pub fn normal_timer_total_frames(wait_frames: &str, offsets: &Vec<String>, offset_enabled: &Vec<bool>) -> (r:
    Result<i64, String>)
    ensures
        match total_frames_spec(wait_frames@, texts(offsets@), offset_enabled@) {
            Ok(t) => r == Ok::<i64, String>(t as i64),
            Err(e) => r is Err && r->Err_0@ == timer_error_message(e),
        },
{
    let _count = offsets.len();
    match total_frames_checked(wait_frames, offsets, offset_enabled) {
        Ok(t) => Ok(t),
        Err(e) => Err(timer_message(e)),
    }
}

/// The segments the plain timer runs: the enabled offsets top to bottom,
/// then the wait. Refused exactly when the total is.
pub fn normal_timer_segment_plan(wait_frames: &str, offsets: &Vec<String>, offset_enabled: &Vec<bool>) -> (r:
    Result<Vec<(NormalTimerSegment, i64)>, String>)
    ensures
        match total_frames_spec(wait_frames@, texts(offsets@), offset_enabled@) {
            Ok(t) => r is Ok && r->Ok_0@ == offset_segments(texts(offsets@), offset_enabled@, offsets@.len()).push(
                (NormalTimerSegment::Wait, parsed_i64(trimmed(wait_frames@))->0),
            ),
            Err(e) => r is Err && r->Err_0@ == timer_error_message(e),
        },
{
    let ghost offs = texts(offsets@);
    let _count = offsets.len();
    match total_frames_checked(wait_frames, offsets, offset_enabled) {
        Err(e) => return Err(timer_message(e)),
        Ok(_) => {},
    }
    let wait = match parse_i64(trim_text(wait_frames)) {
        Some(w) => w,
        None => {
            proof { assert(false); }
            0
        },
    };
    let mut segments: Vec<(NormalTimerSegment, i64)> = Vec::new();
    let mut i: usize = 0;
    proof {
        lemma_total_prefix_ok(wait as int, offs, offset_enabled@, offs.len());
    }
    while i < offsets.len()
        invariant
            i <= offsets@.len(),
            offs == texts(offsets@),
            forall|n: nat| n <= offs.len() ==> (#[trigger] offsets_total(wait as int, offs, offset_enabled@, n)) is Ok,
            segments@ == offset_segments(offs, offset_enabled@, i as nat),
        decreases offsets@.len() - i,
    {
        if enabled_at(offset_enabled, i) {
            assert(offs[i as int] == offsets@[i as int]@);
            assert(offsets_total(wait as int, offs, offset_enabled@, (i + 1) as nat) is Ok);
            let value = match parse_i64(trim_text(offsets[i].as_str())) {
                Some(v) => v,
                None => {
                    proof { assert(false); }
                    0
                },
            };
            segments.push((NormalTimerSegment::Offset(i), value));
        }
        i = i + 1;
    }
    segments.push((NormalTimerSegment::Wait, wait));
    Ok(segments)
}

/// The frames a list of segments runs for, one after another.
pub open spec fn segments_frames(s: Seq<(NormalTimerSegment, i64)>) -> int
    decreases s.len(),
{
    if s.len() == 0 {
        0
    } else {
        segments_frames(s.drop_last()) + s.last().1
    }
}

proof fn lemma_prefix_frames(wait: int, offsets: Seq<Seq<char>>, enabled: Seq<bool>, n: nat)
    requires
        offsets_total(wait, offsets, enabled, n) is Ok,
    ensures
        offsets_total(wait, offsets, enabled, n) == Ok::<int, TimerInputError>(
            wait + segments_frames(offset_segments(offsets, enabled, n)),
        ),
    decreases n,
{
    if n > 0 {
        let i = n - 1;
        let prev = offset_segments(offsets, enabled, (n - 1) as nat);
        lemma_total_prefix_ok(wait, offsets, enabled, n);
        lemma_prefix_frames(wait, offsets, enabled, (n - 1) as nat);
        if offset_enabled_at(enabled, i) {
            let seg = (NormalTimerSegment::Offset(i as usize), parsed_i64(trimmed(offsets[i]))->0);
            assert(prev.push(seg).drop_last() =~= prev);
        }
    }
}

/// The plan the plain timer runs adds up to its total: the segments' frames,
/// taken one after another, are exactly the wait plus every enabled offset.
pub proof fn lemma_segment_plan_matches_total(wait: Seq<char>, offsets: Seq<Seq<char>>, enabled: Seq<bool>)
    requires
        total_frames_spec(wait, offsets, enabled) is Ok,
    ensures
        segments_frames(
            offset_segments(offsets, enabled, offsets.len()).push(
                (NormalTimerSegment::Wait, parsed_i64(trimmed(wait))->0),
            ),
        ) == total_frames_spec(wait, offsets, enabled)->Ok_0,
{
    let w = parsed_i64(trimmed(wait))->0;
    let segs = offset_segments(offsets, enabled, offsets.len());
    lemma_prefix_frames(w as int, offsets, enabled, offsets.len());
    assert(segs.push((NormalTimerSegment::Wait, w)).drop_last() =~= segs);
}

/// Only enabled offsets are timed, each at most once, in their own order.
pub proof fn lemma_segment_plan_keeps_enabled_in_order(offsets: Seq<Seq<char>>, enabled: Seq<bool>, n: nat)
    requires
        n <= usize::MAX,
    ensures
        forall|k: int| 0 <= k < offset_segments(offsets, enabled, n).len() ==> {
            let seg = #[trigger] offset_segments(offsets, enabled, n)[k];
            &&& seg.0 is Offset
            &&& (seg.0->Offset_0 as int) < n
            &&& offset_enabled_at(enabled, seg.0->Offset_0 as int)
        },
        forall|a: int, b: int|
            0 <= a < b < offset_segments(offsets, enabled, n).len() ==> (offset_segments(
                offsets,
                enabled,
                n,
            )[a].0->Offset_0 as int) < (offset_segments(offsets, enabled, n)[b].0->Offset_0 as int),
        forall|i: int|
            0 <= i < n && offset_enabled_at(enabled, i) ==> exists|k: int|
                0 <= k < offset_segments(offsets, enabled, n).len() && #[trigger] offset_segments(
                    offsets,
                    enabled,
                    n,
                )[k].0 == NormalTimerSegment::Offset(i as usize),
    decreases n,
{
    if n > 0 {
        lemma_segment_plan_keeps_enabled_in_order(offsets, enabled, (n - 1) as nat);
        let prev = offset_segments(offsets, enabled, (n - 1) as nat);
        let cur = offset_segments(offsets, enabled, n);
        let i = n - 1;
        if offset_enabled_at(enabled, i) {
            let seg = (NormalTimerSegment::Offset(i as usize), parsed_i64(trimmed(offsets[i]))->0);
            assert(cur == prev.push(seg));
            assert forall|k: int| 0 <= k < cur.len() implies {
                let sg = #[trigger] cur[k];
                &&& sg.0 is Offset
                &&& (sg.0->Offset_0 as int) < n
                &&& offset_enabled_at(enabled, sg.0->Offset_0 as int)
            } by {
                if k < prev.len() {
                    assert(cur[k] == prev[k]);
                }
            }
            assert forall|a: int, b: int| 0 <= a < b < cur.len() implies (cur[a].0->Offset_0 as int) < (
            cur[b].0->Offset_0 as int) by {
                assert(cur[a] == prev[a]);
                if b < prev.len() {
                    assert(cur[b] == prev[b]);
                }
            }
            assert forall|j: int| 0 <= j < n && offset_enabled_at(enabled, j) implies exists|k: int|
                0 <= k < cur.len() && #[trigger] cur[k].0 == NormalTimerSegment::Offset(j as usize) by {
                if j < i {
                    let k = choose|k: int| 0 <= k < prev.len() && #[trigger] prev[k].0 == NormalTimerSegment::Offset(j as usize);
                    assert(cur[k] == prev[k]);
                } else {
                    assert(cur[prev.len() as int].0 == NormalTimerSegment::Offset(j as usize));
                }
            }
        }
    }
}

/// Once the running total is refused, it stays refused with the same error.
proof fn lemma_total_err_persists(wait: int, offsets: Seq<Seq<char>>, enabled: Seq<bool>, n: nat, m: nat)
    requires
        n <= m,
        offsets_total(wait, offsets, enabled, n) is Err,
    ensures
        offsets_total(wait, offsets, enabled, m) == offsets_total(wait, offsets, enabled, n),
    decreases m - n,
{
    if n < m {
        lemma_total_err_persists(wait, offsets, enabled, n, (m - 1) as nat);
    }
}

/// When the total is accepted, every prefix of the running total is too.
proof fn lemma_total_prefix_ok(wait: int, offsets: Seq<Seq<char>>, enabled: Seq<bool>, n: nat)
    requires
        offsets_total(wait, offsets, enabled, n) is Ok,
    ensures
        forall|m: nat| m <= n ==> (#[trigger] offsets_total(wait, offsets, enabled, m)) is Ok,
    decreases n,
{
    if n > 0 {
        lemma_total_prefix_ok(wait, offsets, enabled, (n - 1) as nat);
    }
}

} // verus!
