//! The field blink timer's queue of upcoming blinks: display frames from
//! the last observed blink to each timeline blink still ahead, a bounded
//! number at a time, refilled from the timeline as the timer runs.

use vstd::prelude::*;
use crate::field_target::{clamp_i64, saturating_sub_i64};
use crate::field_types::{FieldResult, FieldTimelineRow};

verus! {

/// Blinks kept queued ahead of the timer.
pub const BLINK_TIMER_PREFETCH_COUNT: usize = 32;

/// The queue is refilled once it holds no more than this many blinks.
pub const BLINK_TIMER_REFILL_THRESHOLD: usize = 8;

/// The waits (from `last_wait`, saturating) to the rows whose blink comes
/// after display frame `after`, in row order.
pub open spec fn waits_after(rows: Seq<FieldTimelineRow>, last_wait: i64, after: i64) -> Seq<i64>
    decreases rows.len(),
{
    if rows.len() == 0 {
        Seq::empty()
    } else {
        let rest = waits_after(rows.drop_last(), last_wait, after);
        if rows.last().timeline_frame > after {
            rest.push(clamp_i64(rows.last().timeline_frame - last_wait) as i64)
        } else {
            rest
        }
    }
}

/// The first `n` of `s`, or all of it when shorter.
pub open spec fn at_most(s: Seq<i64>, n: int) -> Seq<i64> {
    if s.len() <= n {
        s
    } else {
        s.take(n)
    }
}

proof fn lemma_at_most_push(s: Seq<i64>, y: i64, n: int)
    requires
        0 <= n,
    ensures
        at_most(s.push(y), n) == (if s.len() < n { s.push(y) } else { at_most(s, n) }),
{
    if s.len() >= n {
        assert(s.push(y).take(n) =~= s.take(n));
        if s.len() == n {
            assert(s.take(n) =~= s);
        }
    }
}

/// The queue the blink timer starts from at display frame `current`: the
/// first `BLINK_TIMER_PREFETCH_COUNT` blinks after it; with none left, the
/// candidate's own next-blink wait when it has one.
pub open spec fn blink_queue_spec(result: FieldResult, current: i64) -> Seq<i64> {
    let w = at_most(
        waits_after(result.timeline@, result.last_wait_frame, current),
        BLINK_TIMER_PREFETCH_COUNT as int,
    );
    if w.len() == 0 && result.next_blink_wait_frame > 0 {
        seq![result.next_blink_wait_frame]
    } else {
        w
    }
}

/// The first `limit` waits after display frame `after`.
fn waits_after_upto(rows: &Vec<FieldTimelineRow>, last_wait: i64, after: i64, limit: usize) -> (r: Vec<i64>)
    ensures
        r@ == at_most(waits_after(rows@, last_wait, after), limit as int),
{
    let mut out: Vec<i64> = Vec::new();
    let mut i: usize = 0;
    while i < rows.len()
        invariant
            i <= rows@.len(),
            out@ == at_most(waits_after(rows@.subrange(0, i as int), last_wait, after), limit as int),
        decreases rows@.len() - i,
    {
        let row = rows[i];
        let ghost before = waits_after(rows@.subrange(0, i as int), last_wait, after);
        proof {
            let next = rows@.subrange(0, i + 1);
            assert(next.drop_last() =~= rows@.subrange(0, i as int));
            assert(next.last() == row);
        }
        if row.timeline_frame > after {
            proof {
                lemma_at_most_push(before, clamp_i64(row.timeline_frame - last_wait) as i64, limit as int);
            }
            if out.len() < limit {
                out.push(saturating_sub_i64(row.timeline_frame, last_wait));
            }
        }
        i = i + 1;
    }
    proof {
        assert(rows@.subrange(0, rows@.len() as int) =~= rows@);
    }
    out
}

/// The queue to start the blink timer with; see `blink_queue_spec`.
pub fn blink_wait_queue(result: &FieldResult, current: i64) -> (r: Vec<i64>)
    ensures
        r@ == blink_queue_spec(*result, current),
{
    let mut queue = waits_after_upto(&result.timeline, result.last_wait_frame, current, BLINK_TIMER_PREFETCH_COUNT);
    if queue.len() == 0 && result.next_blink_wait_frame > 0 {
        queue.push(result.next_blink_wait_frame);
    }
    queue
}

/// Tops the queue up once it runs low (at most `BLINK_TIMER_REFILL_THRESHOLD`
/// left): the blinks after the last queued one are appended, up to
/// `BLINK_TIMER_PREFETCH_COUNT` in all. A longer queue stays as it is.
pub fn refill_blink_wait_queue(queue: &mut Vec<i64>, result: &FieldResult)
    ensures
        old(queue)@.len() > BLINK_TIMER_REFILL_THRESHOLD ==> final(queue)@ == old(queue)@,
        old(queue)@.len() <= BLINK_TIMER_REFILL_THRESHOLD ==> {
            let last: int = if old(queue)@.len() == 0 { 0 } else { old(queue)@.last() as int };
            final(queue)@ == old(queue)@ + at_most(
                waits_after(result.timeline@, result.last_wait_frame, clamp_i64(result.last_wait_frame + last) as i64),
                BLINK_TIMER_PREFETCH_COUNT - old(queue)@.len(),
            )
        },
{
    if queue.len() > BLINK_TIMER_REFILL_THRESHOLD {
        return;
    }
    let last = if queue.len() == 0 {
        0
    } else {
        queue[queue.len() - 1]
    };
    let last_absolute = match result.last_wait_frame.checked_add(last) {
        Some(v) => v,
        None => if last > 0 {
            i64::MAX
        } else {
            i64::MIN
        },
    };
    let additions = waits_after_upto(
        &result.timeline,
        result.last_wait_frame,
        last_absolute,
        BLINK_TIMER_PREFETCH_COUNT - queue.len(),
    );
    let ghost start = queue@;
    let mut i: usize = 0;
    while i < additions.len()
        invariant
            i <= additions@.len(),
            queue@ == start + additions@.subrange(0, i as int),
        decreases additions@.len() - i,
    {
        queue.push(additions[i]);
        proof {
            assert(start + additions@.subrange(0, i + 1) =~= (start + additions@.subrange(0, i as int)).push(additions@[i as int]));
        }
        i = i + 1;
    }
    proof {
        assert(additions@.subrange(0, additions@.len() as int) =~= additions@);
    }
}

} // verus!
