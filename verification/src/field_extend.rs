//! Lazy growth of the one remaining candidate's blink timeline: when the
//! shown position nears the last row, the timeline is continued for one
//! chunk of ticks from the state saved at its end.

use vstd::prelude::*;
use crate::sfmt::{Sfmt, seeded, lemma_values64_shift, lemma_skip64_add};
use crate::model_status::{ModelStatus, status_used, status_next, status_blinks, lemma_draws_before_bounds};
use crate::timeline::tick_values;
use crate::observation::MAX_SFMT_FRAME;
use crate::field_types::{FieldResult, FieldTimelineRow, TimelineCursor, same_cursor};
use crate::field_target::{clamp_i64, trunc_div2, contains_model, saturating_sub_i64, saturating_double_i64};

verus! {

/// Ticks the timeline grows by per extension.
pub const TIMELINE_CHUNK_TICKS: i64 = 4_096;

/// The tick a timeline is never continued past.
pub const MAX_FUTURE_TIMELINE_TICKS: i64 = 50_000_000;

/// Continuing the timeline from the counters `rs` at stream position
/// `frame`, with consumption `cons`, stream cursor `sc` and tick `tick`, up
/// to tick `end` or the first tick whose consumption reaches the last cache
/// position. Gives the blinks of `model` on the way (display frame and
/// consumption after the tick), then the stream position, counters,
/// consumption, stream cursor and tick it stops at.
pub open spec fn extension_walk(
    seed: u32,
    model: u8,
    frame: int,
    rs: Seq<i32>,
    cons: int,
    sc: int,
    tick: int,
    end: int,
) -> (Seq<(int, int)>, int, Seq<i32>, int, int, int)
    decreases end - tick,
{
    if tick >= end {
        (Seq::empty(), frame, rs, cons, sc, tick)
    } else {
        let used = status_used(rs);
        let rs2 = status_next(rs, tick_values(seed, frame, rs));
        let cons2 = clamp_i64(cons + used);
        let sc2 = clamp_i64(sc + used);
        let tick2 = tick + 1;
        let ev: Seq<(int, int)> = if status_blinks(rs).contains(model) {
            seq![(clamp_i64(2 * tick2), cons2)]
        } else {
            Seq::empty()
        };
        if cons2 >= MAX_SFMT_FRAME {
            (ev, frame + used, rs2, cons2, sc2, tick2)
        } else {
            let rest = extension_walk(seed, model, frame + used, rs2, cons2, sc2, tick2, end);
            (ev + rest.0, rest.1, rest.2, rest.3, rest.4, rest.5)
        }
    }
}

/// The stream cursor keeps pace with the stream position as long as the
/// position stays within `i64`, and neither moves backwards.
pub proof fn lemma_walk_stream_in_step(
    seed: u32,
    model: u8,
    frame: int,
    rs: Seq<i32>,
    cons: int,
    tick: int,
    end: int,
)
    requires
        0 <= frame <= i64::MAX,
    ensures
        ({
            let w = extension_walk(seed, model, frame, rs, cons, frame, tick, end);
            &&& w.1 >= frame
            &&& w.1 <= i64::MAX ==> w.4 == w.1
        }),
    decreases end - tick,
{
    if tick < end {
        let used = status_used(rs);
        let rs2 = status_next(rs, tick_values(seed, frame, rs));
        let cons2 = clamp_i64(cons + used);
        if cons2 < MAX_SFMT_FRAME && frame + used <= i64::MAX {
            lemma_walk_stream_in_step(seed, model, frame + used, rs2, cons2, tick + 1, end);
        } else if cons2 < MAX_SFMT_FRAME {
            lemma_walk_frame_grows(seed, model, frame + used, rs2, cons2, clamp_i64(frame + used), tick + 1, end);
        }
    }
}

proof fn lemma_walk_frame_grows(seed: u32, model: u8, frame: int, rs: Seq<i32>, cons: int, sc: int, tick: int, end: int)
    ensures
        extension_walk(seed, model, frame, rs, cons, sc, tick, end).1 >= frame,
    decreases end - tick,
{
    if tick < end {
        let used = status_used(rs);
        let rs2 = status_next(rs, tick_values(seed, frame, rs));
        let cons2 = clamp_i64(cons + used);
        if cons2 < MAX_SFMT_FRAME {
            lemma_walk_frame_grows(seed, model, frame + used, rs2, cons2, clamp_i64(sc + used), tick + 1, end);
        }
    }
}

/// Growing the timeline in two chunks is growing it once over both: the
/// counters, the positions and the blinks carry over the chunk boundary
/// unchanged, unless the first chunk already stopped at the last cache
/// position.
pub proof fn lemma_walk_chunks_compose(
    seed: u32,
    model: u8,
    frame: int,
    rs: Seq<i32>,
    cons: int,
    sc: int,
    tick: int,
    mid: int,
    end: int,
)
    requires
        tick <= mid <= end,
        extension_walk(seed, model, frame, rs, cons, sc, tick, mid).3 < MAX_SFMT_FRAME || tick == mid,
    ensures
        ({
            let a = extension_walk(seed, model, frame, rs, cons, sc, tick, mid);
            let b = extension_walk(seed, model, a.1, a.2, a.3, a.4, a.5, end);
            let whole = extension_walk(seed, model, frame, rs, cons, sc, tick, end);
            &&& a.5 == mid
            &&& whole == (a.0 + b.0, b.1, b.2, b.3, b.4, b.5)
        }),
    decreases mid - tick,
{
    let a = extension_walk(seed, model, frame, rs, cons, sc, tick, mid);
    if tick == mid {
        assert(a == (Seq::<(int, int)>::empty(), frame, rs, cons, sc, tick));
        let b = extension_walk(seed, model, a.1, a.2, a.3, a.4, a.5, end);
        assert(a.0 + b.0 =~= b.0);
    } else {
        let used = status_used(rs);
        let rs2 = status_next(rs, tick_values(seed, frame, rs));
        let cons2 = clamp_i64(cons + used);
        let sc2 = clamp_i64(sc + used);
        let tick2 = tick + 1;
        let ev: Seq<(int, int)> = if status_blinks(rs).contains(model) {
            seq![(clamp_i64(2 * tick2), cons2)]
        } else {
            Seq::empty()
        };
        if cons2 >= MAX_SFMT_FRAME {
            assert(a.3 == cons2);
        } else {
            lemma_walk_chunks_compose(seed, model, frame + used, rs2, cons2, sc2, tick2, mid, end);
            let a2 = extension_walk(seed, model, frame + used, rs2, cons2, sc2, tick2, mid);
            let b = extension_walk(seed, model, a.1, a.2, a.3, a.4, a.5, end);
            assert(a == (ev + a2.0, a2.1, a2.2, a2.3, a2.4, a2.5));
            let w2 = extension_walk(seed, model, frame + used, rs2, cons2, sc2, tick2, end);
            assert(w2 == (a2.0 + b.0, b.1, b.2, b.3, b.4, b.5));
            assert(ev + (a2.0 + b.0) =~= (ev + a2.0) + b.0);
        }
    }
}

/// The walk an extension makes, or `None` when the timeline is left as it
/// is: no saved state or no row yet, the last row still more than two chunks
/// ahead of `current` (a display frame), or the saved state already at the
/// tick or position limit.
pub open spec fn extension_of(r: FieldResult, seed: u32, current: int) -> Option<
    (Seq<(int, int)>, int, Seq<i32>, int, int, int),
> {
    match r.timeline_cursor {
        None => None,
        Some(c) => if r.timeline@.len() == 0 {
            None
        } else if clamp_i64(r.timeline@.last().timeline_frame - current) > TIMELINE_CHUNK_TICKS * 2 {
            None
        } else if c.tick >= MAX_FUTURE_TIMELINE_TICKS || c.consumption >= MAX_SFMT_FRAME {
            None
        } else {
            let end = if c.tick + TIMELINE_CHUNK_TICKS < MAX_FUTURE_TIMELINE_TICKS {
                c.tick + TIMELINE_CHUNK_TICKS
            } else {
                MAX_FUTURE_TIMELINE_TICKS as int
            };
            Some(
                extension_walk(
                    seed,
                    r.observed_model as u8,
                    c.stream_cursor as int,
                    c.status.remain@,
                    c.consumption as int,
                    c.stream_cursor as int,
                    c.tick as int,
                    end,
                ),
            )
        },
    }
}

/// The rows after appending the blinks `events`: each new row closes the
/// previous one's duration and starts with none of its own.
pub open spec fn append_rows(rows: Seq<FieldTimelineRow>, events: Seq<(int, int)>) -> Seq<FieldTimelineRow>
    decreases events.len(),
{
    if events.len() == 0 {
        rows
    } else {
        let e = events[0];
        let closed = if rows.len() > 0 {
            rows.update(
                rows.len() - 1,
                FieldTimelineRow {
                    duration_frames: clamp_i64(e.0 - rows.last().timeline_frame) as i64,
                    ..rows.last()
                },
            )
        } else {
            rows
        };
        append_rows(
            closed.push(FieldTimelineRow { frame: e.1 as i64, timeline_frame: e.0 as i64, duration_frames: 0, observed: false }),
            events.drop_first(),
        )
    }
}

/// Rows whose display frame lies in `(lo, hi]`.
pub open spec fn rows_between(rows: Seq<FieldTimelineRow>, lo: int, hi: int) -> nat
    decreases rows.len(),
{
    if rows.len() == 0 {
        0
    } else {
        rows_between(rows.drop_last(), lo, hi) + if lo < rows.last().timeline_frame <= hi {
            1nat
        } else {
            0nat
        }
    }
}

/// The pairs of a vector as integers.
pub open spec fn int_pairs(v: Seq<(i64, i64)>) -> Seq<(int, int)> {
    v.map_values(|p: (i64, i64)| (p.0 as int, p.1 as int))
}

fn sat_add_i64(a: i64, b: i64) -> (r: i64)
    ensures
        r == clamp_i64(a + b),
{
    match a.checked_add(b) {
        Some(v) => v,
        None => if b > 0 {
            i64::MAX
        } else {
            i64::MIN
        },
    }
}

fn sat_add_used(a: i64, used: usize) -> (r: i64)
    ensures
        r == clamp_i64(a + used),
{
    let sum: i128 = a as i128 + used as i128;
    if sum > i64::MAX as i128 {
        i64::MAX
    } else {
        sum as i64
    }
}

/// Walks one chunk, recording the blinks of `model`.
fn walk_chunk(
    rng: &mut Sfmt,
    status: &mut ModelStatus,
    cursor_in: (i64, i64, i64),
    end: i64,
    model: u8,
    Ghost(seed): Ghost<u32>,
    Ghost(frame0): Ghost<int>,
) -> (r: (Vec<(i64, i64)>, i64, i64, i64))
    requires
        old(rng).wf(),
        old(rng)@ == seeded(seed).skip64(frame0 as nat),
        frame0 >= 0,
        cursor_in.2 <= end,
    ensures
        ({
            let w = extension_walk(
                seed,
                model,
                frame0,
                old(status).remain@,
                cursor_in.0 as int,
                cursor_in.1 as int,
                cursor_in.2 as int,
                end as int,
            );
            &&& int_pairs(r.0@) == w.0
            &&& final(status).remain@ == w.2
            &&& r.1 == w.3
            &&& r.2 == w.4
            &&& r.3 == w.5
            &&& final(rng)@ == seeded(seed).skip64(w.1 as nat)
        }),
        final(rng).wf(),
{
    let mut consumption = cursor_in.0;
    let mut stream = cursor_in.1;
    let mut tick = cursor_in.2;
    let mut events: Vec<(i64, i64)> = Vec::new();
    let ghost mut frame: int = frame0;
    let ghost total = extension_walk(seed, model, frame0, status.remain@, consumption as int, stream as int, tick as int, end as int);
    proof {
        assert(int_pairs(events@) =~= Seq::<(int, int)>::empty());
        assert(total.0 =~= int_pairs(events@) + total.0);
    }
    while tick < end
        invariant_except_break
            ({
                let w = extension_walk(seed, model, frame, status.remain@, consumption as int, stream as int, tick as int, end as int);
                &&& total.0 == int_pairs(events@) + w.0
                &&& total.1 == w.1
                &&& total.2 == w.2
                &&& total.3 == w.3
                &&& total.4 == w.4
                &&& total.5 == w.5
            }),
        invariant
            rng.wf(),
            rng@ == seeded(seed).skip64(frame as nat),
            frame >= 0,
            tick <= end,
        ensures
            total.0 == int_pairs(events@),
            total.2 == status.remain@,
            total.3 == consumption,
            total.4 == stream,
            total.5 == tick,
            total.1 == frame,
        decreases end - tick,
    {
        let ghost rs = status.remain@;
        let ghost f0 = frame;
        let ghost c0 = consumption as int;
        let ghost s0 = stream as int;
        let ghost k0 = tick as int;
        let ghost before = events@;
        let (used, blink) = status.next_state(rng);
        proof {
            lemma_values64_shift(seed, frame as nat, used as nat);
            lemma_skip64_add(seeded(seed), frame as nat, used as nat);
            lemma_draws_before_bounds(rs, rs.len() as int);
            assert(status.remain@ == status_next(rs, tick_values(seed, frame, rs)));
            frame = frame + used;
        }
        consumption = sat_add_used(consumption, used);
        stream = sat_add_used(stream, used);
        tick = tick + 1;
        let blinked = contains_model(&blink, model);
        if blinked {
            events.push((saturating_double_i64(tick), consumption));
        }
        proof {
            let ev: Seq<(int, int)> = if status_blinks(rs).contains(model) {
                seq![(clamp_i64(2 * (tick as int)), consumption as int)]
            } else {
                Seq::empty()
            };
            assert(int_pairs(events@) =~= int_pairs(before) + ev);
            let w0 = extension_walk(seed, model, f0, rs, c0, s0, k0, end as int);
            if consumption >= MAX_SFMT_FRAME {
                assert(w0 == (ev, frame, status.remain@, consumption as int, stream as int, tick as int));
                assert(total.0 =~= int_pairs(events@));
            } else {
                let w1 = extension_walk(seed, model, frame, status.remain@, consumption as int, stream as int, tick as int, end as int);
                assert(w0 == (ev + w1.0, w1.1, w1.2, w1.3, w1.4, w1.5));
                assert(total.0 =~= int_pairs(events@) + w1.0);
                if tick >= end {
                    assert(w1.0 =~= Seq::<(int, int)>::empty());
                    assert(total.0 =~= int_pairs(events@));
                }
            }
        }
        if consumption >= MAX_SFMT_FRAME {
            break;
        }
    }
    (events, consumption, stream, tick)
}

/// Appends the blinks as rows, closing each previous row's duration.
fn append_events(rows: &mut Vec<FieldTimelineRow>, events: &Vec<(i64, i64)>)
    ensures
        final(rows)@ == append_rows(old(rows)@, int_pairs(events@)),
{
    let ghost all = int_pairs(events@);
    let mut i: usize = 0;
    proof {
        assert(all.subrange(0, all.len() as int) =~= all);
    }
    while i < events.len()
        invariant
            i <= events@.len(),
            all == int_pairs(events@),
            append_rows(rows@, all.subrange(i as int, all.len() as int)) == append_rows(
                old(rows)@,
                all,
            ),
        decreases events@.len() - i,
    {
        let (wf, c) = events[i];
        let ghost r0 = rows@;
        let ghost tail = all.subrange(i as int, all.len() as int);
        let n = rows.len();
        if n > 0 {
            let last = rows[n - 1];
            let duration = saturating_sub_i64(wf, last.timeline_frame);
            rows.set(
                n - 1,
                FieldTimelineRow {
                    frame: last.frame,
                    timeline_frame: last.timeline_frame,
                    duration_frames: duration,
                    observed: last.observed,
                },
            );
        }
        rows.push(FieldTimelineRow { frame: c, timeline_frame: wf, duration_frames: 0, observed: false });
        proof {
            assert(tail[0] == (wf as int, c as int));
            assert(tail.drop_first() =~= all.subrange(i + 1, all.len() as int));
            if n > 0 {
                assert(r0.last() == r0[n - 1]);
            }
            assert(rows@ =~= (if r0.len() > 0 {
                r0.update(
                    r0.len() - 1,
                    FieldTimelineRow {
                        duration_frames: clamp_i64(wf - r0.last().timeline_frame) as i64,
                        ..r0.last()
                    },
                )
            } else {
                r0
            }).push(FieldTimelineRow { frame: c, timeline_frame: wf, duration_frames: 0, observed: false }));
        }
        i = i + 1;
    }
    proof {
        assert(all.subrange(i as int, all.len() as int) =~= Seq::<(int, int)>::empty());
    }
}

/// Rows whose display frame lies in `(lo, hi]`.
fn count_rows_between(rows: &Vec<FieldTimelineRow>, lo: i64, hi: i64) -> (r: usize)
    ensures
        r == rows_between(rows@, lo as int, hi as int),
{
    let mut count: usize = 0;
    let mut i: usize = 0;
    while i < rows.len()
        invariant
            i <= rows@.len(),
            count == rows_between(rows@.subrange(0, i as int), lo as int, hi as int),
            count <= i,
        decreases rows@.len() - i,
    {
        proof {
            assert(rows@.subrange(0, i + 1).drop_last() =~= rows@.subrange(0, i as int));
        }
        let f = rows[i].timeline_frame;
        if lo < f && f <= hi {
            count = count + 1;
        }
        i = i + 1;
    }
    proof {
        assert(rows@.subrange(0, rows@.len() as int) =~= rows@);
    }
    count
}

/// Whether the shown display frame `current_frame` has come within two
/// chunks of the single candidate's last timeline row, so that a background
/// extension is due. The extension itself decides again (see
/// `extension_of`).
pub fn timeline_extension_needed(result_count: usize, result: &FieldResult, current_frame: i64) -> (r: bool)
    ensures
        r == (result_count == 1 && result.timeline@.len() > 0 && clamp_i64(
            result.timeline@.last().timeline_frame - current_frame,
        ) <= TIMELINE_CHUNK_TICKS * 2),
{
    if result_count != 1 || result.timeline.len() == 0 {
        return false;
    }
    let last = result.timeline[result.timeline.len() - 1].timeline_frame;
    saturating_sub_i64(last, current_frame) <= TIMELINE_CHUNK_TICKS * 2
}

/// Continues the candidate's timeline for one chunk when the shown display
/// frame `current_frame` nears its last row, reading the generator `rng`
/// positioned at the saved state's stream cursor. The new blinks of the
/// observed model become rows, the saved state moves to where the chunk
/// stopped, and the blink count up to the target is taken again over the
/// longer timeline. Returns whether a row was added; when no extension is
/// due, the candidate is left as it is.
pub fn extend_result_timeline(result: &mut FieldResult, rng: &mut Sfmt, seed: u32, current_frame: i64) -> (extended:
    bool)
    requires
        old(rng).wf(),
        old(result).timeline_cursor matches Some(c) ==> c.stream_cursor >= 0 && old(rng)@ == seeded(seed).skip64(
            c.stream_cursor as nat,
        ),
    ensures
        match extension_of(*old(result), seed, current_frame as int) {
            None => {
                &&& !extended
                &&& final(rng)@ == old(rng)@
                &&& final(result).timeline@ == old(result).timeline@
                &&& same_cursor(final(result).timeline_cursor, old(result).timeline_cursor)
                &&& final(result).target_blink_count == old(result).target_blink_count
            },
            Some(w) => {
                &&& extended == (w.0.len() > 0)
                &&& final(rng)@ == seeded(seed).skip64(w.1 as nat)
                &&& final(result).timeline@ == append_rows(old(result).timeline@, w.0)
                &&& final(result).timeline_cursor matches Some(c) && {
                    &&& c.status.remain@ == w.2
                    &&& c.consumption == w.3
                    &&& c.stream_cursor == w.4
                    &&& c.tick == w.5
                }
                &&& final(result).target_blink_count == match old(result).target_wait_frame {
                    Some(tw) => Some(
                        rows_between(
                            final(result).timeline@,
                            old(result).last_wait_frame as int,
                            clamp_i64(old(result).last_wait_frame + tw),
                        ) as usize,
                    ),
                    None => old(result).target_blink_count,
                }
            },
        },
        final(result).start_consumption == old(result).start_consumption,
        final(result).first_wait_frame == old(result).first_wait_frame,
        final(result).last_wait_frame == old(result).last_wait_frame,
        final(result).first_consumption == old(result).first_consumption,
        final(result).last_consumption == old(result).last_consumption,
        final(result).intervals@ == old(result).intervals@,
        final(result).next_blink_wait_frame == old(result).next_blink_wait_frame,
        final(result).target_wait_frame == old(result).target_wait_frame,
        final(result).target_exact == old(result).target_exact,
        final(result).target_frame_before == old(result).target_frame_before,
        final(result).target_frame_after == old(result).target_frame_after,
        final(result).observed_model == old(result).observed_model,
        final(result).models == old(result).models,
        same_cursor(final(result).target_cursor, old(result).target_cursor),
        final(rng).wf(),
{
    let n = result.timeline.len();
    if n == 0 {
        return false;
    }
    let last_frame = result.timeline[n - 1].timeline_frame;
    proof {
        assert(result.timeline@.last() == result.timeline@[n - 1]);
    }
    if saturating_sub_i64(last_frame, current_frame) > TIMELINE_CHUNK_TICKS * 2 {
        return false;
    }
    let (limits_reached, tick0) = match &result.timeline_cursor {
        None => return false,
        Some(c) => (c.tick >= MAX_FUTURE_TIMELINE_TICKS || c.consumption >= MAX_SFMT_FRAME, c.tick),
    };
    if limits_reached {
        return false;
    }
    let model = result.observed_model as u8;
    let mut cursor = match result.timeline_cursor.take() {
        Some(c) => c,
        None => return false,
    };
    let end = if tick0 < MAX_FUTURE_TIMELINE_TICKS - TIMELINE_CHUNK_TICKS {
        tick0 + TIMELINE_CHUNK_TICKS
    } else {
        MAX_FUTURE_TIMELINE_TICKS
    };
    let ghost frame0 = cursor.stream_cursor as int;
    let (events, consumption, stream, tick) = walk_chunk(
        rng,
        &mut cursor.status,
        (cursor.consumption, cursor.stream_cursor, cursor.tick),
        end,
        model,
        Ghost(seed),
        Ghost(frame0),
    );
    cursor.consumption = consumption;
    cursor.stream_cursor = stream;
    cursor.tick = tick;
    append_events(&mut result.timeline, &events);
    match result.target_wait_frame {
        Some(tw) => {
            let target_absolute = sat_add_i64(result.last_wait_frame, tw);
            let count = count_rows_between(&result.timeline, result.last_wait_frame, target_absolute);
            result.target_blink_count = Some(count);
        },
        None => {},
    }
    result.timeline_cursor = Some(cursor);
    events.len() > 0
}

/// The tick of the shown display frame: the later of `current` and the
/// last observed blink's frame, halved towards zero.
pub open spec fn desired_tick(current: int, anchor: int) -> int {
    let m = if current > anchor { current } else { anchor };
    trunc_div2(m)
}

/// Where the generator of the shown position stands: the SFMT position of
/// the shown display frame `current_frame` on the candidate's timeline. The
/// cursor (read from `rng`, positioned at its stream cursor) moves forward to
/// the tick of the later of `current_frame` and `anchor_frame`, never
/// backwards, and stops early at the last cache position; the consumption it
/// reaches is returned.
pub fn advance_cursor_to_frame(
    cursor: &mut TimelineCursor,
    rng: &mut Sfmt,
    seed: u32,
    current_frame: i64,
    anchor_frame: i64,
) -> (r: i64)
    requires
        old(rng).wf(),
        old(cursor).stream_cursor >= 0,
        old(rng)@ == seeded(seed).skip64(old(cursor).stream_cursor as nat),
    ensures
        final(rng).wf(),
        old(cursor).tick > desired_tick(current_frame as int, anchor_frame as int) ==> {
            &&& r == old(cursor).consumption
            &&& same_cursor(Some(*final(cursor)), Some(*old(cursor)))
            &&& final(rng)@ == old(rng)@
        },
        old(cursor).tick <= desired_tick(current_frame as int, anchor_frame as int) ==> {
            let w = extension_walk(
                seed,
                0,
                old(cursor).stream_cursor as int,
                old(cursor).status.remain@,
                old(cursor).consumption as int,
                old(cursor).stream_cursor as int,
                old(cursor).tick as int,
                desired_tick(current_frame as int, anchor_frame as int),
            );
            &&& r == w.3
            &&& final(cursor).consumption == w.3
            &&& final(cursor).status.remain@ == w.2
            &&& final(cursor).stream_cursor == w.4
            &&& final(cursor).tick == w.5
            &&& final(rng)@ == seeded(seed).skip64(w.1 as nat)
        },
{
    let later = if current_frame > anchor_frame {
        current_frame
    } else {
        anchor_frame
    };
    let desired = later / 2;
    proof {
        assert(desired == trunc_div2(later as int)) by {
            if later >= 0 {
            } else {
            }
        }
    }
    if cursor.tick > desired {
        return cursor.consumption;
    }
    let ghost frame0 = cursor.stream_cursor as int;
    let (_events, consumption, stream, tick) = walk_chunk(
        rng,
        &mut cursor.status,
        (cursor.consumption, cursor.stream_cursor, cursor.tick),
        desired,
        0,
        Ghost(seed),
        Ghost(frame0),
    );
    cursor.consumption = consumption;
    cursor.stream_cursor = stream;
    cursor.tick = tick;
    consumption
}

} // verus!
