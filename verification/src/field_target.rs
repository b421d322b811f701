//! Locating a target position from a candidate's saved timeline state, and
//! the offset correction that compares a target with the position actually
//! measured.

use vstd::prelude::*;
use crate::sfmt::{Sfmt, sfmt_after, seeded, lemma_values64_shift, lemma_skip64_add};
use crate::model_status::{ModelStatus, status_used, status_next, status_blinks, lemma_draws_before_bounds};
use crate::timeline::tick_values;
use crate::field_types::{FieldResult, TimelineCursor, same_untargeted};

verus! {

/// Ticks a target search may run from a saved state.
pub const MAX_TARGET_TICKS: i64 = 10_000_000;

/// When a target is met on a timeline: the display frame counted from the
/// candidate start, whether the target was met exactly, and the positions
/// around it (both the target on an exact landing).
#[derive(Clone, Copy, Debug, PartialEq, Eq, Structural)]
pub struct TargetTiming {
    pub absolute_wait_frame: i64,
    pub exact: bool,
    pub frame_before: i64,
    pub frame_after: i64,
}

/// `x / 2` rounded toward zero, as Rust's `/` on integers.
pub open spec fn trunc_div2(x: int) -> int {
    if x >= 0 {
        x / 2
    } else {
        -((-x) / 2)
    }
}

/// `x / 2` rounded down, as `div_euclid(2)`.
pub open spec fn floor_div2(x: int) -> int {
    x / 2
}

pub open spec fn clamp_i64(x: int) -> int {
    if x > i64::MAX {
        i64::MAX as int
    } else if x < i64::MIN {
        i64::MIN as int
    } else {
        x
    }
}

fn trunc_half(x: i64) -> (r: i64)
    ensures
        r == trunc_div2(x as int),
{
    if x >= 0 {
        ((x as u64) / 2) as i64
    } else {
        let y = (-(x + 1)) as u64;
        let q = (y / 2) as i64;
        if y % 2 == 1 {
            -q - 1
        } else {
            -q
        }
    }
}

fn floor_half(x: i64) -> (r: i64)
    ensures
        r == floor_div2(x as int),
{
    if x >= 0 {
        ((x as u64) / 2) as i64
    } else {
        let y = (-(x + 1)) as u64;
        -((y / 2) as i64) - 1
    }
}

pub(crate) fn saturating_sub_i64(a: i64, b: i64) -> (r: i64)
    ensures
        r == clamp_i64(a - b),
{
    match a.checked_sub(b) {
        Some(v) => v,
        None => if b > 0 {
            i64::MIN
        } else {
            i64::MAX
        },
    }
}

pub(crate) fn saturating_double_i64(a: i64) -> (r: i64)
    ensures
        r == clamp_i64(2 * a),
{
    match a.checked_mul(2) {
        Some(v) => v,
        None => if a > 0 {
            i64::MAX
        } else {
            i64::MIN
        },
    }
}

/// Walking a saved timeline state tick by tick: at SFMT position `frame`
/// with counters `rs`, `cons` positions counted so far and `count` blinks of
/// `model` seen. The first tick whose position count steps over `target`
/// or lands on it gives (tick, exact, before, after, blinks); `None` when
/// the tick limit is reached or the count overflows.
pub open spec fn target_walk(
    seed: u32,
    model: u8,
    target: int,
    frame: int,
    rs: Seq<i32>,
    cons: int,
    tick: int,
    count: nat,
) -> Option<(int, bool, int, int, nat)>
    decreases MAX_TARGET_TICKS - tick,
{
    if tick >= MAX_TARGET_TICKS {
        None
    } else {
        let used = status_used(rs);
        let next = cons + used;
        let n = count + if status_blinks(rs).contains(model) {
            1nat
        } else {
            0nat
        };
        if next > i64::MAX {
            None
        } else if cons <= target && target < next {
            Some((tick + 1, false, cons, next, n))
        } else if next == target {
            Some((tick + 1, true, target, target, n))
        } else {
            target_walk(
                seed,
                model,
                target,
                frame + used,
                status_next(rs, tick_values(seed, frame, rs)),
                next,
                tick + 1,
                n,
            )
        }
    }
}

/// The blinks of `model` in the `n` ticks that follow the timeline state
/// (`frame`, `rs`): one for every tick whose blink list holds `model`.
pub open spec fn blinks_in_ticks(seed: u32, model: u8, frame: int, rs: Seq<i32>, n: nat) -> nat
    decreases n,
{
    if n == 0 {
        0
    } else {
        (if status_blinks(rs).contains(model) {
            1nat
        } else {
            0nat
        }) + blinks_in_ticks(
            seed,
            model,
            frame + status_used(rs),
            status_next(rs, tick_values(seed, frame, rs)),
            (n - 1) as nat,
        )
    }
}

/// Never more blinks than ticks.
pub proof fn lemma_blinks_at_most_ticks(seed: u32, model: u8, frame: int, rs: Seq<i32>, n: nat)
    ensures
        blinks_in_ticks(seed, model, frame, rs, n) <= n,
    decreases n,
{
    if n > 0 {
        lemma_blinks_at_most_ticks(
            seed,
            model,
            frame + status_used(rs),
            status_next(rs, tick_values(seed, frame, rs)),
            (n - 1) as nat,
        );
    }
}

/// The walk stops after at least one tick, within the tick limit, and the
/// count it carries grows by the blinks of `model` in the ticks it walked.
proof fn lemma_target_walk_counts_blinks(
    seed: u32,
    model: u8,
    target: int,
    frame: int,
    rs: Seq<i32>,
    cons: int,
    tick: int,
    count: nat,
)
    ensures
        target_walk(seed, model, target, frame, rs, cons, tick, count) matches Some(w) ==> {
            &&& tick < w.0 <= MAX_TARGET_TICKS
            &&& w.4 == count + blinks_in_ticks(seed, model, frame, rs, (w.0 - tick) as nat)
        },
    decreases MAX_TARGET_TICKS - tick,
{
    if tick < MAX_TARGET_TICKS {
        let used = status_used(rs);
        let next = cons + used;
        let b: nat = if status_blinks(rs).contains(model) {
            1nat
        } else {
            0nat
        };
        let n = count + b;
        let frame2 = frame + used;
        let rs2 = status_next(rs, tick_values(seed, frame, rs));
        if next <= i64::MAX && !(cons <= target && target < next) && next != target {
            lemma_target_walk_counts_blinks(seed, model, target, frame2, rs2, next, tick + 1, n);
            if let Some(w) = target_walk(seed, model, target, frame2, rs2, next, tick + 1, n) {
                assert(blinks_in_ticks(seed, model, frame, rs, (w.0 - tick) as nat) == b + blinks_in_ticks(
                    seed,
                    model,
                    frame2,
                    rs2,
                    (w.0 - (tick + 1)) as nat,
                ));
            }
        } else {
            assert(blinks_in_ticks(seed, model, frame2, rs2, 0) == 0);
            assert(blinks_in_ticks(seed, model, frame, rs, 1) == b + blinks_in_ticks(seed, model, frame2, rs2, 0));
        }
    }
}

/// The timeline state `j` ticks after (`frame`, `rs`), with `cons` the
/// position count then: (stream position, counters, position count).
pub open spec fn state_after(seed: u32, frame: int, rs: Seq<i32>, cons: int, j: nat) -> (int, Seq<i32>, int)
    decreases j,
{
    if j == 0 {
        (frame, rs, cons)
    } else {
        state_after(
            seed,
            frame + status_used(rs),
            status_next(rs, tick_values(seed, frame, rs)),
            cons + status_used(rs),
            (j - 1) as nat,
        )
    }
}

/// The step of tick `j + 1` keeps the position count within 64 bits and
/// lands on `target` or goes from at most `target` to beyond it.
pub open spec fn step_meets(seed: u32, frame: int, rs: Seq<i32>, cons: int, target: int, j: nat) -> bool {
    let s = state_after(seed, frame, rs, cons, j);
    let next = s.2 + status_used(s.1);
    &&& next <= i64::MAX
    &&& (s.2 <= target < next || next == target)
}

/// No step up to tick `j + 1` overflows the position count.
pub open spec fn no_overflow_through(seed: u32, frame: int, rs: Seq<i32>, cons: int, j: nat) -> bool {
    forall|i: nat| i <= j ==> {
        let s = #[trigger] state_after(seed, frame, rs, cons, i);
        s.2 + status_used(s.1) <= i64::MAX
    }
}

/// The walk answers at the first tick whose step meets the target, and
/// gives nothing only when no step within the tick limit meets it before an
/// overflow.
proof fn lemma_target_walk_first_meeting(
    seed: u32,
    model: u8,
    target: int,
    frame: int,
    rs: Seq<i32>,
    cons: int,
    tick: int,
    count: nat,
)
    ensures
        target_walk(seed, model, target, frame, rs, cons, tick, count) matches Some(w) ==> {
            &&& tick < w.0
            &&& step_meets(seed, frame, rs, cons, target, (w.0 - tick - 1) as nat)
            &&& forall|i: nat| i < w.0 - tick - 1 ==> !#[trigger] step_meets(seed, frame, rs, cons, target, i)
        },
        target_walk(seed, model, target, frame, rs, cons, tick, count) is None ==> forall|j: nat|
            tick + j < MAX_TARGET_TICKS && no_overflow_through(seed, frame, rs, cons, j) ==> !#[trigger] step_meets(
                seed,
                frame,
                rs,
                cons,
                target,
                j,
            ),
    decreases MAX_TARGET_TICKS - tick,
{
    if tick < MAX_TARGET_TICKS {
        let used = status_used(rs);
        let next = cons + used;
        let n = count + if status_blinks(rs).contains(model) {
            1nat
        } else {
            0nat
        };
        let frame2 = frame + used;
        let rs2 = status_next(rs, tick_values(seed, frame, rs));
        assert forall|i: nat| #[trigger] state_after(seed, frame, rs, cons, i + 1) == state_after(seed, frame2, rs2, next, i) by {
            assert((i + 1 - 1) as nat == i);
        }
        assert(state_after(seed, frame, rs, cons, 0) == (frame, rs, cons));
        if next <= i64::MAX && !(cons <= target && target < next) && next != target {
            lemma_target_walk_first_meeting(seed, model, target, frame2, rs2, next, tick + 1, n);
            assert forall|i: nat| #[trigger] step_meets(seed, frame, rs, cons, target, i + 1) == step_meets(
                seed,
                frame2,
                rs2,
                next,
                target,
                i,
            ) by {
                assert(state_after(seed, frame, rs, cons, i + 1) == state_after(seed, frame2, rs2, next, i));
            }
            assert(!step_meets(seed, frame, rs, cons, target, 0));
            if let Some(w) = target_walk(seed, model, target, frame2, rs2, next, tick + 1, n) {
                let jj = (w.0 - tick - 1) as nat;
                assert(jj == (w.0 - (tick + 1) - 1) as nat + 1);
                assert(step_meets(seed, frame, rs, cons, target, jj));
                assert forall|i: nat| i < w.0 - tick - 1 implies !#[trigger] step_meets(seed, frame, rs, cons, target, i) by {
                    if i > 0 {
                        assert(step_meets(seed, frame, rs, cons, target, ((i - 1) as nat) + 1) == step_meets(
                            seed,
                            frame2,
                            rs2,
                            next,
                            target,
                            (i - 1) as nat,
                        ));
                    }
                }
            } else {
                assert forall|j: nat|
                    tick + j < MAX_TARGET_TICKS && no_overflow_through(seed, frame, rs, cons, j) implies !#[trigger] step_meets(
                    seed,
                    frame,
                    rs,
                    cons,
                    target,
                    j,
                ) by {
                    if j > 0 {
                        let jm = (j - 1) as nat;
                        assert(no_overflow_through(seed, frame2, rs2, next, jm)) by {
                            assert forall|i: nat| i <= jm implies {
                                let s = #[trigger] state_after(seed, frame2, rs2, next, i);
                                s.2 + status_used(s.1) <= i64::MAX
                            } by {
                                assert(state_after(seed, frame, rs, cons, i + 1) == state_after(seed, frame2, rs2, next, i));
                                let s1 = state_after(seed, frame, rs, cons, i + 1);
                                assert(s1.2 + status_used(s1.1) <= i64::MAX);
                            }
                        }
                        assert(step_meets(seed, frame, rs, cons, target, jm + 1) == step_meets(seed, frame2, rs2, next, target, jm));
                    }
                }
            }
        } else if next > i64::MAX {
            assert forall|j: nat|
                tick + j < MAX_TARGET_TICKS && no_overflow_through(seed, frame, rs, cons, j) implies !#[trigger] step_meets(
                seed,
                frame,
                rs,
                cons,
                target,
                j,
            ) by {
                let s0 = state_after(seed, frame, rs, cons, 0);
                assert(s0.2 + status_used(s0.1) <= i64::MAX);
            }
        } else {
            assert(step_meets(seed, frame, rs, cons, target, 0));
        }
    }
}

/// The same walk for the offset correction: the tick after the step that
/// moves the count from at most `target` to beyond it.
proof fn lemma_target_walk_shape(
    seed: u32,
    model: u8,
    target: int,
    frame: int,
    rs: Seq<i32>,
    cons: int,
    tick: int,
    count: nat,
)
    requires
        i64::MIN <= cons < target <= i64::MAX,
    ensures
        target_walk(seed, model, target, frame, rs, cons, tick, count) matches Some(w) ==> {
            &&& w.1 ==> w.2 == target && w.3 == target
            &&& !w.1 ==> i64::MIN <= w.2 < target < w.3 <= i64::MAX
        },
    decreases MAX_TARGET_TICKS - tick,
{
    if tick < MAX_TARGET_TICKS {
        let used = status_used(rs);
        let next = cons + used;
        let n = count + if status_blinks(rs).contains(model) {
            1nat
        } else {
            0nat
        };
        if next <= i64::MAX && !(cons <= target && target < next) && next != target {
            lemma_target_walk_shape(
                seed,
                model,
                target,
                frame + used,
                status_next(rs, tick_values(seed, frame, rs)),
                next,
                tick + 1,
                n,
            );
        }
    }
}

/// A target located on a field candidate is either met exactly, where the
/// positions before and after the step are both the target, or crossed by
/// one step that goes from below the target to beyond it.
pub proof fn lemma_target_timing_shape(seed: u32, r: FieldResult, target: i64)
    ensures
        target_timing_spec(seed, r, target as int) matches Some((t, _)) ==> {
            &&& t.exact ==> t.frame_before == target && t.frame_after == target
            &&& !t.exact ==> t.frame_before < target < t.frame_after
        },
{
    if r.last_consumption < target {
        match resume_cursor(r) {
            None => {},
            Some(c) => {
                lemma_target_walk_shape(
                    seed,
                    r.observed_model as u8,
                    target as int,
                    resume_frame(c),
                    c.status.remain@,
                    r.last_consumption as int,
                    resume_tick(c, r),
                    0,
                );
            },
        }
    }
}

/// The blink count given with a located target is the number of ticks, from
/// the tick the search resumes at up to and including the target tick, in
/// which the observed model blinks; so it never exceeds the ticks walked. A
/// target met at the last observed blink itself comes with no blink.
pub proof fn lemma_target_blink_count(seed: u32, r: FieldResult, target: i64)
    requires
        resume_cursor(r) matches Some(c) ==> c.tick >= 0,
    ensures
        target_timing_spec(seed, r, target as int) matches Some((t, n)) ==> {
            &&& r.last_consumption == target ==> n == 0
            &&& r.last_consumption < target ==> (resume_cursor(r) is Some && {
                let c = resume_cursor(r)->0;
                let walked = t.absolute_wait_frame / 2 - resume_tick(c, r);
                &&& t.absolute_wait_frame % 2 == 0
                &&& 0 < walked
                &&& n == blinks_in_ticks(seed, r.observed_model as u8, resume_frame(c), c.status.remain@, walked as nat)
                &&& n <= walked
            })
        },
{
    if r.last_consumption < target {
        if let Some(c) = resume_cursor(r) {
            let model = r.observed_model as u8;
            let tick = resume_tick(c, r);
            lemma_target_walk_counts_blinks(
                seed,
                model,
                target as int,
                resume_frame(c),
                c.status.remain@,
                r.last_consumption as int,
                tick,
                0,
            );
            if let Some(w) = target_walk(
                seed,
                model,
                target as int,
                resume_frame(c),
                c.status.remain@,
                r.last_consumption as int,
                tick,
                0,
            ) {
                lemma_blinks_at_most_ticks(seed, model, resume_frame(c), c.status.remain@, (w.0 - tick) as nat);
                assert((2 * w.0) as i64 == 2 * w.0);
                assert((2 * w.0) / 2 == w.0);
            }
        }
    }
}

/// A target beyond the last observed position is located at the first tick,
/// counted from the tick the search resumes at, whose step lands on it or
/// crosses it; and no target is given only when no step within the tick
/// limit meets it before the position count overflows.
pub proof fn lemma_target_is_first_meeting(seed: u32, r: FieldResult, target: i64)
    requires
        r.last_consumption < target,
        resume_cursor(r) is Some,
        resume_cursor(r)->0.tick >= 0,
    ensures
        ({
            let c = resume_cursor(r)->0;
            let f = resume_frame(c);
            let rs = c.status.remain@;
            let cons = r.last_consumption as int;
            let tick = resume_tick(c, r);
            &&& target_timing_spec(seed, r, target as int) matches Some((t, _)) ==> {
                let walked = t.absolute_wait_frame / 2 - tick;
                &&& 0 < walked
                &&& step_meets(seed, f, rs, cons, target as int, (walked - 1) as nat)
                &&& forall|i: nat| i < walked - 1 ==> !#[trigger] step_meets(seed, f, rs, cons, target as int, i)
            }
            &&& target_timing_spec(seed, r, target as int) is None ==> forall|j: nat|
                tick + j < MAX_TARGET_TICKS && no_overflow_through(seed, f, rs, cons, j) ==> !#[trigger] step_meets(
                    seed,
                    f,
                    rs,
                    cons,
                    target as int,
                    j,
                )
        }),
{
    let c = resume_cursor(r)->0;
    let model = r.observed_model as u8;
    let tick = resume_tick(c, r);
    lemma_target_walk_first_meeting(seed, model, target as int, resume_frame(c), c.status.remain@, r.last_consumption as int, tick, 0);
    lemma_target_walk_counts_blinks(seed, model, target as int, resume_frame(c), c.status.remain@, r.last_consumption as int, tick, 0);
    if let Some(w) = target_walk(seed, model, target as int, resume_frame(c), c.status.remain@, r.last_consumption as int, tick, 0) {
        assert((2 * w.0) as i64 == 2 * w.0);
        assert((2 * w.0) / 2 == w.0);
    }
}

pub open spec fn correction_walk(seed: u32, target: int, frame: int, rs: Seq<i32>, cons: int, tick: int) -> Option<
    int,
>
    decreases MAX_TARGET_TICKS - tick,
{
    if tick >= MAX_TARGET_TICKS {
        None
    } else {
        let used = status_used(rs);
        let next = cons + used;
        if next > i64::MAX {
            None
        } else if cons <= target && target < next {
            Some(tick + 1)
        } else {
            correction_walk(seed, target, frame + used, status_next(rs, tick_values(seed, frame, rs)), next, tick + 1)
        }
    }
}

/// The saved state a target search continues from.
pub open spec fn resume_cursor(r: FieldResult) -> Option<TimelineCursor> {
    if r.target_cursor is Some {
        r.target_cursor
    } else {
        r.timeline_cursor
    }
}

pub open spec fn resume_frame(c: TimelineCursor) -> int {
    if c.stream_cursor < 0 {
        0
    } else {
        c.stream_cursor as int
    }
}

pub open spec fn resume_tick(c: TimelineCursor, r: FieldResult) -> int {
    let h = trunc_div2(r.last_wait_frame as int);
    if c.tick >= h {
        c.tick as int
    } else {
        h
    }
}

/// Target timing of a candidate, continued from its saved state.
pub open spec fn target_timing_spec(seed: u32, r: FieldResult, target: int) -> Option<(TargetTiming, nat)> {
    if r.last_consumption > target {
        None
    } else if r.last_consumption == target {
        Some(
            (
                TargetTiming {
                    absolute_wait_frame: r.last_wait_frame,
                    exact: true,
                    frame_before: target as i64,
                    frame_after: target as i64,
                },
                0nat,
            ),
        )
    } else {
        match resume_cursor(r) {
            None => None,
            Some(c) => match target_walk(
                seed,
                r.observed_model as u8,
                target,
                resume_frame(c),
                c.status.remain@,
                r.last_consumption as int,
                resume_tick(c, r),
                0,
            ) {
                None => None,
                Some(w) => Some(
                    (
                        TargetTiming {
                            absolute_wait_frame: (2 * w.0) as i64,
                            exact: w.1,
                            frame_before: w.2 as i64,
                            frame_after: w.3 as i64,
                        },
                        w.4,
                    ),
                ),
            },
        }
    }
}

/// The correction tick of `target` on a candidate's saved timeline.
pub open spec fn correction_tick_spec(seed: u32, r: FieldResult, target: int) -> Option<int> {
    if r.last_consumption > target {
        None
    } else if r.last_consumption == target {
        Some(floor_div2(r.last_wait_frame as int))
    } else {
        match resume_cursor(r) {
            None => None,
            Some(c) => correction_walk(
                seed,
                target,
                resume_frame(c),
                c.status.remain@,
                r.last_consumption as int,
                resume_tick(c, r),
            ),
        }
    }
}

pub(crate) fn contains_model(blink: &Vec<u8>, model: u8) -> (r: bool)
    ensures
        r == blink@.contains(model),
{
    let mut i: usize = 0;
    while i < blink.len()
        invariant
            i <= blink@.len(),
            forall|j: int| 0 <= j < i ==> blink@[j] != model,
        decreases blink@.len() - i,
    {
        if blink[i] == model {
            assert(blink@[i as int] == model);
            return true;
        }
        i = i + 1;
    }
    false
}

fn resume_state(seed: u32, r: &FieldResult) -> (s: Option<(Sfmt, ModelStatus, i64)>)
    ensures
        resume_cursor(*r) is None ==> s is None,
        resume_cursor(*r) is Some ==> s is Some && {
            let c = resume_cursor(*r)->0;
            let (sfmt, status, tick) = s->0;
            &&& sfmt@ == seeded(seed).skip64(resume_frame(c) as nat)
            &&& sfmt.wf()
            &&& status.remain@ == c.status.remain@
            &&& tick == resume_tick(c, *r)
        },
{
    let cursor = match &r.target_cursor {
        Some(c) => c,
        None => match &r.timeline_cursor {
            Some(c) => c,
            None => return None,
        },
    };
    let frame: i64 = if cursor.stream_cursor < 0 {
        0
    } else {
        cursor.stream_cursor
    };
    let sfmt = sfmt_after(seed, frame as u64);
    let h = trunc_half(r.last_wait_frame);
    let tick = if cursor.tick >= h {
        cursor.tick
    } else {
        h
    };
    Some((sfmt, cursor.status.clone(), tick))
}

pub open spec fn timing_of(w: Option<(int, bool, int, int, nat)>) -> Option<(TargetTiming, nat)> {
    match w {
        None => None,
        Some(w) => Some(
            (
                TargetTiming {
                    absolute_wait_frame: (2 * w.0) as i64,
                    exact: w.1,
                    frame_before: w.2 as i64,
                    frame_after: w.3 as i64,
                },
                w.4,
            ),
        ),
    }
}

/// Where `target` falls after the candidate's last observed blink, and how
/// many blinks of the observed model come until then.
pub fn find_target_timing_from_cursor(seed: u32, r: &FieldResult, target: i64) -> (res: Option<(TargetTiming, u64)>)
    requires
        resume_cursor(*r) is Some ==> resume_cursor(*r)->0.status.remain@.len() <= i64::MAX,
    ensures
        match target_timing_spec(seed, *r, target as int) {
            None => res is None,
            Some(t) => res is Some && (res->0).0 == t.0 && (res->0).1 == t.1,
        },
        (resume_cursor(*r) is Some && resume_cursor(*r)->0.tick >= 0 && r.last_consumption < target && res is Some)
            ==> {
            let c = resume_cursor(*r)->0;
            let t = (res->0).0;
            let n = (res->0).1;
            let walked = t.absolute_wait_frame / 2 - resume_tick(c, *r);
            &&& 0 < walked
            &&& n == blinks_in_ticks(seed, r.observed_model as u8, resume_frame(c), c.status.remain@, walked as nat)
            &&& n <= walked
        },
        r.last_consumption == target ==> (res is Some && (res->0).1 == 0),
        (resume_cursor(*r) is Some && resume_cursor(*r)->0.tick >= 0 && r.last_consumption < target) ==> {
            let c = resume_cursor(*r)->0;
            let f = resume_frame(c);
            let rs = c.status.remain@;
            let cons = r.last_consumption as int;
            let tick = resume_tick(c, *r);
            &&& res is Some ==> {
                let walked = (res->0).0.absolute_wait_frame / 2 - tick;
                &&& step_meets(seed, f, rs, cons, target as int, (walked - 1) as nat)
                &&& forall|i: nat| i < walked - 1 ==> !#[trigger] step_meets(seed, f, rs, cons, target as int, i)
            }
            &&& res is None ==> forall|j: nat|
                tick + j < MAX_TARGET_TICKS && no_overflow_through(seed, f, rs, cons, j) ==> !#[trigger] step_meets(
                    seed,
                    f,
                    rs,
                    cons,
                    target as int,
                    j,
                )
        },
{
    let res = locate_target_timing(seed, r, target);
    proof {
        if resume_cursor(*r) is Some && resume_cursor(*r)->0.tick >= 0 {
            lemma_target_blink_count(seed, *r, target);
            if r.last_consumption < target {
                lemma_target_is_first_meeting(seed, *r, target);
            }
        }
    }
    res
}

fn locate_target_timing(seed: u32, r: &FieldResult, target: i64) -> (res: Option<(TargetTiming, u64)>)
    requires
        resume_cursor(*r) is Some ==> resume_cursor(*r)->0.status.remain@.len() <= i64::MAX,
    ensures
        match target_timing_spec(seed, *r, target as int) {
            None => res is None,
            Some(t) => res is Some && (res->0).0 == t.0 && (res->0).1 == t.1,
        },
{
    if r.last_consumption > target {
        return None;
    }
    if r.last_consumption == target {
        return Some(
            (
                TargetTiming {
                    absolute_wait_frame: r.last_wait_frame,
                    exact: true,
                    frame_before: target,
                    frame_after: target,
                },
                0,
            ),
        );
    }
    let (mut sfmt, mut status, mut tick) = match resume_state(seed, r) {
        Some(s) => s,
        None => return None,
    };
    let ghost c = resume_cursor(*r)->0;
    let ghost mut frame: int = resume_frame(c);
    let ghost tick0: int = tick as int;
    let model = r.observed_model as u8;
    let mut consumption = r.last_consumption;
    let mut count: u64 = 0;
    assert(tick0 >= -0x4000_0000_0000_0000) by {
        assert(trunc_div2(r.last_wait_frame as int) >= -0x4000_0000_0000_0000);
    }
    while tick < MAX_TARGET_TICKS
        invariant
            sfmt@ == seeded(seed).skip64(frame as nat),
            sfmt.wf(),
            0 <= frame,
            consumption < target,
            tick0 >= -0x4000_0000_0000_0000,
            tick0 <= tick,
            count <= tick - tick0,
            model == r.observed_model as u8,
            status.remain@.len() <= i64::MAX,
            target_timing_spec(seed, *r, target as int) == timing_of(
                target_walk(seed, model, target as int, frame, status.remain@, consumption as int, tick as int, count as nat),
            ),
        decreases MAX_TARGET_TICKS - tick,
    {
        let ghost rs = status.remain@;
        let ghost f0 = frame;
        let ghost k0 = tick as int;
        let ghost n0 = count as nat;
        let (used, blink) = status.next_state(&mut sfmt);
        proof {
            lemma_values64_shift(seed, frame as nat, used as nat);
            lemma_skip64_add(seeded(seed), frame as nat, used as nat);
            lemma_draws_before_bounds(rs, rs.len() as int);
            assert(status.remain@ == status_next(rs, tick_values(seed, frame, rs)));
            frame = frame + used;
        }
        let before = consumption;
        let next = match consumption.checked_add(used as i64) {
            Some(v) => v,
            None => {
                assert(target_walk(seed, model, target as int, f0, rs, before as int, k0, n0) is None);
                return None;
            },
        };
        let blinked = contains_model(&blink, model);
        if blinked {
            count = count + 1;
        }
        consumption = next;
        tick = tick + 1;
        proof {
            let w0 = target_walk(seed, model, target as int, f0, rs, before as int, k0, n0);
            if before <= target && target < consumption {
                assert(w0 == Some((tick as int, false, before as int, consumption as int, count as nat)));
            } else if consumption == target {
                assert(w0 == Some((tick as int, true, target as int, target as int, count as nat)));
            } else {
                assert(w0 == target_walk(seed, model, target as int, frame, status.remain@, consumption as int, tick as int, count as nat));
            }
        }
        if before <= target && target < consumption {
            return Some(
                (
                    TargetTiming {
                        absolute_wait_frame: tick * 2,
                        exact: false,
                        frame_before: before,
                        frame_after: consumption,
                    },
                    count,
                ),
            );
        }
        if consumption == target {
            return Some(
                (
                    TargetTiming {
                        absolute_wait_frame: tick * 2,
                        exact: true,
                        frame_before: target,
                        frame_after: target,
                    },
                    count,
                ),
            );
        }
    }
    None
}

/// The tick of `target` on the candidate's saved timeline, counted the way
/// the offset correction compares positions: a position reached at the end
/// of a step belongs to the following step.
pub fn find_correction_tick_from_cursor(seed: u32, r: &FieldResult, target: i64) -> (res: Option<i64>)
    requires
        resume_cursor(*r) is Some ==> resume_cursor(*r)->0.status.remain@.len() <= i64::MAX,
    ensures
        match correction_tick_spec(seed, *r, target as int) {
            None => res is None,
            Some(k) => res == Some(k as i64),
        },
{
    if r.last_consumption > target {
        return None;
    }
    if r.last_consumption == target {
        return Some(floor_half(r.last_wait_frame));
    }
    let (mut sfmt, mut status, mut tick) = match resume_state(seed, r) {
        Some(s) => s,
        None => return None,
    };
    let ghost c = resume_cursor(*r)->0;
    let ghost mut frame: int = resume_frame(c);
    let mut consumption = r.last_consumption;
    while tick < MAX_TARGET_TICKS
        invariant
            sfmt@ == seeded(seed).skip64(frame as nat),
            sfmt.wf(),
            0 <= frame,
            consumption <= target,
            status.remain@.len() <= i64::MAX,
            correction_tick_spec(seed, *r, target as int) == correction_walk(
                seed,
                target as int,
                frame,
                status.remain@,
                consumption as int,
                tick as int,
            ),
        decreases MAX_TARGET_TICKS - tick,
    {
        let ghost rs = status.remain@;
        let ghost f0 = frame;
        let ghost k0 = tick as int;
        let before = consumption;
        let (used, _) = status.next_state(&mut sfmt);
        proof {
            lemma_values64_shift(seed, frame as nat, used as nat);
            lemma_skip64_add(seeded(seed), frame as nat, used as nat);
            lemma_draws_before_bounds(rs, rs.len() as int);
            assert(status.remain@ == status_next(rs, tick_values(seed, frame, rs)));
            frame = frame + used;
        }
        consumption = match consumption.checked_add(used as i64) {
            Some(v) => v,
            None => {
                assert(correction_walk(seed, target as int, f0, rs, before as int, k0) is None);
                return None;
            },
        };
        tick = tick + 1;
        if before <= target && target < consumption {
            assert(correction_walk(seed, target as int, f0, rs, before as int, k0) == Some(tick as int));
            return Some(tick);
        }
        assert(correction_walk(seed, target as int, f0, rs, before as int, k0) == correction_walk(
            seed,
            target as int,
            frame,
            status.remain@,
            consumption as int,
            tick as int,
        ));
    }
    None
}

/// The target fields of `out` are those of `inp` located on its timeline.
pub open spec fn target_applied(out: FieldResult, inp: FieldResult, seed: u32, target: int) -> bool {
    &&& same_untargeted(out, inp)
    &&& target_fields_from(out, inp, seed, target)
}

/// The target fields of `r` locate `target` on its own timeline.
pub open spec fn target_fields(r: FieldResult, seed: u32, target: int) -> bool {
    target_fields_from(r, r, seed, target)
}

pub open spec fn target_fields_from(out: FieldResult, inp: FieldResult, seed: u32, target: int) -> bool {
    if target < inp.start_consumption || target < inp.last_consumption {
        &&& out.target_wait_frame is None
        &&& out.target_exact == Some(false)
        &&& out.target_frame_before == Some(target as i64)
        &&& out.target_frame_after == Some(inp.last_consumption)
        &&& out.target_blink_count is None
    } else {
        match target_timing_spec(seed, inp, target) {
            None => {
                &&& out.target_wait_frame is None
                &&& out.target_exact == Some(false)
                &&& out.target_frame_before is None
                &&& out.target_frame_after is None
                &&& out.target_blink_count is None
            },
            Some(t) => {
                &&& out.target_wait_frame == Some((t.0.absolute_wait_frame - inp.last_wait_frame) as i64)
                &&& out.target_exact == Some(t.0.exact)
                &&& out.target_frame_before == Some(t.0.frame_before)
                &&& out.target_frame_after == Some(t.0.frame_after)
                &&& out.target_blink_count == Some(t.1 as usize)
            },
        }
    }
}

/// Locating a target changes no other field, and the target fields read
/// only fields it keeps.
pub proof fn lemma_target_applied_own(out: FieldResult, inp: FieldResult, seed: u32, target: int)
    requires
        target_applied(out, inp, seed, target),
    ensures
        target_fields(out, seed, target),
        target_timing_spec(seed, out, target) == target_timing_spec(seed, inp, target),
{
}

/// Adds the target fields to a matched candidate. A candidate that cannot
/// reach the target is kept, with the target marked unavailable.
pub fn apply_target_from_cursor(result: FieldResult, seed: u32, target: i64) -> (out: FieldResult)
    requires
        resume_cursor(result) is Some ==> resume_cursor(result)->0.status.remain@.len() <= i64::MAX,
        result.last_wait_frame >= -0x4000_0000_0000_0000,
    ensures
        target_applied(out, result, seed, target as int),
{
    let mut result = result;
    if target < result.start_consumption || target < result.last_consumption {
        result.target_wait_frame = None;
        result.target_exact = Some(false);
        result.target_frame_before = Some(target);
        result.target_frame_after = Some(result.last_consumption);
        result.target_blink_count = None;
        return result;
    }
    match find_target_timing_from_cursor(seed, &result, target) {
        None => {
            result.target_wait_frame = None;
            result.target_exact = Some(false);
            result.target_frame_before = None;
            result.target_frame_after = None;
            result.target_blink_count = None;
        },
        Some((timing, count)) => {
            proof {
                if result.last_consumption < target {
                    lemma_walk_tick_bound(seed, result, target as int);
                }
            }
            result.target_wait_frame = Some(timing.absolute_wait_frame - result.last_wait_frame);
            result.target_exact = Some(timing.exact);
            result.target_frame_before = Some(timing.frame_before);
            result.target_frame_after = Some(timing.frame_after);
            result.target_blink_count = Some(count as usize);
        },
    }
    result
}

/// A target walk ends after its start tick and within the tick limit.
proof fn lemma_target_walk_range(
    seed: u32,
    model: u8,
    target: int,
    frame: int,
    rs: Seq<i32>,
    cons: int,
    tick: int,
    count: nat,
)
    ensures
        target_walk(seed, model, target, frame, rs, cons, tick, count) matches Some(w) ==> tick < w.0
            <= MAX_TARGET_TICKS,
    decreases MAX_TARGET_TICKS - tick,
{
    if tick < MAX_TARGET_TICKS {
        let used = status_used(rs);
        let n = count + if status_blinks(rs).contains(model) {
            1nat
        } else {
            0nat
        };
        lemma_target_walk_range(
            seed,
            model,
            target,
            frame + used,
            status_next(rs, tick_values(seed, frame, rs)),
            cons + used,
            tick + 1,
            n,
        );
    }
}

/// The timing found on a saved timeline lies within display frames whose
/// difference from the last observed blink fits in 64 bits.
proof fn lemma_walk_tick_bound(seed: u32, r: FieldResult, target: int)
    requires
        r.last_wait_frame >= -0x4000_0000_0000_0000,
        r.last_consumption < target,
        target_timing_spec(seed, r, target) is Some,
    ensures
        ({
            let t = target_timing_spec(seed, r, target)->0;
            i64::MIN <= t.0.absolute_wait_frame - r.last_wait_frame <= i64::MAX
        }),
{
    let c = resume_cursor(r)->0;
    lemma_target_walk_range(
        seed,
        r.observed_model as u8,
        target,
        resume_frame(c),
        c.status.remain@,
        r.last_consumption as int,
        resume_tick(c, r),
        0,
    );
}

/// The offset that would have made the timer meet `actual` where it met
/// `target`: the current offset minus two display frames per tick of
/// drift, every step saturating. `None` for a negative position or one
/// the saved timeline cannot place.
pub fn suggest_field_offset_from_result(
    seed: u32,
    result: &FieldResult,
    target: i64,
    actual: i64,
    current_offset: i64,
) -> (r: Option<i64>)
    requires
        resume_cursor(*result) is Some ==> resume_cursor(*result)->0.status.remain@.len() <= i64::MAX,
    ensures
        (target < 0 || actual < 0) ==> r is None,
        !(target < 0 || actual < 0) ==> match (
            correction_tick_spec(seed, *result, target as int),
            correction_tick_spec(seed, *result, actual as int),
        ) {
            (Some(t), Some(a)) => r == Some(
                clamp_i64(current_offset - clamp_i64(2 * clamp_i64(a - t))) as i64,
            ),
            _ => r is None,
        },
{
    if target < 0 || actual < 0 {
        return None;
    }
    let target_tick = match find_correction_tick_from_cursor(seed, result, target) {
        Some(t) => t,
        None => return None,
    };
    let actual_tick = match find_correction_tick_from_cursor(seed, result, actual) {
        Some(t) => t,
        None => return None,
    };
    proof {
        lemma_correction_tick_range(seed, *result, target as int);
        lemma_correction_tick_range(seed, *result, actual as int);
    }
    let drift = saturating_sub_i64(actual_tick, target_tick);
    Some(saturating_sub_i64(current_offset, saturating_double_i64(drift)))
}

proof fn lemma_correction_walk_range(seed: u32, target: int, frame: int, rs: Seq<i32>, cons: int, tick: int)
    ensures
        correction_walk(seed, target, frame, rs, cons, tick) matches Some(k) ==> tick < k <= MAX_TARGET_TICKS,
    decreases MAX_TARGET_TICKS - tick,
{
    if tick < MAX_TARGET_TICKS {
        let used = status_used(rs);
        lemma_correction_walk_range(seed, target, frame + used, status_next(rs, tick_values(seed, frame, rs)), cons + used, tick + 1);
    }
}

/// A correction tick always fits in 64 bits.
proof fn lemma_correction_tick_range(seed: u32, r: FieldResult, target: int)
    ensures
        correction_tick_spec(seed, r, target) matches Some(k) ==> i64::MIN <= k <= i64::MAX,
{
    if r.last_consumption < target {
        if let Some(c) = resume_cursor(r) {
            lemma_correction_walk_range(
                seed,
                target,
                resume_frame(c),
                c.status.remain@,
                r.last_consumption as int,
                resume_tick(c, r),
            );
        }
    }
}

} // verus!
