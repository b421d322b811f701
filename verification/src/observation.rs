//! Hatch blink observation: the interval model, the shared SFMT cache layout
//! and the matching of observed intervals against it.

use vstd::prelude::*;
use crate::sfmt::{sfmt_u64_at, stream_from, generate_u64_values, generate_u64_values_from};
use crate::encounter::blink_interval_ticks;

verus! {

/// Largest SFMT position any cache covers.
pub const MAX_SFMT_FRAME: i64 = 50_000_000;

/// Extra values kept after the search range so later blinks can be matched.
pub const OBSERVATION_LOOKAHEAD: i64 = 4096;

/// Game frames per 1/30-second blink check.
pub const GAME_FRAMES_PER_BLINK_TICK: i64 = 2;

/// Blink interval, in checks, drawn from `value`.
pub open spec fn interval_ticks(value: u64) -> int {
    (value % 120 + 130) as int
}

/// Blink interval, in display frames, drawn from `value`.
pub open spec fn interval_frames(value: u64) -> int {
    interval_ticks(value) * 2
}

/// Why a cache layout was refused.
#[derive(Clone, Copy, Debug, PartialEq, Eq)]
pub enum ObservationError {
    /// The range end exceeds `MAX_SFMT_FRAME`.
    RangeEndTooLarge,
    /// The requested window does not fit in 64-bit positions.
    RangeTooLarge,
}

/// The positions a shared observation cache covers.
#[derive(Clone, Copy, Debug, PartialEq, Eq)]
pub struct ObservationRange {
    pub range_start: i64,
    pub range_end: i64,
    /// Number of values stored (positions `0..value_count`).
    pub value_count: u64,
}

/// Layout of the cache for a requested range: the start is clamped at 0,
/// the end at the start, and the stored values reach `OBSERVATION_LOOKAHEAD`
/// past the end (capped at `MAX_SFMT_FRAME`).
pub fn observation_range(range_start: i64, range_end: i64) -> (r: Result<ObservationRange, ObservationError>)
    ensures
        ({
            let s: int = if range_start < 0 { 0 } else { range_start as int };
            let e: int = if range_end < s { s } else { range_end as int };
            let last: int = if e + OBSERVATION_LOOKAHEAD < MAX_SFMT_FRAME { e + OBSERVATION_LOOKAHEAD } else { MAX_SFMT_FRAME as int };
            &&& e > MAX_SFMT_FRAME ==> r == Err::<ObservationRange, ObservationError>(ObservationError::RangeEndTooLarge)
            &&& e <= MAX_SFMT_FRAME ==> r == Ok::<ObservationRange, ObservationError>(
                ObservationRange { range_start: s as i64, range_end: e as i64, value_count: (last + 1) as u64 },
            )
        }),
{
    let s = if range_start < 0 { 0 } else { range_start };
    let e = if range_end < s { s } else { range_end };
    if e > MAX_SFMT_FRAME {
        return Err(ObservationError::RangeEndTooLarge);
    }
    let last = if e + OBSERVATION_LOOKAHEAD < MAX_SFMT_FRAME { e + OBSERVATION_LOOKAHEAD } else { MAX_SFMT_FRAME };
    Ok(ObservationRange { range_start: s, range_end: e, value_count: (last + 1) as u64 })
}

/// A start position whose blink intervals match the observation.
#[derive(Clone, Copy, Debug, PartialEq, Eq)]
pub struct ObservationMatch {
    pub start_position: i64,
    /// Position after the last observed blink.
    pub sfmt_position: i64,
    /// Checks until the next blink.
    pub next_blink_ticks: i64,
}

/// The observed intervals match the values starting at offset `i`.
pub open spec fn window_matches(values: Seq<u64>, i: int, observed: Seq<i64>, tolerance: i64) -> bool {
    forall|o: int|
        0 <= o < observed.len() ==> {
            let d = interval_frames(#[trigger] values[i + o]) - observed[o];
            -tolerance <= d <= tolerance
        }
}

/// Matches among the first `k` candidate offsets, in increasing order.
pub open spec fn matches_upto(values: Seq<u64>, base: int, observed: Seq<i64>, tolerance: i64, k: int) -> Seq<
    ObservationMatch,
>
    decreases k,
{
    if k <= 0 {
        Seq::empty()
    } else {
        let prev = matches_upto(values, base, observed, tolerance, k - 1);
        let i = k - 1;
        if window_matches(values, i, observed, tolerance) {
            prev.push(
                ObservationMatch {
                    start_position: (base + i) as i64,
                    sfmt_position: (base + i + observed.len()) as i64,
                    next_blink_ticks: interval_ticks(values[i + observed.len()]) as i64,
                },
            )
        } else {
            prev
        }
    }
}

impl ObservationRange {
    /// Number of positions in the search range.
    pub fn len(&self) -> (r: usize)
        requires
            0 <= self.range_start <= self.range_end <= MAX_SFMT_FRAME,
        ensures
            r == self.range_end - self.range_start + 1,
    {
        (self.range_end - self.range_start + 1) as usize
    }

    /// Last position actually stored (the search range excludes the
    /// lookahead).
    pub fn available_end(&self) -> (r: i64)
        ensures
            self.value_count == 0 ==> r == 0,
            self.value_count > 0 ==> r == if self.value_count - 1 > i64::MAX { i64::MAX as int } else { self.value_count - 1 },
    {
        let last = if self.value_count == 0 { 0 } else { self.value_count - 1 };
        if last > i64::MAX as u64 { i64::MAX } else { last as i64 }
    }

    /// The values to read for matching `observed_len` intervals: the first
    /// position and the count, or `None` when no start position has enough
    /// stored values after it.
    pub fn match_window(&self, observed_len: usize) -> (r: Option<(i64, usize)>)
        requires
            0 <= self.range_start <= self.range_end <= MAX_SFMT_FRAME,
            self.value_count <= MAX_SFMT_FRAME + 1,
            observed_len <= MAX_SFMT_FRAME,
        ensures
            ({
                let last_cached: int = if self.value_count == 0 { 0 } else { self.value_count - 1 };
                let latest = if self.range_end < last_cached - observed_len {
                    self.range_end as int
                } else {
                    last_cached - observed_len
                };
                &&& (observed_len == 0 || latest < self.range_start) ==> r is None
                &&& !(observed_len == 0 || latest < self.range_start) ==> r == Some(
                    (self.range_start, (latest + observed_len - self.range_start + 1) as usize),
                )
            }),
    {
        if observed_len == 0 {
            return None;
        }
        let last_cached: i64 = if self.value_count == 0 { 0 } else { (self.value_count - 1) as i64 };
        let bound = last_cached - observed_len as i64;
        let latest = if self.range_end < bound { self.range_end } else { bound };
        if latest < self.range_start {
            return None;
        }
        let count = (latest + observed_len as i64 - self.range_start + 1) as usize;
        Some((self.range_start, count))
    }
}

/// Start positions (from `base`, the absolute position of `values[0]`) at
/// which the observed display-frame intervals match within `tolerance`.
/// Each start needs its observed values plus one more for the next blink.
pub fn find_matches_in(values: &[u64], base: i64, observed: &[i64], tolerance: i64) -> (r: Vec<ObservationMatch>)
    requires
        0 <= base,
        base + values@.len() <= i64::MAX,
    ensures
        observed@.len() == 0 ==> r@.len() == 0,
        observed@.len() > 0 && values@.len() < observed@.len() + 1 ==> r@.len() == 0,
        observed@.len() > 0 && values@.len() >= observed@.len() + 1 ==> r@ == matches_upto(
            values@,
            base as int,
            observed@,
            tolerance,
            values@.len() - observed@.len(),
        ),
{
    let mut out: Vec<ObservationMatch> = Vec::new();
    let n = observed.len();
    if n == 0 || values.len() <= n {
        return out;
    }
    let candidates = values.len() - n;
    let mut i: usize = 0;
    while i < candidates
        invariant
            n == observed@.len(),
            n > 0,
            values@.len() <= usize::MAX,
            candidates == values@.len() - n,
            i <= candidates,
            0 <= base,
            base + values@.len() <= i64::MAX,
            out@ == matches_upto(values@, base as int, observed@, tolerance, i as int),
        decreases candidates - i,
    {
        let mut ok = true;
        let mut o: usize = 0;
        while o < n
            invariant
                n == observed@.len(),
                values@.len() <= usize::MAX,
                i < candidates,
                candidates == values@.len() - n,
                o <= n,
                ok <==> forall|p: int|
                    0 <= p < o ==> {
                        let d = interval_frames(#[trigger] values@[i + p]) - observed@[p];
                        -tolerance <= d <= tolerance
                    },
            decreases n - o,
        {
            let frames = (blink_interval_ticks(values[i + o]) * 2) as i128;
            let d = frames - observed[o] as i128;
            if d < -(tolerance as i128) || d > tolerance as i128 {
                ok = false;
            }
            o = o + 1;
        }
        if ok {
            let next = blink_interval_ticks(values[i + n]) as i64;
            out.push(
                ObservationMatch {
                    start_position: base + i as i64,
                    sfmt_position: base + (i + n) as i64,
                    next_blink_ticks: next,
                },
            );
        }
        proof {
            assert((i + 1 - 1) as int == i as int);
        }
        i = i + 1;
    }
    out
}

/// One blink on a hatch observation timeline.
#[derive(Clone, Copy, Debug, PartialEq, Eq)]
pub struct BlinkPoint {
    /// Game frames elapsed since the reference blink.
    pub elapsed_frames: i64,
    /// SFMT position (a different unit from elapsed frames).
    pub sfmt_position: i64,
    /// Checks until the next blink; `None` for the last blink.
    pub next_blink_ticks: Option<i64>,
}

/// Hatch blink timeline from one start position (no NPCs involved).
#[derive(Clone, Debug)]
pub struct BlinkTimeline {
    pub start: i64,
    pub blinks: Vec<BlinkPoint>,
}

/// Sum of the blink intervals (in checks) of the `k` values from offset `c`.
pub open spec fn ticks_sum(values: Seq<u64>, c: int, k: int) -> int
    decreases k,
{
    if k <= 0 {
        0
    } else {
        ticks_sum(values, c, k - 1) + interval_ticks(values[c + k - 1])
    }
}

/// The `i`-th blink of the observation timeline whose reference blink is at
/// position `c` and which has `len` blinks.
pub open spec fn observation_blink(values: Seq<u64>, c: int, len: int, i: int) -> BlinkPoint {
    BlinkPoint {
        elapsed_frames: (2 * ticks_sum(values, c, i)) as i64,
        sfmt_position: (c + i) as i64,
        next_blink_ticks: if i + 1 < len { Some(interval_ticks(values[c + i]) as i64) } else { None },
    }
}

pub proof fn lemma_ticks_sum_bounds(values: Seq<u64>, c: int, k: int)
    requires
        k >= 0,
    ensures
        130 * k <= ticks_sum(values, c, k) <= 249 * k,
    decreases k,
{
    if k > 0 {
        lemma_ticks_sum_bounds(values, c, k - 1);
    }
}

/// `tl` is the observation timeline from `start` up to `target` over the
/// values `values` (absolute positions from 0).
pub open spec fn observation_timeline(values: Seq<u64>, start: i64, target: i64, tl: BlinkTimeline) -> bool {
    let c: int = if start < 0 { 0 } else { start as int };
    let t: int = if target < 0 { 0 } else { target as int };
    let len: int = if c <= t { if t - c + 2 < 10_000_000 { t - c + 2 } else { 10_000_000 } } else { 1 };
    &&& tl.start == start
    &&& tl.blinks@.len() == len
    &&& forall|i: int| 0 <= i < len ==> #[trigger] tl.blinks@[i] == observation_blink(values, c, len, i)
}

/// Simulates the blink observation from `start` with SFMT values `values`
/// (absolute positions from 0): the reference blink, then one blink per
/// value up to position `target` (and at most 10,000,000 blinks).
pub fn simulate_observation_with_stream(values: &[u64], start: i64, target: i64) -> (r: BlinkTimeline)
    requires
        (if target < 0 { 0 } else { target as int }) < values@.len(),
        values@.len() <= 1_000_000_000,
    ensures
        observation_timeline(values@, start, target, r),
{
    let ci: i64 = if start < 0 { 0 } else { start };
    let ti: i64 = if target < 0 { 0 } else { target };
    let vlen = values.len();
    let t: usize = ti as usize;
    let c: usize = if ci <= ti { ci as usize } else { t + 1 };
    let mut cursor: usize = c;
    let mut elapsed: i64 = 0;
    let mut blinks: Vec<BlinkPoint> = Vec::new();
    blinks.push(BlinkPoint { elapsed_frames: 0, sfmt_position: ci, next_blink_ticks: None });
    while cursor <= t && blinks.len() < 10_000_000
        invariant
            ci <= ti ==> c == ci,
            ci > ti ==> c == t + 1,
            t == ti,
            c > t ==> cursor == c,
            c <= t ==> c <= cursor <= t + 1,
            blinks@.len() <= 10_000_000,
            t < values@.len(),
            values@.len() <= 1_000_000_000,
            blinks@.len() == cursor - c + 1,
            elapsed == 2 * ticks_sum(values@, c as int, cursor - c),
            blinks@[0].elapsed_frames == 0,
            forall|i: int|
                0 <= i < blinks@.len() ==> (#[trigger] blinks@[i]).elapsed_frames == 2 * ticks_sum(values@, c as int, i)
                    && blinks@[i].sfmt_position == ci + i,
            forall|i: int|
                1 <= i < blinks@.len() ==> (#[trigger] blinks@[i]).next_blink_ticks == Some(
                    interval_ticks(values@[c + i - 1]) as i64,
                ),
        decreases t + 1 - cursor,
    {
        proof {
            lemma_ticks_sum_bounds(values@, c as int, (cursor - c) as int);
        }
        let value = values[cursor];
        let interval = blink_interval_ticks(value) as i64;
        elapsed = elapsed + interval * 2;
        cursor = cursor + 1;
        blinks.push(BlinkPoint { elapsed_frames: elapsed, sfmt_position: cursor as i64, next_blink_ticks: Some(interval) });
    }
    let ghost raw = blinks@;
    let len = blinks.len();
    let mut i: usize = 0;
    while i + 1 < len
        invariant
            len == blinks@.len(),
            len == raw.len(),
            len >= 1,
            i < len,
            forall|j: int| 0 <= j < len ==> (#[trigger] blinks@[j]).elapsed_frames == raw[j].elapsed_frames
                && blinks@[j].sfmt_position == raw[j].sfmt_position,
            forall|j: int| 0 <= j < i ==> (#[trigger] blinks@[j]).next_blink_ticks == raw[j + 1].next_blink_ticks,
            forall|j: int| i <= j < len ==> (#[trigger] blinks@[j]).next_blink_ticks == raw[j].next_blink_ticks,
            forall|j: int| 1 <= j < len ==> (#[trigger] raw[j]).next_blink_ticks is Some,
            forall|j: int| 0 <= j < len ==> (#[trigger] raw[j]).elapsed_frames == 2 * ticks_sum(values@, c as int, j)
                && raw[j].sfmt_position == ci + j,
            forall|j: int| 1 <= j < len ==> (#[trigger] raw[j]).next_blink_ticks == Some(
                interval_ticks(values@[c + j - 1]) as i64,
            ),
        decreases len - i,
    {
        let a = blinks[i];
        let b = blinks[i + 1];
        let ticks = (b.elapsed_frames - a.elapsed_frames) / 2;
        proof {
            assert(ticks_sum(values@, c as int, i + 1) == ticks_sum(values@, c as int, i as int) + interval_ticks(values@[c + i]));
        }
        blinks.set(i, BlinkPoint { elapsed_frames: a.elapsed_frames, sfmt_position: a.sfmt_position, next_blink_ticks: Some(ticks) });
        i = i + 1;
    }
    let last = blinks[len - 1];
    blinks.set(len - 1, BlinkPoint { elapsed_frames: last.elapsed_frames, sfmt_position: last.sfmt_position, next_blink_ticks: None });
    proof {
        let cc = ci as int;
        let tt = ti as int;
        assert(len == if cc <= tt { if tt - cc + 2 < 10_000_000 { tt - cc + 2 } else { 10_000_000 } } else { 1 });
        assert forall|j: int| 0 <= j < len implies #[trigger] blinks@[j] == observation_blink(values@, cc, len as int, j) by {
            lemma_ticks_sum_bounds(values@, cc, j);
            if j + 1 < len {
                assert(raw[j + 1].next_blink_ticks == Some(interval_ticks(values@[cc + j]) as i64));
            }
        }
    }
    BlinkTimeline { start, blinks }
}


/// The first `n` outputs of `seed`.
pub open spec fn sfmt_prefix(seed: u32, n: nat) -> Seq<u64> {
    Seq::new(n, |p: int| sfmt_u64_at(seed, p as nat))
}

/// Hatch blink timelines for every start in `range_start..=range_end`,
/// each followed up to `OBSERVATION_LOOKAHEAD` past the range end (or past
/// `target` when that lies further). The target never excludes a candidate.
pub fn search_observation(seed: u32, range_start: i64, range_end: i64, target: i64) -> (r: Vec<BlinkTimeline>)
    requires
        range_end <= MAX_SFMT_FRAME,
        target <= MAX_SFMT_FRAME,
    ensures
        ({
            let top: int = if range_end > target { range_end as int } else { target as int };
            let limit: int = (if top < 0 { 0 } else { top }) + OBSERVATION_LOOKAHEAD;
            &&& range_start > range_end ==> r@.len() == 0
            &&& range_start <= range_end ==> r@.len() == range_end - range_start + 1
            &&& forall|i: int| 0 <= i < r@.len() ==> observation_timeline(
                sfmt_prefix(seed, (limit + 2) as nat),
                (range_start + i) as i64,
                limit as i64,
                #[trigger] r@[i],
            )
        }),
{
    let top = if range_end > target { range_end } else { target };
    let limit = (if top < 0 { 0 } else { top }) + OBSERVATION_LOOKAHEAD;
    let values = generate_u64_values(seed, (limit + 2) as usize);
    proof {
        assert(values@ =~= sfmt_prefix(seed, (limit + 2) as nat));
    }
    let mut out: Vec<BlinkTimeline> = Vec::new();
    if range_start > range_end {
        return out;
    }
    let mut s = range_start;
    while s <= range_end
        invariant
            range_start <= s <= range_end + 1,
            range_end <= MAX_SFMT_FRAME,
            values@ == sfmt_prefix(seed, (limit + 2) as nat),
            0 <= limit <= MAX_SFMT_FRAME + OBSERVATION_LOOKAHEAD,
            out@.len() == s - range_start,
            forall|i: int| 0 <= i < out@.len() ==> observation_timeline(
                values@,
                (range_start + i) as i64,
                limit,
                #[trigger] out@[i],
            ),
        decreases range_end + 1 - s,
    {
        let tl = simulate_observation_with_stream(values.as_slice(), s, limit);
        out.push(tl);
        s = s + 1;
    }
    out
}

/// One row of the blink table.
#[derive(Clone, Copy, Debug, PartialEq, Eq, Structural)]
pub struct BlinkTableRow {
    /// SFMT position of the row.
    pub frame: i64,
    /// Checks (about 1/30 second each) until the next blink, from this
    /// position's value.
    pub interval_ticks: u64,
    /// The Rotom chatter roll, from the next position's value.
    pub rotom_roll: Option<u8>,
    /// The 64-bit value at this position.
    pub random_value: u64,
}

/// The table row of position `p`.
pub open spec fn table_row(seed: u32, p: int) -> BlinkTableRow {
    BlinkTableRow {
        frame: p as i64,
        interval_ticks: (sfmt_u64_at(seed, p as nat) % 120 + 130) as u64,
        rotom_roll: Some((sfmt_u64_at(seed, (p + 1) as nat) % 100) as u8),
        random_value: sfmt_u64_at(seed, p as nat),
    }
}

/// The blink table of the positions `range_start..=range_end`, negative
/// positions left out: each position's value, its blink interval and the
/// next value's Rotom roll.
pub fn blink_table(seed: u32, range_start: i64, range_end: i64) -> (r: Vec<BlinkTableRow>)
    requires
        range_end < isize::MAX / 8 - 2,
    ensures
        ({
            let s = if range_start > 0 { range_start as int } else { 0 };
            &&& range_end < s ==> r@.len() == 0
            &&& range_end >= s ==> r@.len() == range_end - s + 1 && forall|i: int|
                0 <= i < r@.len() ==> #[trigger] r@[i] == table_row(seed, s + i)
        }),
{
    let start: i64 = if range_start > 0 {
        range_start
    } else {
        0
    };
    let mut rows: Vec<BlinkTableRow> = Vec::new();
    if range_end < start {
        return rows;
    }
    let count: usize = (range_end - start + 2) as usize;
    let values = generate_u64_values_from(seed, start as usize, count);
    let n: usize = (range_end - start + 1) as usize;
    let mut i: usize = 0;
    while i < n
        invariant
            n + 1 == count,
            values@.len() == count,
            stream_from(values@, seed, start as int),
            0 <= start <= range_end,
            n == range_end - start + 1,
            i <= n,
            rows@.len() == i,
            forall|j: int| 0 <= j < i ==> #[trigger] rows@[j] == table_row(seed, start + j),
        decreases n - i,
    {
        let value = values[i];
        let next = values[i + 1];
        let interval = blink_interval_ticks(value);
        rows.push(
            BlinkTableRow {
                frame: start + i as i64,
                interval_ticks: interval,
                rotom_roll: Some((next % 100) as u8),
                random_value: value,
            },
        );
        proof {
            assert(values@[i as int] == sfmt_u64_at(seed, (start + i) as nat));
            assert(values@[i + 1] == sfmt_u64_at(seed, (start + i + 1) as nat));
        }
        i = i + 1;
    }
    rows
}

} // verus!
