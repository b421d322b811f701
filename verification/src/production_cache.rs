//! A continuous production timeline kept in memory, so that target queries
//! become lookups instead of re-simulations.

use vstd::prelude::*;
use crate::sfmt::{Sfmt, sfmt_after, seeded, lemma_values64_shift, lemma_skip64_add};
use crate::model_status::{ModelStatus, lemma_draws_before_bounds};
use crate::timeline::{
    MAX_TIMELINE_TICKS, TimelineTarget, max_models, tl_frame, tl_remain, lemma_tl_unfold, lemma_tl_monotone,
    lemma_tl_remain_len, spec_timeline_target, first_hit, hits_at, target_result_at, lemma_first_hit_unique,
    lemma_spec_timeline_target_unique,
};

verus! {

/// Lookahead limit of the continuous production timeline, independent of
/// the target.
pub const PRODUCTION_TIMELINE_CACHE_FRAMES: i64 = 100_000;

/// Positions the cache grows by per call when a target is given.
pub const PRODUCTION_TIMELINE_CACHE_CHUNK_FRAMES: i64 = 4_096;

/// One tick of the cached timeline.
#[derive(Clone, Copy, Debug, PartialEq, Eq)]
pub struct ProductionTimelinePoint {
    pub frame_before: i64,
    pub frame_after: i64,
    pub tick: i64,
}

/// The timeline from `start`, cached up to `points.len()` ticks, with the
/// generator and counters positioned after the last cached tick.
pub struct ProductionTimelineCache {
    seed: u32,
    start: i64,
    models: usize,
    points: Vec<ProductionTimelinePoint>,
    frame_limit: i64,
    frame: i64,
    tick: i64,
    sfmt: Sfmt,
    status: ModelStatus,
}

/// Point `i` of the timeline of `seed` from `start`.
pub open spec fn point_at(seed: u32, start: int, models: nat, i: int) -> ProductionTimelinePoint {
    ProductionTimelinePoint {
        frame_before: tl_frame(seed, start, models, i as nat) as i64,
        frame_after: tl_frame(seed, start, models, (i + 1) as nat) as i64,
        tick: (i + 1) as i64,
    }
}

impl ProductionTimelineCache {
    pub closed spec fn spec_seed(&self) -> u32 {
        self.seed
    }

    pub closed spec fn spec_start(&self) -> int {
        self.start as int
    }

    pub closed spec fn spec_models(&self) -> nat {
        self.models as nat
    }

    pub closed spec fn spec_frame_limit(&self) -> int {
        self.frame_limit as int
    }

    /// Number of cached ticks.
    pub closed spec fn spec_ticks(&self) -> int {
        self.tick as int
    }

    /// Position after the last cached tick.
    pub closed spec fn spec_frame(&self) -> int {
        self.frame as int
    }

    pub closed spec fn spec_points(&self) -> Seq<ProductionTimelinePoint> {
        self.points@
    }

    /// Position before cached tick `i` (for `i == ticks`: the end position).
    pub open spec fn f(&self, i: int) -> int {
        tl_frame(self.spec_seed(), self.spec_start(), self.spec_models(), i as nat)
    }

    /// Position after cached tick `i`.
    pub open spec fn fa(&self, i: int) -> int {
        self.f(i + 1)
    }

    /// First cached tick whose start position is at least `t` (or the tick
    /// count).
    pub open spec fn first_before_ge(&self, t: int) -> int {
        if exists|i: int|
            0 <= i < self.spec_ticks() && #[trigger] self.f(i) >= t && forall|j: int| 0 <= j < i ==> #[trigger] self.f(j) < t {
            choose|i: int|
                0 <= i < self.spec_ticks() && #[trigger] self.f(i) >= t && forall|j: int| 0 <= j < i ==> #[trigger] self.f(j) < t
        } else {
            self.spec_ticks()
        }
    }

    /// First cached tick whose end position is at least `t` (or the tick
    /// count).
    pub open spec fn first_after_ge(&self, t: int) -> int {
        if exists|i: int|
            0 <= i < self.spec_ticks() && #[trigger] self.fa(i) >= t && forall|j: int| 0 <= j < i ==> #[trigger] self.fa(j) < t {
            choose|i: int|
                0 <= i < self.spec_ticks() && #[trigger] self.fa(i) >= t && forall|j: int| 0 <= j < i ==> #[trigger] self.fa(j) < t
        } else {
            self.spec_ticks()
        }
    }

    /// The answer of a cached target lookup.
    pub open spec fn cached_target(&self, t: int) -> Option<TimelineTarget> {
        if t < self.spec_start() {
            None
        } else if t == self.spec_start() {
            Some(TimelineTarget { exact_tick: Some(0), timeline_tick: 0, frame_before: t as i64, frame_after: t as i64 })
        } else {
            let bi = self.first_before_ge(t);
            if bi < self.spec_ticks() && self.f(bi) == t {
                Some(TimelineTarget { exact_tick: Some(bi as i64), timeline_tick: bi as i64, frame_before: t as i64, frame_after: t as i64 })
            } else {
                let ai = self.first_after_ge(t);
                if ai >= self.spec_ticks() {
                    None
                } else if self.f(ai + 1) == t {
                    Some(TimelineTarget {
                        exact_tick: Some((ai + 1) as i64),
                        timeline_tick: (ai + 1) as i64,
                        frame_before: self.f(ai) as i64,
                        frame_after: t as i64,
                    })
                } else if self.f(ai) <= t && t < self.f(ai + 1) {
                    Some(TimelineTarget {
                        exact_tick: None,
                        timeline_tick: (ai + 1) as i64,
                        frame_before: self.f(ai) as i64,
                        frame_after: self.f(ai + 1) as i64,
                    })
                } else {
                    None
                }
            }
        }
    }

    /// A cached lookup of `t` with ticks counted from the cached tick at
    /// `start_frame`; nothing when `start_frame` is not a cached tick start
    /// or `t` lies before it.
    pub open spec fn target_from_spec(&self, start_frame: int, t: int) -> Option<TimelineTarget> {
        match (self.cached_tick_at(start_frame), self.cached_target(t)) {
            (Some(k), Some(a)) => if a.timeline_tick < k {
                None
            } else {
                Some(
                    TimelineTarget {
                        exact_tick: match a.exact_tick {
                            Some(e) => Some((e - k) as i64),
                            None => None,
                        },
                        timeline_tick: (a.timeline_tick - k) as i64,
                        frame_before: a.frame_before,
                        frame_after: a.frame_after,
                    },
                )
            },
            _ => None,
        }
    }

    /// The cached tick at whose start the position is `frame`: 0 for the
    /// start position, otherwise the first tick ending exactly at `frame`.
    pub open spec fn cached_tick_at(&self, frame: int) -> Option<int> {
        if frame == self.spec_start() {
            Some(0)
        } else {
            let ai = self.first_after_ge(frame);
            if ai < self.spec_ticks() && self.f(ai + 1) == frame {
                Some(ai + 1)
            } else {
                None
            }
        }
    }

    /// The position the cache never grows past.
    pub open spec fn limit_end(&self) -> int {
        self.spec_start() + self.spec_frame_limit()
    }

    /// `target` capped at the lookahead end.
    pub open spec fn capped(&self, target: i64) -> int {
        if target < self.limit_end() {
            target as int
        } else {
            self.limit_end()
        }
    }

    /// The last cached tick starts at position `c`.
    pub open spec fn boundary_at(&self, c: int) -> bool {
        self.spec_ticks() > 0 && self.f(self.spec_ticks() - 1) == c
    }

    /// Nothing is left for `extend_until(target)` to do: the tick limit is
    /// reached, the cache ends past the capped target, or it ends exactly
    /// there and either keeps the tick starting there or is at its
    /// lookahead end.
    pub open spec fn settled_for(&self, target: i64) -> bool {
        let c = self.capped(target);
        ||| self.spec_ticks() >= MAX_TIMELINE_TICKS
        ||| self.spec_frame() > c
        ||| (self.spec_frame() == c && (c == self.limit_end() || self.boundary_at(c)))
    }

    /// The lookups the cache answers as a fresh simulation would: from the
    /// start up to below the cached end, and the end itself when the last
    /// cached tick starts there.
    pub open spec fn answers(&self, t: int) -> bool {
        self.spec_start() <= t && (t < self.spec_frame() || t == self.spec_start() || self.boundary_at(t))
    }

    pub closed spec fn wf(&self) -> bool {
        &&& 0 <= self.start
        &&& 0 < self.models <= max_models()
        &&& 0 < self.frame_limit
        &&& self.start + self.frame_limit + self.models <= i64::MAX
        &&& 0 <= self.tick <= MAX_TIMELINE_TICKS
        &&& self.points@.len() == self.tick
        &&& self.frame == tl_frame(self.seed, self.start as int, self.models as nat, self.tick as nat)
        &&& self.start <= self.frame <= self.start + self.frame_limit + self.models
        &&& self.status.remain@ == tl_remain(self.seed, self.start as int, self.models as nat, self.tick as nat)
        &&& self.status.remain@.len() == self.models
        &&& self.sfmt@ == seeded(self.seed).skip64(self.frame as nat)
        &&& self.sfmt.wf()
        &&& forall|i: int|
            0 <= i < self.points@.len() ==> #[trigger] self.points@[i] == point_at(
                self.seed,
                self.start as int,
                self.models as nat,
                i,
            )
    }

    /// An empty cache for the timeline from `start`. `None` for a negative
    /// start, no models or a non-positive limit.
    /// The lookahead is kept below `i64::MAX - models - start`, so that no
    /// position of the cache can overflow.
    pub fn new(seed: u32, start: i64, models: usize, frame_limit: i64) -> (r: Option<Self>)
        requires
            models <= max_models(),
            start + models < i64::MAX,
        ensures
            (start < 0 || models == 0 || frame_limit <= 0) <==> r is None,
            r matches Some(c) ==> {
                &&& c.wf()
                &&& c.spec_seed() == seed
                &&& c.spec_start() == start
                &&& c.spec_models() == models
                &&& c.spec_frame_limit() == (if frame_limit <= i64::MAX - models - start {
                    frame_limit as int
                } else {
                    i64::MAX - models - start
                })
                &&& c.spec_ticks() == 0
                &&& c.spec_frame() == start
                &&& c.spec_points() == Seq::<ProductionTimelinePoint>::empty()
            },
    {
        if start < 0 || models == 0 || frame_limit <= 0 {
            return None;
        }
        let room = i64::MAX - models as i64 - start;
        let frame_limit = if frame_limit <= room { frame_limit } else { room };
        let sfmt = sfmt_after(seed, start as u64);
        let status = ModelStatus::new(models);
        assert(status.remain@ =~= tl_remain(seed, start as int, models as nat, 0));
        Some(
            ProductionTimelineCache {
                seed,
                start,
                models,
                points: Vec::new(),
                frame_limit,
                frame: start,
                tick: 0,
                sfmt,
                status,
            },
        )
    }

    pub fn seed(&self) -> (r: u32)
        ensures
            r == self.spec_seed(),
    {
        self.seed
    }

    pub fn start(&self) -> (r: i64)
        ensures
            r == self.spec_start(),
    {
        self.start
    }

    pub fn models(&self) -> (r: usize)
        ensures
            r == self.spec_models(),
    {
        self.models
    }

    /// The cached ticks.
    pub fn points(&self) -> (r: &[ProductionTimelinePoint])
        ensures
            r@ == self.spec_points(),
    {
        self.points.as_slice()
    }

    proof fn lemma_f_mono(&self, i: int, j: int)
        requires
            0 <= i <= j,
        ensures
            self.f(i) <= self.f(j),
    {
        lemma_tl_monotone(self.spec_seed(), self.spec_start(), self.spec_models(), i as nat, j as nat);
    }

    proof fn lemma_point(&self, i: int)
        requires
            self.wf(),
            0 <= i < self.spec_ticks(),
        ensures
            self.spec_points()[i].frame_before == self.f(i),
            self.spec_points()[i].frame_after == self.fa(i),
            self.spec_points()[i].tick == i + 1,
    {
        assert(self.points@[i] == point_at(self.seed, self.start as int, self.models as nat, i));
        lemma_tl_monotone(self.seed, self.start as int, self.models as nat, (i + 1) as nat, self.tick as nat);
        lemma_tl_monotone(self.seed, self.start as int, self.models as nat, 0, i as nat);
    }

    /// Start (`after == false`) or end (`after == true`) position of cached
    /// tick `i`.
    pub open spec fn key(&self, i: int, after: bool) -> int {
        if after { self.fa(i) } else { self.f(i) }
    }

    /// First cached tick whose start (`after == false`) or end (`after ==
    /// true`) position is at least `t`.
    fn search(&self, t: i64, after: bool) -> (i: usize)
        requires
            self.wf(),
        ensures
            !after ==> i == self.first_before_ge(t as int),
            after ==> i == self.first_after_ge(t as int),
            i <= self.spec_ticks(),
    {
        let mut lo: usize = 0;
        let mut hi: usize = self.points.len();
        while lo < hi
            invariant
                self.wf(),
                0 <= lo <= hi <= self.spec_ticks(),
                forall|j: int| 0 <= j < lo ==> #[trigger] self.key(j, after) < t,
                forall|j: int| hi <= j < self.spec_ticks() ==> #[trigger] self.key(j, after) >= t,
            decreases hi - lo,
        {
            let mid = lo + (hi - lo) / 2;
            let p = self.points[mid];
            proof {
                self.lemma_point(mid as int);
            }
            let key = if after { p.frame_after } else { p.frame_before };
            assert(key == self.key(mid as int, after));
            if key < t {
                proof {
                    assert forall|j: int| 0 <= j < mid + 1 implies #[trigger] self.key(j, after) < t by {
                        self.lemma_f_mono(j, mid as int);
                        self.lemma_f_mono(j + 1, mid + 1);
                    }
                }
                lo = mid + 1;
            } else {
                proof {
                    assert forall|j: int| mid <= j < self.spec_ticks() implies #[trigger] self.key(j, after) >= t by {
                        self.lemma_f_mono(mid as int, j);
                        self.lemma_f_mono(mid + 1, j + 1);
                    }
                }
                hi = mid;
            }
        }
        proof {
            if after {
                assert(forall|j: int| 0 <= j < lo ==> #[trigger] self.fa(j) < t) by {
                    assert forall|j: int| 0 <= j < lo implies #[trigger] self.fa(j) < t by {
                        assert(self.key(j, after) < t);
                    }
                }
                if lo < self.spec_ticks() {
                    assert(self.key(lo as int, after) >= t);
                    let w = choose|i: int|
                        0 <= i < self.spec_ticks() && #[trigger] self.fa(i) >= t && forall|j: int| 0 <= j < i ==> #[trigger] self.fa(j) < t;
                    assert(w == lo as int) by {
                        if w > lo { assert(self.fa(lo as int) < t); }
                        if w < lo { assert(self.key(w, after) < t); }
                    }
                } else {
                    assert forall|i: int| !(0 <= i < self.spec_ticks() && #[trigger] self.fa(i) >= t && forall|j: int| 0 <= j < i ==> #[trigger] self.fa(j) < t) by {
                        if 0 <= i < self.spec_ticks() {
                            assert(self.key(i, after) < t);
                        }
                    }
                }
            } else {
                assert(forall|j: int| 0 <= j < lo ==> #[trigger] self.f(j) < t) by {
                    assert forall|j: int| 0 <= j < lo implies #[trigger] self.f(j) < t by {
                        assert(self.key(j, after) < t);
                    }
                }
                if lo < self.spec_ticks() {
                    assert(self.key(lo as int, after) >= t);
                    let w = choose|i: int|
                        0 <= i < self.spec_ticks() && #[trigger] self.f(i) >= t && forall|j: int| 0 <= j < i ==> #[trigger] self.f(j) < t;
                    assert(w == lo as int) by {
                        if w > lo { assert(self.f(lo as int) < t); }
                        if w < lo { assert(self.key(w, after) < t); }
                    }
                } else {
                    assert forall|i: int| !(0 <= i < self.spec_ticks() && #[trigger] self.f(i) >= t && forall|j: int| 0 <= j < i ==> #[trigger] self.f(j) < t) by {
                        if 0 <= i < self.spec_ticks() {
                            assert(self.key(i, after) < t);
                        }
                    }
                }
            }
        }
        lo
    }

    /// One tick: advances the counters, records the point.
    fn step(&mut self)
        requires
            old(self).wf(),
            old(self).spec_ticks() < MAX_TIMELINE_TICKS,
            old(self).spec_frame() < old(self).spec_start() + old(self).spec_frame_limit(),
        ensures
            final(self).wf(),
            final(self).spec_ticks() == old(self).spec_ticks() + 1,
            final(self).spec_seed() == old(self).spec_seed(),
            final(self).spec_start() == old(self).spec_start(),
            final(self).spec_models() == old(self).spec_models(),
            final(self).spec_frame_limit() == old(self).spec_frame_limit(),
    {
        let ghost seed = self.seed;
        let ghost st = self.start as int;
        let ghost m = self.models as nat;
        let ghost k = self.tick as nat;
        let ghost rs = self.status.remain@;
        let before = self.frame;
        let ghost rng0 = self.sfmt@;
        let (used, _) = self.status.next_state(&mut self.sfmt);
        assert(self.status.remain@ == crate::model_status::status_next(rs, rng0.values64(used as nat)));
        proof {
            lemma_tl_unfold(seed, st, m, k);
            lemma_values64_shift(seed, before as nat, used as nat);
            lemma_skip64_add(seeded(seed), before as nat, used as nat);
            lemma_draws_before_bounds(rs, rs.len() as int);
            lemma_tl_remain_len(seed, st, m, k + 1);
        }
        self.frame = before + used as i64;
        self.tick = self.tick + 1;
        self.points.push(ProductionTimelinePoint { frame_before: before, frame_after: self.frame, tick: self.tick });
        proof {
            assert(self.frame == tl_frame(seed, st, m, k + 1));
            assert(self.frame <= self.start + self.frame_limit + self.models);
            assert(self.status.remain@ == tl_remain(seed, st, m, k + 1));
            assert(self.sfmt@ == seeded(seed).skip64(self.frame as nat));
            assert forall|i: int| 0 <= i < self.points@.len() implies #[trigger] self.points@[i] == point_at(
                seed,
                st,
                m,
                i,
            ) by {
                if i == k {
                }
            }
        }
    }

    /// The end position `extend_to` grows the cache to.
    pub open spec fn extend_end(&self, target_frame: Option<i64>) -> int {
        let limit_end = self.spec_start() + self.spec_frame_limit();
        let wanted: int = match target_frame {
            Some(t) => t as int,
            None => limit_end,
        };
        let requested = if wanted < self.spec_frame() {
            self.spec_frame()
        } else {
            wanted
        };
        let requested = if requested > limit_end { limit_end } else { requested };
        match target_frame {
            Some(_) => {
                let chunk_end = self.spec_frame() + PRODUCTION_TIMELINE_CACHE_CHUNK_FRAMES;
                if chunk_end < requested { chunk_end } else { requested }
            },
            None => requested,
        }
    }

    /// Grows the cache until its end position reaches `extend_end` (the
    /// lookahead limit, or a bounded chunk towards `target_frame`) or the tick
    /// limit.
    pub fn extend_to(&mut self, target_frame: Option<i64>)
        requires
            old(self).wf(),
        ensures
            final(self).wf(),
            final(self).spec_seed() == old(self).spec_seed(),
            final(self).spec_start() == old(self).spec_start(),
            final(self).spec_models() == old(self).spec_models(),
            final(self).spec_frame_limit() == old(self).spec_frame_limit(),
            final(self).spec_ticks() >= old(self).spec_ticks(),
            final(self).spec_frame() >= old(self).spec_frame(),
            final(self).spec_ticks() == MAX_TIMELINE_TICKS || final(self).spec_frame() >= old(self).extend_end(
                target_frame,
            ),
            final(self).spec_ticks() > old(self).spec_ticks() ==> old(self).spec_frame() < old(self).extend_end(
                target_frame,
            ),
            forall|k: int|
                old(self).spec_ticks() <= k < final(self).spec_ticks() ==> #[trigger] tl_frame(
                    old(self).spec_seed(),
                    old(self).spec_start(),
                    old(self).spec_models(),
                    k as nat,
                ) < old(self).extend_end(target_frame),
    {
        let ghost end_spec = self.extend_end(target_frame);
        let ghost t0 = self.tick;
        let limit_end = self.start + self.frame_limit;
        let wanted = match target_frame {
            Some(t) => t,
            None => limit_end,
        };
        let requested = if wanted < self.frame { self.frame } else { wanted };
        let requested = if requested > limit_end { limit_end } else { requested };
        let end = match target_frame {
            Some(_) => {
                if self.frame >= requested - PRODUCTION_TIMELINE_CACHE_CHUNK_FRAMES {
                    requested
                } else {
                    self.frame + PRODUCTION_TIMELINE_CACHE_CHUNK_FRAMES
                }
            },
            None => requested,
        };
        assert(end == end_spec);
        let ghost s0 = self.seed;
        let ghost st0 = self.start as int;
        let ghost m0 = self.models as nat;
        let ghost l0 = self.frame_limit as int;
        while self.frame < end && self.tick < MAX_TIMELINE_TICKS
            invariant
                self.wf(),
                self.spec_seed() == s0,
                self.spec_start() == st0,
                self.spec_models() == m0,
                self.spec_frame_limit() == l0,
                end == end_spec,
                end <= st0 + l0,
                t0 <= self.spec_ticks(),
                forall|k: int| t0 <= k < self.spec_ticks() ==> #[trigger] tl_frame(s0, st0, m0, k as nat) < end,
            decreases MAX_TIMELINE_TICKS - self.spec_ticks(),
        {
            let ghost k = self.tick as int;
            self.step();
            assert(tl_frame(s0, st0, m0, k as nat) < end);
        }
        proof {
            lemma_tl_monotone(s0, st0, m0, t0 as nat, self.tick as nat);
        }
    }

    /// Grows the cache in chunks until it covers `target` (capped by the
    /// lookahead limit), then keeps the tick that starts at an exactly reached
    /// target. Afterwards every lookup from the start up to the capped target
    /// (below the lookahead end) answers as a fresh simulation would, and a
    /// second call with the same target changes nothing.
    pub fn extend_until(&mut self, target: i64)
        requires
            old(self).wf(),
        ensures
            final(self).wf(),
            final(self).spec_seed() == old(self).spec_seed(),
            final(self).spec_start() == old(self).spec_start(),
            final(self).spec_models() == old(self).spec_models(),
            final(self).spec_frame_limit() == old(self).spec_frame_limit(),
            final(self).spec_ticks() >= old(self).spec_ticks(),
            final(self).spec_ticks() == MAX_TIMELINE_TICKS || final(self).spec_frame() >= old(self).capped(target),
            final(self).settled_for(target),
            old(self).settled_for(target) ==> final(self).spec_ticks() == old(self).spec_ticks()
                && final(self).spec_points() == old(self).spec_points(),
            forall|t: i64|
                old(self).spec_start() <= t <= old(self).capped(target) && t < old(self).limit_end()
                    && final(self).spec_ticks() < MAX_TIMELINE_TICKS ==> #[trigger] spec_timeline_target(
                    old(self).spec_seed(),
                    old(self).spec_start(),
                    t as int,
                    old(self).spec_models(),
                    final(self).cached_target(t as int),
                ),
    {
        let limit_end = self.start + self.frame_limit;
        let target = if target < limit_end { target } else { limit_end };
        let ghost s0 = self.seed;
        let ghost st0 = self.start as int;
        let ghost m0 = self.models as nat;
        let ghost l0 = self.frame_limit as int;
        let ghost t0 = self.tick as int;
        let ghost f0 = self.frame as int;
        let ghost p0 = self.points@;
        let ghost settled0 = self.settled_for(target);
        while self.frame < target && self.tick < MAX_TIMELINE_TICKS
            invariant
                self.wf(),
                self.spec_seed() == s0,
                self.spec_start() == st0,
                self.spec_models() == m0,
                self.spec_frame_limit() == l0,
                target <= st0 + l0,
                t0 <= self.spec_ticks(),
                f0 == tl_frame(s0, st0, m0, t0 as nat),
                !(f0 < target && t0 < MAX_TIMELINE_TICKS) ==> self.tick == t0,
            ensures
                self.wf(),
                self.spec_seed() == s0,
                self.spec_start() == st0,
                self.spec_models() == m0,
                self.spec_frame_limit() == l0,
                t0 <= self.spec_ticks(),
                self.tick == MAX_TIMELINE_TICKS || self.frame >= target,
                !(f0 < target && t0 < MAX_TIMELINE_TICKS) ==> self.tick == t0,
            decreases MAX_TIMELINE_TICKS - self.spec_ticks(), target - self.spec_frame(),
        {
            let previous_frame = self.frame;
            let previous_tick = self.tick;
            self.extend_to(Some(target));
            proof {
                lemma_tl_monotone(s0, st0, m0, previous_tick as nat, self.tick as nat);
            }
            if self.frame == previous_frame && self.tick == previous_tick {
                break;
            }
        }
        assert(self.tick == MAX_TIMELINE_TICKS || self.frame >= target);
        let has_boundary = match self.points.last() {
            Some(point) => point.frame_before == target,
            None => false,
        };
        proof {
            if self.tick > 0 {
                self.lemma_point(self.tick - 1);
            }
            assert(has_boundary == self.boundary_at(target as int));
        }
        let ghost t1 = self.tick as int;
        if self.frame == target && !has_boundary && self.tick < MAX_TIMELINE_TICKS {
            if target < limit_end {
                self.extend_to(Some(target + 1));
            } else {
                self.extend_to(Some(target));
                assert(self.tick == t1);
            }
        }
        proof {
            assert(self.settled_for(target));
            if settled0 {
                assert(self.tick == t0);
                assert(self.points@ =~= p0);
            }
            assert forall|t: i64|
                st0 <= t <= target && t < st0 + l0 && self.spec_ticks() < MAX_TIMELINE_TICKS implies #[trigger] spec_timeline_target(
                s0,
                st0,
                t as int,
                m0,
                self.cached_target(t as int),
            ) by {
                assert(self.answers(t as int));
                self.lemma_cached_target_matches(t);
            }
        }
    }

    proof fn lemma_first_after_ge_min(&self, t: int, i: int)
        requires
            0 <= i < self.spec_ticks(),
            self.fa(i) >= t,
        ensures
            0 <= self.first_after_ge(t) <= i,
            self.fa(self.first_after_ge(t)) >= t,
            forall|j: int| 0 <= j < self.first_after_ge(t) ==> #[trigger] self.fa(j) < t,
        decreases i,
    {
        if exists|j: int| 0 <= j < i && #[trigger] self.fa(j) >= t {
            let j = choose|j: int| 0 <= j < i && #[trigger] self.fa(j) >= t;
            self.lemma_first_after_ge_min(t, j);
        } else {
            assert(forall|j: int| 0 <= j < i ==> #[trigger] self.fa(j) < t);
            let w = choose|w: int|
                0 <= w < self.spec_ticks() && #[trigger] self.fa(w) >= t && forall|j: int| 0 <= j < w ==> #[trigger] self.fa(j) < t;
            assert(w == i) by {
                if w < i {
                    assert(self.fa(w) < t);
                }
                if w > i {
                    assert(self.fa(i) < t);
                }
            }
        }
    }

    proof fn lemma_first_before_ge_props(&self, t: int)
        requires
            self.wf(),
        ensures
            0 <= self.first_before_ge(t) <= self.spec_ticks(),
            forall|j: int| 0 <= j < self.first_before_ge(t) ==> #[trigger] self.f(j) < t,
            self.first_before_ge(t) < self.spec_ticks() ==> self.f(self.first_before_ge(t)) >= t,
    {
        if exists|i: int|
            0 <= i < self.spec_ticks() && #[trigger] self.f(i) >= t && forall|j: int| 0 <= j < i ==> #[trigger] self.f(j) < t {
        } else {
            assert forall|j: int| 0 <= j < self.spec_ticks() implies #[trigger] self.f(j) < t by {
                self.lemma_no_ge_before(t, j);
            }
        }
    }

    proof fn lemma_no_ge_before(&self, t: int, i: int)
        requires
            0 <= i < self.spec_ticks(),
            !exists|i: int|
                0 <= i < self.spec_ticks() && #[trigger] self.f(i) >= t && forall|j: int| 0 <= j < i ==> #[trigger] self.f(j) < t,
        ensures
            self.f(i) < t,
        decreases i,
    {
        if i > 0 {
            self.lemma_no_ge_before(t, i - 1);
        }
        assert forall|j: int| 0 <= j < i implies #[trigger] self.f(j) < t by {
            if j < i {
                self.lemma_no_ge_before_all(t, j, i);
            }
        }
    }

    proof fn lemma_no_ge_before_all(&self, t: int, j: int, i: int)
        requires
            0 <= j < i < self.spec_ticks(),
            !exists|i: int|
                0 <= i < self.spec_ticks() && #[trigger] self.f(i) >= t && forall|j: int| 0 <= j < i ==> #[trigger] self.f(j) < t,
        ensures
            self.f(j) < t,
        decreases j,
    {
        if j > 0 {
            self.lemma_no_ge_before_all(t, j - 1, i);
        }
        assert forall|k: int| 0 <= k < j implies #[trigger] self.f(k) < t by {
            if k < j {
                self.lemma_no_ge_before_all(t, k, i);
            }
        }
    }

    proof fn lemma_ends(&self)
        requires
            self.wf(),
        ensures
            self.f(0) == self.spec_start(),
            self.f(self.spec_ticks()) == self.spec_frame(),
            self.spec_ticks() >= 0,
            self.spec_frame() <= i64::MAX,
    {
    }

    proof fn lemma_hit_before(&self, t: i64) -> (w: int)
        requires
            self.wf(),
            self.spec_start() < t <= self.spec_frame(),
            self.spec_ticks() < MAX_TIMELINE_TICKS,
            self.first_before_ge(t as int) < self.spec_ticks(),
            self.f(self.first_before_ge(t as int)) == t,
        ensures
            first_hit(self.spec_seed(), self.spec_start(), self.spec_models(), t as int, w),
            self.cached_target(t as int) == target_result_at(self.spec_seed(), self.spec_start(), self.spec_models(), t as int, w),
    {
        let seed = self.spec_seed();
        let st = self.spec_start();
        let m = self.spec_models();
        let ti = t as int;
        let bi = self.first_before_ge(ti);
        self.lemma_first_before_ge_props(ti);
        assert forall|j: int| 0 <= j < bi implies !#[trigger] hits_at(seed, st, m, ti, j as nat) by {
            assert(self.f(j) < ti);
            if j + 1 < bi {
                assert(self.f(j + 1) < ti);
            }
        }
        assert(hits_at(seed, st, m, ti, bi as nat));
        bi
    }

    #[verifier::spinoff_prover]
    proof fn lemma_hit_after(&self, t: i64) -> (w: int)
        requires
            self.wf(),
            self.spec_start() < t < self.spec_frame(),
            self.spec_ticks() < MAX_TIMELINE_TICKS,
            !(self.first_before_ge(t as int) < self.spec_ticks() && self.f(self.first_before_ge(t as int)) == t),
        ensures
            first_hit(self.spec_seed(), self.spec_start(), self.spec_models(), t as int, w),
            self.cached_target(t as int) == target_result_at(self.spec_seed(), self.spec_start(), self.spec_models(), t as int, w),
    {
        let seed = self.spec_seed();
        let st = self.spec_start();
        let m = self.spec_models();
        let ti = t as int;
        let len = self.spec_ticks();
        self.lemma_ends();
        let bi = self.first_before_ge(ti);
        self.lemma_first_before_ge_props(ti);
        assert(len >= 1);
        assert(self.fa(len - 1) >= ti);
        self.lemma_first_after_ge_min(ti, len - 1);
        let ai = self.first_after_ge(ti);
        assert forall|j: int| 0 <= j < len implies #[trigger] self.f(j) != ti by {
            if j >= bi {
                self.lemma_f_mono(bi, j);
            }
        }
        assert(self.f(ai) < ti) by {
            if ai > 0 {
                assert(self.fa(ai - 1) < ti);
            }
        }
        assert(self.fa(ai) != ti) by {
            if ai + 1 < len {
                assert(self.f(ai + 1) != ti);
            }
        }
        assert forall|j: int| 0 <= j < ai implies !#[trigger] hits_at(seed, st, m, ti, j as nat) by {
            assert(self.fa(j) < ti);
            self.lemma_f_mono(j, j + 1);
        }
        assert(hits_at(seed, st, m, ti, ai as nat));
        self.lemma_f_mono(ai + 1, len);
        ai
    }

    /// When the last cached tick starts at `t`, the first cached tick
    /// starting at or after `t` starts exactly there.
    proof fn lemma_boundary_is_first(&self, t: int)
        requires
            self.wf(),
            self.boundary_at(t),
        ensures
            self.first_before_ge(t) < self.spec_ticks(),
            self.f(self.first_before_ge(t)) == t,
    {
        self.lemma_first_before_ge_props(t);
        let last = self.spec_ticks() - 1;
        let b = self.first_before_ge(t);
        if b > last {
            assert(self.f(last) < t);
        }
        self.lemma_f_mono(b, last);
    }

    /// Growing the kept timeline never changes an answer it could already
    /// give: two caches of the same timeline agree on every target below
    /// both their cached ends.
    pub proof fn lemma_cached_answers_stable(&self, other: &Self, t: i64)
        requires
            self.wf(),
            other.wf(),
            self.spec_seed() == other.spec_seed(),
            self.spec_start() == other.spec_start(),
            self.spec_models() == other.spec_models(),
            self.spec_start() <= t < self.spec_frame(),
            t < other.spec_frame(),
            self.spec_ticks() < MAX_TIMELINE_TICKS,
            other.spec_ticks() < MAX_TIMELINE_TICKS,
        ensures
            self.cached_target(t as int) == other.cached_target(t as int),
    {
        self.lemma_cached_target_matches(t);
        other.lemma_cached_target_matches(t);
        lemma_spec_timeline_target_unique(
            self.spec_seed(),
            self.spec_start(),
            t as int,
            self.spec_models(),
            self.cached_target(t as int),
            other.cached_target(t as int),
        );
    }

    /// A cached lookup the cache answers (below its end position, or at it
    /// when the last cached tick starts there) gives exactly what a fresh
    /// simulation from the start position gives.
    pub proof fn lemma_cached_target_matches(&self, t: i64)
        requires
            self.wf(),
            self.answers(t as int),
            self.spec_ticks() < MAX_TIMELINE_TICKS,
        ensures
            spec_timeline_target(self.spec_seed(), self.spec_start(), t as int, self.spec_models(), self.cached_target(t as int)),
    {
        let seed = self.spec_seed();
        let st = self.spec_start();
        let m = self.spec_models();
        let ti = t as int;
        let r = self.cached_target(ti);
        self.lemma_ends();
        if ti != st && ti >= self.spec_frame() {
            self.lemma_boundary_is_first(ti);
        }
        let w: int;
        if ti == st {
            w = 0;
            assert(hits_at(seed, st, m, ti, 0));
            assert(first_hit(seed, st, m, ti, w));
        } else if self.first_before_ge(ti) < self.spec_ticks() && self.f(self.first_before_ge(ti)) == ti {
            w = self.lemma_hit_before(t);
        } else {
            w = self.lemma_hit_after(t);
        }
        assert forall|k: int| #[trigger] first_hit(seed, st, m, ti, k) implies r == target_result_at(seed, st, m, ti, k) by {
            lemma_first_hit_unique(seed, st, m, ti, k, w);
        }
    }

    /// Looks `t` up in the cached ticks: an exact landing at a tick start, or
    /// the cached step that jumps over it.
    pub fn target(&self, t: i64) -> (r: Option<TimelineTarget>)
        requires
            self.wf(),
        ensures
            r == self.cached_target(t as int),
    {
        if t < self.start {
            return None;
        }
        if t == self.start {
            return Some(TimelineTarget { exact_tick: Some(0), timeline_tick: 0, frame_before: self.start, frame_after: self.start });
        }
        let bi = self.search(t, false);
        if bi < self.points.len() {
            let p = self.points[bi];
            proof {
                self.lemma_point(bi as int);
            }
            if p.frame_before == t {
                return Some(
                    TimelineTarget {
                        exact_tick: Some(p.tick - 1),
                        timeline_tick: p.tick - 1,
                        frame_before: t,
                        frame_after: t,
                    },
                );
            }
        }
        let ai = self.search(t, true);
        if ai >= self.points.len() {
            return None;
        }
        let p = self.points[ai];
        proof {
            self.lemma_point(ai as int);
        }
        if p.frame_after == t {
            return Some(
                TimelineTarget {
                    exact_tick: Some(p.tick),
                    timeline_tick: p.tick,
                    frame_before: p.frame_before,
                    frame_after: p.frame_after,
                },
            );
        }
        if p.frame_before <= t && t < p.frame_after {
            Some(
                TimelineTarget {
                    exact_tick: None,
                    timeline_tick: p.tick,
                    frame_before: p.frame_before,
                    frame_after: p.frame_after,
                },
            )
        } else {
            None
        }
    }

    /// The cached tick at whose start the position is `frame`.
    fn tick_at_frame(&self, frame: i64) -> (r: Option<i64>)
        requires
            self.wf(),
        ensures
            r == (match self.cached_tick_at(frame as int) {
                Some(k) => Some(k as i64),
                None => None::<i64>,
            }),
    {
        if frame == self.start {
            return Some(0);
        }
        let ai = self.search(frame, true);
        if ai < self.points.len() {
            let p = self.points[ai];
            proof {
                self.lemma_point(ai as int);
            }
            if p.frame_after == frame {
                return Some(p.tick);
            }
        }
        None
    }

    /// Looks `t` up relative to a later position `start_frame` of the same
    /// timeline: ticks are counted from the tick at `start_frame`.
    pub fn target_from(&self, start_frame: i64, t: i64) -> (r: Option<TimelineTarget>)
        requires
            self.wf(),
        ensures
            r == self.target_from_spec(start_frame as int, t as int),
    {
        let start_tick = match self.tick_at_frame(start_frame) {
            Some(k) => k,
            None => return None,
        };
        let absolute = match self.target(t) {
            Some(a) => a,
            None => return None,
        };
        proof {
            if absolute.exact_tick is Some {
                assert(absolute.exact_tick->0 <= MAX_TIMELINE_TICKS);
            }
        }
        if absolute.timeline_tick < start_tick {
            return None;
        }
        let exact_tick = match absolute.exact_tick {
            Some(e) => Some(e - start_tick),
            None => None,
        };
        Some(
            TimelineTarget {
                exact_tick,
                timeline_tick: absolute.timeline_tick - start_tick,
                frame_before: absolute.frame_before,
                frame_after: absolute.frame_after,
            },
        )
    }
}

} // verus!
