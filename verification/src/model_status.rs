//! The per-model blink state machine that decides how many SFMT values each
//! 1/30-second tick consumes.

use vstd::prelude::*;
use crate::sfmt::{Sfmt, lemma_skip64_succ, lemma_values64_index};

verus! {

/// A model draws a value this tick when its counter is -1, 0 or 1.
pub open spec fn draws(r: i32) -> bool {
    -1 <= r <= 1
}

/// The counter of one model after a tick, given the value it would draw.
pub open spec fn model_next(r: i32, v: u64) -> i32 {
    if r > 1 {
        (r - 1) as i32
    } else if r < 0 {
        if r == -1 {
            if v % 3 == 0 { 36i32 } else { 30i32 }
        } else {
            (r + 1) as i32
        }
    } else if v & 0x7fu64 == 0 {
        -5i32
    } else {
        r
    }
}

/// Number of draws made by models `0..i`.
pub open spec fn draws_before(rs: Seq<i32>, i: int) -> nat
    decreases i,
{
    if i <= 0 {
        0
    } else {
        draws_before(rs, i - 1) + if draws(rs[i - 1]) { 1nat } else { 0nat }
    }
}

/// Number of values one tick consumes.
pub open spec fn status_used(rs: Seq<i32>) -> nat {
    draws_before(rs, rs.len() as int)
}

/// The counters after one tick; model `i` reads the value at offset
/// `draws_before(rs, i)` of the upcoming values.
pub open spec fn status_next(rs: Seq<i32>, vals: Seq<u64>) -> Seq<i32> {
    Seq::new(rs.len(), |i: int| model_next(rs[i], vals[draws_before(rs, i) as int]))
}

/// Models among `0..i` that complete a blink this tick (counter -1).
pub open spec fn blinks_upto(rs: Seq<i32>, i: int) -> Seq<u8>
    decreases i,
{
    if i <= 0 {
        Seq::empty()
    } else if rs[i - 1] == -1 {
        blinks_upto(rs, i - 1).push((i - 1) as u8)
    } else {
        blinks_upto(rs, i - 1)
    }
}

pub open spec fn status_blinks(rs: Seq<i32>) -> Seq<u8> {
    blinks_upto(rs, rs.len() as int)
}

/// Whether `model` completes a blink this tick.
pub open spec fn model_blinks(rs: Seq<i32>, model: int) -> bool {
    0 <= model < rs.len() && rs[model] == -1
}

pub proof fn lemma_draws_before_bounds(rs: Seq<i32>, i: int)
    requires
        0 <= i <= rs.len(),
    ensures
        draws_before(rs, i) <= i,
        forall|j: int| 0 <= j <= i ==> draws_before(rs, j) <= draws_before(rs, i),
    decreases i,
{
    if i > 0 {
        lemma_draws_before_bounds(rs, i - 1);
    }
}

/// Counters of every model: 0 at start, >1 counting down, negative after a
/// blink trigger.
#[derive(Debug)]
pub struct ModelStatus {
    pub remain: Vec<i32>,
}

impl Clone for ModelStatus {
    fn clone(&self) -> (r: Self)
        ensures
            r.remain@ == self.remain@,
    {
        ModelStatus { remain: self.remain.clone() }
    }
}

impl ModelStatus {
    /// A fresh status for `models` models (at least one).
    pub fn new(models: usize) -> (r: Self)
        requires
            models as int <= isize::MAX as int / 4,
        ensures
            r.remain@.len() == if models == 0 { 1 } else { models },
            forall|i: int| 0 <= i < r.remain@.len() ==> r.remain@[i] == 0,
    {
        let n = if models == 0 { 1 } else { models };
        let mut remain: Vec<i32> = Vec::with_capacity(n);
        let mut i: usize = 0;
        while i < n
            invariant
                i <= n,
                remain@.len() == i,
                forall|j: int| 0 <= j < i ==> remain@[j] == 0,
            decreases n - i,
        {
            remain.push(0);
            i = i + 1;
        }
        ModelStatus { remain }
    }

    /// How many values the next tick consumes (depends only on the counters).
    pub fn draw_count(&self) -> (n: usize)
        ensures
            n == status_used(self.remain@),
    {
        let mut n: usize = 0;
        let mut i: usize = 0;
        while i < self.remain.len()
            invariant
                i <= self.remain@.len(),
                n == draws_before(self.remain@, i as int),
                n <= i,
            decreases self.remain@.len() - i,
        {
            let r = self.remain[i];
            if -1 <= r && r <= 1 {
                n = n + 1;
            }
            i = i + 1;
        }
        n
    }

    /// Advances every model by one tick, drawing from `rng`. Returns the number
    /// of values consumed and the models whose blink completed.
    pub fn next_state(&mut self, rng: &mut Sfmt) -> (res: (usize, Vec<u8>))
        requires
            old(rng).wf(),
        ensures
            res.0 == status_used(old(self).remain@),
            final(self).remain@ == status_next(old(self).remain@, old(rng)@.values64(res.0 as nat)),
            res.1@ == status_blinks(old(self).remain@),
            final(rng)@ == old(rng)@.skip64(res.0 as nat),
            final(rng).wf(),
    {
        let ghost rs = self.remain@;
        let ghost m0 = rng@;
        proof { lemma_skip64_succ(m0, 0); }
        let mut used: usize = 0;
        let mut blink: Vec<u8> = Vec::new();
        let mut n: usize = 0;
        while n < self.remain.len()
            invariant
                n <= rs.len(),
                self.remain@.len() == rs.len(),
                used == draws_before(rs, n as int),
                used <= n,
                rng.wf(),
                m0.wf(),
                rng@ == m0.skip64(used as nat),
                blink@ == blinks_upto(rs, n as int),
                forall|j: int| n <= j < rs.len() ==> self.remain@[j] == rs[j],
                forall|j: int|
                    0 <= j < n ==> #[trigger] self.remain@[j] == model_next(
                        rs[j],
                        m0.skip64(draws_before(rs, j)).out64(),
                    ),
            decreases rs.len() - n,
        {
            let s = self.remain[n];
            if s > 1 {
                self.remain.set(n, s - 1);
            } else if s < 0 {
                let t = s + 1;
                if t == 0 {
                    proof { lemma_skip64_succ(m0, used as nat); }
                    let v = rng.next_u64();
                    let nv: i32 = if v % 3 == 0 { 36 } else { 30 };
                    self.remain.set(n, nv);
                    used = used + 1;
                    blink.push(n as u8);
                } else {
                    self.remain.set(n, t);
                }
            } else {
                proof { lemma_skip64_succ(m0, used as nat); }
                let v = rng.next_u64();
                if v & 0x7f == 0 {
                    self.remain.set(n, -5);
                }
                used = used + 1;
            }
            n = n + 1;
        }
        proof {
            lemma_draws_before_bounds(rs, rs.len() as int);
            assert forall|j: int| 0 <= j < rs.len() implies #[trigger] self.remain@[j] == status_next(
                rs,
                m0.values64(used as nat),
            )[j] by {
                lemma_draws_before_bounds(rs, rs.len() as int);
                if draws(rs[j]) {
                    assert(draws_before(rs, j + 1) == draws_before(rs, j) + 1);
                    lemma_draws_before_bounds(rs, j + 1);
                    lemma_values64_index(m0, used as nat, draws_before(rs, j) as int);
                }
            }
            assert(self.remain@ =~= status_next(rs, m0.values64(used as nat)));
        }
        (used, blink)
    }

    /// Advances every model by one tick, drawing from `values` at `*cursor`.
    /// Returns `None` (and changes nothing) when fewer values remain than the
    /// tick needs.
    pub fn next_state_from(&mut self, values: &[u64], cursor: &mut usize) -> (res: Option<(usize, Vec<u8>)>)
        ensures
            old(cursor) + status_used(old(self).remain@) > values@.len() ==> res is None
                && final(self).remain@ == old(self).remain@ && *final(cursor) == *old(cursor),
            old(cursor) + status_used(old(self).remain@) <= values@.len() ==> res is Some && {
                let (used, blink) = res->0;
                &&& used == status_used(old(self).remain@)
                &&& final(self).remain@ == status_next(
                    old(self).remain@,
                    values@.subrange(*old(cursor) as int, *old(cursor) + used),
                )
                &&& blink@ == status_blinks(old(self).remain@)
                &&& *final(cursor) == *old(cursor) + used
            },
    {
        let need = self.draw_count();
        if need > values.len() || *cursor > values.len() - need {
            return None;
        }
        let ghost rs = self.remain@;
        let ghost c0 = *cursor as int;
        let mut used: usize = 0;
        let mut blink: Vec<u8> = Vec::new();
        let mut n: usize = 0;
        while n < self.remain.len()
            invariant
                n <= rs.len(),
                self.remain@.len() == rs.len(),
                used == draws_before(rs, n as int),
                need == status_used(rs),
                c0 + need <= values@.len(),
                *cursor == c0 + used,
                blink@ == blinks_upto(rs, n as int),
                forall|j: int| n <= j < rs.len() ==> self.remain@[j] == rs[j],
                forall|j: int|
                    0 <= j < n ==> #[trigger] self.remain@[j] == model_next(
                        rs[j],
                        values@[c0 + draws_before(rs, j)],
                    ),
            decreases rs.len() - n,
        {
            proof {
                lemma_draws_before_bounds(rs, rs.len() as int);
                lemma_draws_before_bounds(rs, n as int + 1);
            }
            let s = self.remain[n];
            if s > 1 {
                self.remain.set(n, s - 1);
            } else if s < 0 {
                let t = s + 1;
                if t == 0 {
                    let v = values[*cursor];
                    *cursor = *cursor + 1;
                    let nv: i32 = if v % 3 == 0 { 36 } else { 30 };
                    self.remain.set(n, nv);
                    used = used + 1;
                    blink.push(n as u8);
                } else {
                    self.remain.set(n, t);
                }
            } else {
                let v = values[*cursor];
                *cursor = *cursor + 1;
                if v & 0x7f == 0 {
                    self.remain.set(n, -5);
                }
                used = used + 1;
            }
            n = n + 1;
        }
        proof {
            lemma_draws_before_bounds(rs, rs.len() as int);
            let sub = values@.subrange(c0, c0 + used);
            assert forall|j: int| 0 <= j < rs.len() implies #[trigger] self.remain@[j] == status_next(rs, sub)[j] by {
                lemma_draws_before_bounds(rs, rs.len() as int);
                if draws(rs[j]) {
                    lemma_draws_before_bounds(rs, j + 1);
                }
            }
            assert(self.remain@ =~= status_next(rs, sub));
        }
        Some((used, blink))
    }

    /// Like `next_state_from`, but only reports whether `target_model`
    /// completed a blink, without collecting the blink list.
    pub fn next_state_target_from(&mut self, target_model: usize, values: &[u64], cursor: &mut usize) -> (res:
        Option<(usize, bool)>)
        ensures
            old(cursor) + status_used(old(self).remain@) > values@.len() ==> res is None
                && final(self).remain@ == old(self).remain@ && *final(cursor) == *old(cursor),
            old(cursor) + status_used(old(self).remain@) <= values@.len() ==> res is Some && {
                let (used, blinked) = res->0;
                &&& used == status_used(old(self).remain@)
                &&& final(self).remain@ == status_next(
                    old(self).remain@,
                    values@.subrange(*old(cursor) as int, *old(cursor) + used),
                )
                &&& blinked == model_blinks(old(self).remain@, target_model as int)
                &&& *final(cursor) == *old(cursor) + used
            },
    {
        let blinked = target_model < self.remain.len() && self.remain[target_model] == -1;
        match self.next_state_from(values, cursor) {
            Some((used, _)) => Some((used, blinked)),
            None => None,
        }
    }
}

} // verus!
