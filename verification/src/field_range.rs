//! Searching several NPC counts at once: the anchored search runs for each
//! count, the candidates near the earliest start are kept, and the merged
//! list is ordered by start, model and blink frames.

use vstd::prelude::*;
use crate::field_types::{FieldConfig, FieldResult, FieldSearchOutcome, FieldTargetMode, same_untargeted, same_target};
use crate::field_scan::no_target;
use crate::field_target::target_fields;
use crate::field::{
    static_config_error, field_error_message, anchored_picks, anchored_result_core, search_anchored,
    CANDIDATE_CONFIRM_SPAN,
};

verus! {

/// Results are ordered by start, observed model, first and last blink.
pub open spec fn key_le(a: FieldResult, b: FieldResult) -> bool {
    ||| a.start_consumption < b.start_consumption
    ||| a.start_consumption == b.start_consumption && a.observed_model < b.observed_model
    ||| a.start_consumption == b.start_consumption && a.observed_model == b.observed_model
        && a.first_wait_frame < b.first_wait_frame
    ||| a.start_consumption == b.start_consumption && a.observed_model == b.observed_model
        && a.first_wait_frame == b.first_wait_frame && a.last_wait_frame <= b.last_wait_frame
}

pub open spec fn key_eq(a: FieldResult, b: FieldResult) -> bool {
    &&& a.start_consumption == b.start_consumption
    &&& a.observed_model == b.observed_model
    &&& a.first_wait_frame == b.first_wait_frame
    &&& a.last_wait_frame == b.last_wait_frame
}

/// `order` lists every index of `rs` once, by key, equal keys in index
/// order.
pub open spec fn stable_order(rs: Seq<FieldResult>, order: Seq<usize>) -> bool {
    &&& order.len() == rs.len()
    &&& forall|i: int| 0 <= i < order.len() ==> #[trigger] order[i] < rs.len()
    &&& forall|i: int, j: int| 0 <= i < j < order.len() ==> order[i] != order[j]
    &&& forall|i: int, j: int| 0 <= i < j < order.len() ==> key_le(rs[order[i] as int], rs[order[j] as int])
    &&& forall|i: int, j: int|
        0 <= i < j < order.len() && key_eq(rs[order[i] as int], rs[order[j] as int]) ==> order[i] < order[j]
}

fn key_le_exec(a: &FieldResult, b: &FieldResult) -> (r: bool)
    ensures
        r == key_le(*a, *b),
{
    if a.start_consumption != b.start_consumption {
        return a.start_consumption < b.start_consumption;
    }
    if a.observed_model != b.observed_model {
        return a.observed_model < b.observed_model;
    }
    if a.first_wait_frame != b.first_wait_frame {
        return a.first_wait_frame < b.first_wait_frame;
    }
    a.last_wait_frame <= b.last_wait_frame
}

/// Indices of `rs` in stable key order.
fn stable_sort_order(rs: &Vec<FieldResult>) -> (order: Vec<usize>)
    ensures
        stable_order(rs@, order@),
{
    let n = rs.len();
    let mut order: Vec<usize> = Vec::new();
    let mut j: usize = 0;
    while j < n
        invariant
            n == rs@.len(),
            j <= n,
            order@.len() == j,
            forall|i: int| 0 <= i < order@.len() ==> #[trigger] order@[i] < j,
            forall|i: int, k: int| 0 <= i < k < order@.len() ==> order@[i] != order@[k],
            forall|i: int, k: int| 0 <= i < k < order@.len() ==> key_le(rs@[order@[i] as int], rs@[order@[k] as int]),
            forall|i: int, k: int|
                0 <= i < k < order@.len() && key_eq(rs@[order@[i] as int], rs@[order@[k] as int]) ==> order@[i]
                    < order@[k],
        decreases n - j,
    {
        let mut p: usize = 0;
        while p < order.len() && key_le_exec(&rs[order[p]], &rs[j])
            invariant
                n == rs@.len(),
                j < n,
                p <= order@.len(),
                order@.len() == j,
                forall|i: int| 0 <= i < order@.len() ==> #[trigger] order@[i] < j,
                forall|q: int| 0 <= q < p ==> key_le(rs@[order@[q] as int], rs@[j as int]),
            decreases order@.len() - p,
        {
            p = p + 1;
        }
        let ghost old_order = order@;
        order.insert(p, j);
        proof {
            assert(order@ == old_order.insert(p as int, j));
            assert forall|i: int, k: int| 0 <= i < k < order@.len() implies key_le(
                rs@[order@[i] as int],
                rs@[order@[k] as int],
            ) by {
                if k == p {
                    assert(key_le(rs@[old_order[i] as int], rs@[j as int]));
                } else if i == p {
                    if p < old_order.len() {
                        assert(!key_le(rs@[old_order[p as int] as int], rs@[j as int]));
                        if k - 1 > p {
                            assert(key_le(rs@[old_order[p as int] as int], rs@[old_order[k - 1] as int]));
                        }
                    }
                } else if i < p && k > p {
                    assert(key_le(rs@[old_order[i] as int], rs@[old_order[k - 1] as int]));
                } else if k < p {
                } else {
                    assert(key_le(rs@[old_order[i - 1] as int], rs@[old_order[k - 1] as int]));
                }
            }
            assert forall|i: int, k: int|
                0 <= i < k < order@.len() && key_eq(rs@[order@[i] as int], rs@[order@[k] as int]) implies order@[i]
                < order@[k] by {
                if i == p {
                    if p < old_order.len() {
                        assert(!key_le(rs@[old_order[p as int] as int], rs@[j as int]));
                        if k - 1 > p {
                            assert(key_le(rs@[old_order[p as int] as int], rs@[old_order[k - 1] as int]));
                        }
                    }
                } else if k == p {
                } else if i < p && k > p {
                } else if k < p {
                } else {
                }
            }
        }
        j = j + 1;
    }
    order
}

/// `r` is the anchored result for pick `p` of config `c`, its target
/// located when the observed model is known.
pub open spec fn range_result_ok(r: FieldResult, c: FieldConfig, p: (int, int, int), all: bool) -> bool {
    &&& anchored_result_core(r, c, p)
    &&& (all || c.target_consumption is None) ==> no_target(r)
    &&& (!all && c.target_consumption is Some) ==> target_fields(r, c.seed, c.target_consumption->0 as int)
}

/// (config index, pick) of every result of the first `n` configs.
pub open spec fn range_picks(cs: Seq<FieldConfig>, all: bool, n: nat) -> Seq<(int, (int, int, int))>
    decreases n,
{
    if n == 0 {
        Seq::empty()
    } else {
        range_picks(cs, all, (n - 1) as nat) + anchored_picks(cs[n - 1], all).map_values(
            |p: (int, int, int)| ((n - 1) as int, p),
        )
    }
}

/// The first of the first `n` configs that is refused.
pub open spec fn first_refused(cs: Seq<FieldConfig>, n: nat) -> Option<int>
    decreases n,
{
    if n == 0 {
        None
    } else {
        match first_refused(cs, (n - 1) as nat) {
            Some(i) => Some(i),
            None => if static_config_error(cs[n - 1]) is Some {
                Some(n - 1)
            } else {
                None
            },
        }
    }
}

/// Earliest start among the picks (`i64::MAX` when there are none).
pub open spec fn min_start(q: Seq<(int, (int, int, int))>) -> int
    decreases q.len(),
{
    if q.len() == 0 {
        i64::MAX as int
    } else if q.len() == 1 {
        q[0].1.0
    } else {
        let m = min_start(q.drop_last());
        if q.last().1.0 < m {
            q.last().1.0
        } else {
            m
        }
    }
}

/// The picks whose start is at most `bound`, in order.
pub open spec fn kept(q: Seq<(int, (int, int, int))>, bound: int) -> Seq<(int, (int, int, int))>
    decreases q.len(),
{
    if q.len() == 0 {
        Seq::empty()
    } else {
        let prev = kept(q.drop_last(), bound);
        if q.last().1.0 <= bound {
            prev.push(q.last())
        } else {
            prev
        }
    }
}

/// The picks an NPC-range search returns, before ordering.
pub open spec fn range_kept(cs: Seq<FieldConfig>, all: bool) -> Seq<(int, (int, int, int))> {
    let q = range_picks(cs, all, cs.len());
    kept(q, min_start(q) + CANDIDATE_CONFIRM_SPAN)
}

proof fn lemma_clone_keeps(a: FieldResult, b: FieldResult, c: FieldConfig, p: (int, int, int), all: bool)
    requires
        same_untargeted(a, b),
        same_target(a, b),
        range_result_ok(b, c, p, all),
    ensures
        range_result_ok(a, c, p, all),
{
}

proof fn lemma_first_refused_stable(cs: Seq<FieldConfig>, n: nat, m: nat)
    requires
        n <= m,
        first_refused(cs, n) is Some,
    ensures
        first_refused(cs, m) == first_refused(cs, n),
    decreases m - n,
{
    if n < m {
        lemma_first_refused_stable(cs, n, (m - 1) as nat);
    }
}

/// Runs the anchored search for every NPC count of the range (the
/// observed model known or not), keeps the candidates that start within
/// `CANDIDATE_CONFIRM_SPAN` of the earliest one, and orders them by start,
/// model and blink frames, stably. Refused with the message of the first
/// refused configuration.
pub fn search_with_npc_range(configs: &Vec<FieldConfig>, target_mode: FieldTargetMode) -> (r: Result<
    FieldSearchOutcome,
    String,
>)
    ensures
        ({
            let cs = configs@;
            let all = target_mode == FieldTargetMode::Unknown;
            &&& first_refused(cs, cs.len()) is Some ==> r is Err && r->Err_0@ == field_error_message(
                static_config_error(cs[first_refused(cs, cs.len())->0]).unwrap(),
            )
            &&& first_refused(cs, cs.len()) is None ==> r is Ok && {
                let f = range_kept(cs, all);
                let out = r->Ok_0.results@;
                &&& out.len() == f.len()
                &&& r->Ok_0.fallback_indices is None
                &&& forall|i: int, j: int| 0 <= i < j < out.len() ==> key_le(out[i], out[j])
                &&& exists|perm: Seq<usize>|
                    {
                        &&& perm.len() == f.len()
                        &&& forall|i: int| 0 <= i < perm.len() ==> #[trigger] perm[i] < f.len()
                        &&& forall|i: int, j: int| 0 <= i < j < perm.len() ==> perm[i] != perm[j]
                        &&& forall|k: int|
                            0 <= k < out.len() ==> range_result_ok(
                                #[trigger] out[k],
                                cs[f[perm[k] as int].0],
                                f[perm[k] as int].1,
                                all,
                            )
                        &&& forall|i: int, j: int|
                            0 <= i < j < out.len() && key_eq(out[i], out[j]) ==> perm[i] < perm[j]
                    }
            }
        }),
{
    let all = match target_mode {
        FieldTargetMode::Unknown => true,
        FieldTargetMode::Known => false,
    };
    let ghost cs = configs@;
    let mut combined: Vec<FieldResult> = Vec::new();
    let mut i: usize = 0;
    while i < configs.len()
        invariant
            cs == configs@,
            all == (target_mode == FieldTargetMode::Unknown),
            i <= cs.len(),
            first_refused(cs, i as nat) is None,
            combined@.len() == range_picks(cs, all, i as nat).len(),
            forall|x: int| 0 <= x < combined@.len() ==> range_result_ok(
                #[trigger] combined@[x],
                cs[range_picks(cs, all, i as nat)[x].0],
                range_picks(cs, all, i as nat)[x].1,
                all,
            ),
        decreases cs.len() - i,
    {
        let ghost prior = range_picks(cs, all, i as nat);
        let ghost before = combined@;
        let mut found = match search_anchored(&configs[i], all) {
            Ok(v) => v,
            Err(e) => {
                proof {
                    assert((i + 1) as nat - 1 == i as nat);
                    assert(first_refused(cs, (i + 1) as nat) == Some(i as int));
                    lemma_first_refused_stable(cs, (i + 1) as nat, cs.len());
                }
                return Err(e);
            },
        };
        let ghost added = found@;
        combined.append(&mut found);
        proof {
            assert((i + 1) as nat - 1 == i as nat);
            let next = range_picks(cs, all, (i + 1) as nat);
            let rp = anchored_picks(cs[i as int], all);
            assert(next =~= prior + rp.map_values(|p: (int, int, int)| (i as int, p)));
            assert(combined@ =~= before + added);
            assert forall|x: int| 0 <= x < combined@.len() implies range_result_ok(
                #[trigger] combined@[x],
                cs[next[x].0],
                next[x].1,
                all,
            ) by {
                if x >= before.len() {
                    assert(combined@[x] == added[x - before.len()]);
                    assert(next[x] == (i as int, rp[x - before.len()]));
                } else {
                    assert(combined@[x] == before[x]);
                    assert(next[x] == prior[x]);
                }
            }
        }
        i = i + 1;
    }
    let ghost q = range_picks(cs, all, cs.len());
    let n = combined.len();
    assert forall|x: int| 0 <= x < n implies (#[trigger] combined@[x]).start_consumption == q[x].1.0 by {
        assert(range_result_ok(combined@[x], cs[q[x].0], q[x].1, all));
    }
    let mut first: i64 = i64::MAX;
    let mut k: usize = 0;
    while k < n
        invariant
            n == combined@.len(),
            q.len() == n,
            k <= n,
            forall|x: int| 0 <= x < n ==> (#[trigger] combined@[x]).start_consumption == q[x].1.0,
            k > 0 ==> first == min_start(q.take(k as int)),
            k == 0 ==> first == i64::MAX,
        decreases n - k,
    {
        assert(q.take(k + 1).drop_last() =~= q.take(k as int));
        assert(q.take(k + 1).last() == q[k as int]);
        if combined[k].start_consumption < first {
            first = combined[k].start_consumption;
        }
        k = k + 1;
    }
    assert(q.take(n as int) =~= q);
    let bound: i64 = match first.checked_add(CANDIDATE_CONFIRM_SPAN) {
        Some(b) => b,
        None => i64::MAX,
    };
    let ghost fk = kept(q, min_start(q) + CANDIDATE_CONFIRM_SPAN);
    let mut filtered: Vec<FieldResult> = Vec::new();
    let mut x: usize = 0;
    while x < n
        invariant
            n == combined@.len(),
            q.len() == n,
            x <= n,
            n > 0 ==> bound == if min_start(q) + CANDIDATE_CONFIRM_SPAN > i64::MAX {
                i64::MAX as int
            } else {
                min_start(q) + CANDIDATE_CONFIRM_SPAN
            },
            forall|y: int| 0 <= y < n ==> (#[trigger] combined@[y]).start_consumption == q[y].1.0,
            forall|y: int| 0 <= y < n ==> range_result_ok(#[trigger] combined@[y], cs[q[y].0], q[y].1, all),
            filtered@.len() == kept(q.take(x as int), min_start(q) + CANDIDATE_CONFIRM_SPAN).len(),
            forall|y: int| 0 <= y < filtered@.len() ==> range_result_ok(
                #[trigger] filtered@[y],
                cs[kept(q.take(x as int), min_start(q) + CANDIDATE_CONFIRM_SPAN)[y].0],
                kept(q.take(x as int), min_start(q) + CANDIDATE_CONFIRM_SPAN)[y].1,
                all,
            ),
        decreases n - x,
    {
        let ghost kp = kept(q.take(x as int), min_start(q) + CANDIDATE_CONFIRM_SPAN);
        assert(q.take(x + 1).drop_last() =~= q.take(x as int));
        assert(q.take(x + 1).last() == q[x as int]);
        if combined[x].start_consumption <= bound {
            let copy = combined[x].clone();
            proof {
                lemma_clone_keeps(copy, combined@[x as int], cs[q[x as int].0], q[x as int].1, all);
            }
            filtered.push(copy);
        }
        x = x + 1;
    }
    assert(q.take(n as int) =~= q);
    let order = stable_sort_order(&filtered);
    let m = filtered.len();
    let mut out: Vec<FieldResult> = Vec::new();
    let mut y: usize = 0;
    while y < m
        invariant
            m == filtered@.len(),
            fk.len() == m,
            stable_order(filtered@, order@),
            forall|z: int| 0 <= z < m ==> range_result_ok(#[trigger] filtered@[z], cs[fk[z].0], fk[z].1, all),
            y <= m,
            out@.len() == y,
            forall|z: int| 0 <= z < y ==> same_untargeted(#[trigger] out@[z], filtered@[order@[z] as int])
                && same_target(out@[z], filtered@[order@[z] as int]),
        decreases m - y,
    {
        let copy = filtered[order[y]].clone();
        out.push(copy);
        y = y + 1;
    }
    proof {
        assert forall|k: int| 0 <= k < out@.len() implies range_result_ok(
            #[trigger] out@[k],
            cs[fk[order@[k] as int].0],
            fk[order@[k] as int].1,
            all,
        ) by {
            lemma_clone_keeps(out@[k], filtered@[order@[k] as int], cs[fk[order@[k] as int].0], fk[order@[k] as int].1, all);
        }
        assert forall|i: int, j: int| 0 <= i < j < out@.len() implies key_le(out@[i], out@[j]) by {
            assert(key_le(filtered@[order@[i] as int], filtered@[order@[j] as int]));
        }
        assert forall|i: int, j: int| 0 <= i < j < out@.len() && key_eq(out@[i], out@[j]) implies order@[i]
            < order@[j] by {
            assert(key_eq(filtered@[order@[i] as int], filtered@[order@[j] as int]));
        }
    }
    Ok(FieldSearchOutcome { results: out, fallback_indices: None })
}

} // verus!
