//! Matching the hatch blink observations with an automatically widened
//! tolerance: the tolerance grows one display frame at a time until some
//! start matches or the limit is reached.

use vstd::prelude::*;
use crate::observation::{find_matches_in, matches_upto, window_matches, ObservationMatch};
use crate::state_types::TimelineCandidate;

verus! {

/// The widest tolerance the automatic widening reaches.
pub const MAX_AUTO_TOLERANCE: i64 = 15;

/// The matches a search of `values` (from absolute position `base`) finds.
pub open spec fn matches_at(values: Seq<u64>, base: int, observed: Seq<i64>, tolerance: i64) -> Seq<ObservationMatch> {
    if observed.len() == 0 || values.len() < observed.len() + 1 {
        Seq::empty()
    } else {
        matches_upto(values, base, observed, tolerance, values.len() - observed.len())
    }
}

/// The first tolerance from `t` on at which some start matches, or the
/// limit when none does.
pub open spec fn auto_tolerance(values: Seq<u64>, base: int, observed: Seq<i64>, t: i64) -> i64
    decreases MAX_AUTO_TOLERANCE - t,
{
    if matches_at(values, base, observed, t).len() > 0 || t >= MAX_AUTO_TOLERANCE {
        t
    } else {
        auto_tolerance(values, base, observed, (t + 1) as i64)
    }
}

/// The widened tolerance is the narrowest from the start on that finds a
/// match: every narrower one from the start found none, and it never goes
/// past the limit (when the start does not).
pub proof fn lemma_auto_tolerance_is_narrowest(values: Seq<u64>, base: int, observed: Seq<i64>, t: i64)
    ensures
        auto_tolerance(values, base, observed, t) >= t,
        t <= MAX_AUTO_TOLERANCE ==> auto_tolerance(values, base, observed, t) <= MAX_AUTO_TOLERANCE,
        forall|u: i64|
            t <= u < auto_tolerance(values, base, observed, t) ==> (#[trigger] matches_at(values, base, observed, u)).len()
                == 0,
        auto_tolerance(values, base, observed, t) < MAX_AUTO_TOLERANCE ==> matches_at(
            values,
            base,
            observed,
            auto_tolerance(values, base, observed, t),
        ).len() > 0,
    decreases MAX_AUTO_TOLERANCE - t,
{
    if !(matches_at(values, base, observed, t).len() > 0 || t >= MAX_AUTO_TOLERANCE) {
        lemma_auto_tolerance_is_narrowest(values, base, observed, (t + 1) as i64);
    }
}

/// Widening the tolerance never drops a match: every start that matches at
/// `t` still matches at any wider `u`.
pub proof fn lemma_wider_tolerance_keeps_matches(values: Seq<u64>, base: int, observed: Seq<i64>, t: i64, u: i64)
    requires
        t <= u,
    ensures
        forall|m: ObservationMatch|
            matches_at(values, base, observed, t).contains(m) ==> #[trigger] matches_at(values, base, observed, u).contains(m),
{
    if observed.len() > 0 && values.len() >= observed.len() + 1 {
        lemma_matches_upto_grow(values, base, observed, t, u, values.len() - observed.len());
    }
}

proof fn lemma_matches_upto_grow(values: Seq<u64>, base: int, observed: Seq<i64>, t: i64, u: i64, k: int)
    requires
        t <= u,
    ensures
        forall|m: ObservationMatch|
            matches_upto(values, base, observed, t, k).contains(m) ==> #[trigger] matches_upto(values, base, observed, u, k).contains(m),
    decreases k,
{
    if k > 0 {
        lemma_matches_upto_grow(values, base, observed, t, u, k - 1);
        let i = k - 1;
        if window_matches(values, i, observed, t) {
            assert(window_matches(values, i, observed, u));
        }
        let pt = matches_upto(values, base, observed, t, k - 1);
        let pu = matches_upto(values, base, observed, u, k - 1);
        assert forall|m: ObservationMatch| matches_upto(values, base, observed, t, k).contains(m) implies #[trigger] matches_upto(
            values,
            base,
            observed,
            u,
            k,
        ).contains(m) by {
            if pt.contains(m) {
                assert(pu.contains(m));
                let j = choose|j: int| 0 <= j < pu.len() && pu[j] == m;
                if window_matches(values, i, observed, u) {
                    assert(matches_upto(values, base, observed, u, k)[j] == m);
                }
            } else {
                assert(window_matches(values, i, observed, t));
                let full = matches_upto(values, base, observed, u, k);
                assert(full[full.len() - 1] == m);
            }
        }
    }
}

/// The tolerance the widening starts from: the one that matched last time
/// or the configured one, whichever is wider, at most the limit.
pub open spec fn starting_tolerance(previous: i64, configured: i64) -> i64 {
    let t = if previous > configured { previous } else { configured };
    if t < MAX_AUTO_TOLERANCE { t } else { MAX_AUTO_TOLERANCE }
}

/// The candidate rows of the matches, in order.
pub open spec fn candidates_of(matches: Seq<ObservationMatch>) -> Seq<TimelineCandidate> {
    matches.map_values(
        |m: ObservationMatch|
            TimelineCandidate {
                start_position: m.start_position,
                sfmt_position: m.sfmt_position,
                next_blink_ticks: Some(m.next_blink_ticks),
                target_reachable: false,
            },
    )
}

/// Matches the observed display-frame intervals against `values`, widening
/// the tolerance from `starting_tolerance(previous, configured)` until some
/// start matches or `MAX_AUTO_TOLERANCE` is reached. Gives the candidates of
/// the last search and the tolerance it used.
pub fn rematch_with_auto_tolerance(
    values: &[u64],
    base: i64,
    observed: &[i64],
    previous: i64,
    configured: i64,
) -> (r: (Vec<TimelineCandidate>, i64))
    requires
        0 <= base,
        base + values@.len() <= i64::MAX,
    ensures
        ({
            let t = auto_tolerance(values@, base as int, observed@, starting_tolerance(previous, configured));
            &&& r.1 == t
            &&& r.0@ == candidates_of(matches_at(values@, base as int, observed@, t))
        }),
{
    let mut tolerance = if previous > configured {
        previous
    } else {
        configured
    };
    if tolerance > MAX_AUTO_TOLERANCE {
        tolerance = MAX_AUTO_TOLERANCE;
    }
    let ghost start = tolerance;
    loop
        invariant
            tolerance <= MAX_AUTO_TOLERANCE,
            0 <= base,
            base + values@.len() <= i64::MAX,
            auto_tolerance(values@, base as int, observed@, starting_tolerance(previous, configured))
                == auto_tolerance(values@, base as int, observed@, tolerance),
        decreases MAX_AUTO_TOLERANCE - tolerance,
    {
        let matches = find_matches_in(values, base, observed, tolerance);
        proof {
            assert(matches@ == matches_at(values@, base as int, observed@, tolerance));
        }
        if matches.len() > 0 || tolerance >= MAX_AUTO_TOLERANCE {
            let mut out: Vec<TimelineCandidate> = Vec::new();
            let mut i: usize = 0;
            while i < matches.len()
                invariant
                    i <= matches@.len(),
                    out@ == candidates_of(matches@.subrange(0, i as int)),
                decreases matches@.len() - i,
            {
                out.push(TimelineCandidate::from_match(matches[i]));
                proof {
                    assert(matches@.subrange(0, i + 1) =~= matches@.subrange(0, i as int).push(matches@[i as int]));
                    assert(candidates_of(matches@.subrange(0, i + 1)) =~= candidates_of(
                        matches@.subrange(0, i as int),
                    ).push(out@[i as int]));
                }
                i = i + 1;
            }
            proof {
                assert(matches@.subrange(0, matches@.len() as int) =~= matches@);
            }
            return (out, tolerance);
        }
        tolerance = tolerance + 1;
    }
}

} // verus!
