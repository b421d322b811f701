//! What the hatch guidance shows about circles (observed positions from
//! which the target is reached): whether the current position is one, where
//! the next one is, how many blinks away, and whether the target is out of
//! reach or out of the search. Times in seconds are the caller's business.

use vstd::prelude::*;
use crate::field_target::clamp_i64;
use crate::hatch_session::strictly_ascending;

verus! {

/// How many recent fastest-close start positions are remembered.
pub const MAX_RECORDED_CIRCLES: usize = 16;

/// The integer part of the hatch guidance.
#[derive(Clone, Copy, Debug, PartialEq, Eq)]
pub struct CircleGuidance {
    /// Whether the current position is a circle, when known.
    pub current_reachability: Option<bool>,
    pub reachable_now: bool,
    /// Blinks to the next circle; from a circle, to the one after it.
    pub blinks_until_circle: usize,
    pub next_circle_frame: Option<i64>,
    /// Every theoretical start of a fastest close was searched without a
    /// circle, or a normal wait's target lies behind the current position.
    pub target_unreachable: bool,
    /// The target is beyond the common limit from the current position.
    pub search_out_of_range: bool,
}

/// The first of `frames` inside `lo..=hi`.
pub open spec fn first_in(frames: Seq<i64>, lo: int, hi: int) -> Option<i64>
    decreases frames.len(),
{
    if frames.len() == 0 {
        None
    } else if lo <= frames[0] <= hi {
        Some(frames[0])
    } else {
        first_in(frames.drop_first(), lo, hi)
    }
}

/// A difference as a count: `usize::MAX` when negative or too large.
pub open spec fn as_count(d: int) -> usize {
    if 0 <= d <= usize::MAX {
        d as usize
    } else {
        usize::MAX
    }
}

/// The guidance for the current position `current`, the circles found so
/// far (`circles`, in ascending order), the search window and the end of the
/// positions already computed, and the known answer at `current`.
pub open spec fn circle_guidance_spec(
    current: i64,
    search_start: i64,
    search_end: i64,
    known_end: i64,
    circles: Seq<i64>,
    current_known: Option<bool>,
    fastest_close: bool,
    fastest_covered: Option<bool>,
    search_pending: bool,
    target: i64,
    target_dirty: bool,
    target_too_far: bool,
) -> CircleGuidance {
    if target_too_far {
        CircleGuidance {
            current_reachability: Some(false),
            reachable_now: false,
            blinks_until_circle: 0,
            next_circle_frame: None,
            target_unreachable: false,
            search_out_of_range: true,
        }
    } else {
        let current_reachability = if fastest_close && (current < search_start || current > search_end) {
            Some(false)
        } else {
            current_known
        };
        let scan_end: int = if known_end < search_end { known_end as int } else { search_end as int };
        let next_circle = if search_start <= scan_end { first_in(circles, search_start as int, scan_end) } else { None };
        let blinks = match next_circle {
            Some(f) => as_count(clamp_i64(f - current)),
            None => {
                let d = scan_end - search_start;
                let checked: int = if i64::MIN <= d && d + 1 <= i64::MAX { d + 1 } else { 0 };
                as_count(clamp_i64(clamp_i64(search_start - current) + checked))
            },
        };
        let reachable_now = current_reachability == Some(true);
        let blinks_until_circle = if reachable_now {
            if current + 1 <= scan_end {
                match first_in(circles, current + 1, scan_end) {
                    Some(f) => as_count(clamp_i64(f - current)),
                    None => 0,
                }
            } else {
                0
            }
        } else {
            blinks
        };
        let fastest_unreachable = fastest_close && next_circle is None && !search_pending && fastest_covered
            == Some(true);
        CircleGuidance {
            current_reachability,
            reachable_now,
            blinks_until_circle,
            next_circle_frame: next_circle,
            target_unreachable: !target_dirty && (fastest_unreachable || (!fastest_close && target < current)),
            search_out_of_range: false,
        }
    }
}

fn first_circle_in(circles: &Vec<i64>, lo: i64, hi: i64) -> (r: Option<i64>)
    ensures
        r == first_in(circles@, lo as int, hi as int),
{
    let mut i: usize = 0;
    proof {
        assert(circles@.subrange(0, circles@.len() as int) =~= circles@);
    }
    while i < circles.len()
        invariant
            i <= circles@.len(),
            first_in(circles@, lo as int, hi as int) == first_in(circles@.subrange(i as int, circles@.len() as int), lo as int, hi as int),
        decreases circles@.len() - i,
    {
        let f = circles[i];
        proof {
            let rest = circles@.subrange(i as int, circles@.len() as int);
            assert(rest[0] == f);
            assert(rest.drop_first() =~= circles@.subrange(i + 1, circles@.len() as int));
        }
        if lo <= f && f <= hi {
            return Some(f);
        }
        i = i + 1;
    }
    proof {
        assert(circles@.subrange(i as int, circles@.len() as int) =~= Seq::<i64>::empty());
    }
    None
}

fn count_of(d: i64) -> (r: usize)
    ensures
        r == as_count(d as int),
{
    if d < 0 {
        usize::MAX
    } else if d as u64 > usize::MAX as u64 {
        usize::MAX
    } else {
        d as usize
    }
}

fn sat_sub(a: i64, b: i64) -> (r: i64)
    ensures
        r == clamp_i64(a - b),
{
    match a.checked_sub(b) {
        Some(v) => v,
        None => if b > 0 {
            i64::MIN
        } else {
            i64::MAX
        },
    }
}

fn sat_add(a: i64, b: i64) -> (r: i64)
    ensures
        r == clamp_i64(a + b),
{
    match a.checked_add(b) {
        Some(v) => v,
        None => if b > 0 {
            i64::MAX
        } else {
            i64::MIN
        },
    }
}

/// On strictly ascending circles, `first_in` is the least circle in the
/// range, and `None` means no circle lies in it.
pub proof fn lemma_first_in_is_least(frames: Seq<i64>, lo: int, hi: int)
    requires
        strictly_ascending(frames),
    ensures
        first_in(frames, lo, hi) matches Some(f) ==> frames.contains(f) && lo <= f <= hi && forall|i: int|
            0 <= i < frames.len() && lo <= #[trigger] frames[i] <= hi ==> f <= frames[i],
        first_in(frames, lo, hi) is None ==> forall|i: int| 0 <= i < frames.len() ==> !(lo <= #[trigger] frames[i] <= hi),
    decreases frames.len(),
{
    if frames.len() > 0 {
        let rest = frames.drop_first();
        assert(strictly_ascending(rest)) by {
            assert forall|a: int, b: int| 0 <= a < b < rest.len() implies rest[a] < rest[b] by {
                assert(rest[a] == frames[a + 1] && rest[b] == frames[b + 1]);
            }
        }
        lemma_first_in_is_least(rest, lo, hi);
        if lo <= frames[0] <= hi {
            assert(frames.contains(frames[0])) by { assert(frames[0] == frames[0]); }
            assert forall|i: int| 0 <= i < frames.len() && lo <= #[trigger] frames[i] <= hi implies frames[0] <= frames[i] by {
                if i > 0 {
                    assert(frames[0] < frames[i]);
                }
            }
        } else {
            assert forall|i: int| 0 < i < frames.len() implies #[trigger] frames[i] == rest[i - 1] by {}
            if let Some(f) = first_in(rest, lo, hi) {
                let k = choose|k: int| 0 <= k < rest.len() && rest[k] == f;
                assert(frames[k + 1] == f);
            }
        }
    }
}

/// The integer part of the hatch guidance; see `circle_guidance_spec`.
pub fn circle_guidance(
    current: i64,
    search_start: i64,
    search_end: i64,
    known_end: i64,
    circles: &Vec<i64>,
    current_known: Option<bool>,
    fastest_close: bool,
    fastest_covered: Option<bool>,
    search_pending: bool,
    target: i64,
    target_dirty: bool,
    target_too_far: bool,
) -> (r: CircleGuidance)
    requires
        strictly_ascending(circles@),
    ensures
        r == circle_guidance_spec(
            current,
            search_start,
            search_end,
            known_end,
            circles@,
            current_known,
            fastest_close,
            fastest_covered,
            search_pending,
            target,
            target_dirty,
            target_too_far,
        ),
        r.next_circle_frame matches Some(f) ==> circles@.contains(f) && search_start <= f && forall|i: int|
            0 <= i < circles@.len() && search_start <= #[trigger] circles@[i] <= known_end && circles@[i] <= search_end
                ==> f <= circles@[i],
{
    proof {
        let scan_end: int = if known_end < search_end { known_end as int } else { search_end as int };
        lemma_first_in_is_least(circles@, search_start as int, scan_end);
    }
    if target_too_far {
        return CircleGuidance {
            current_reachability: Some(false),
            reachable_now: false,
            blinks_until_circle: 0,
            next_circle_frame: None,
            target_unreachable: false,
            search_out_of_range: true,
        };
    }
    let current_reachability = if fastest_close && (current < search_start || current > search_end) {
        Some(false)
    } else {
        current_known
    };
    let scan_end = if known_end < search_end {
        known_end
    } else {
        search_end
    };
    let next_circle = if search_start <= scan_end {
        first_circle_in(circles, search_start, scan_end)
    } else {
        None
    };
    let blinks = match next_circle {
        Some(f) => count_of(sat_sub(f, current)),
        None => {
            let checked: i64 = match scan_end.checked_sub(search_start) {
                Some(d) => match d.checked_add(1) {
                    Some(v) => v,
                    None => 0,
                },
                None => 0,
            };
            count_of(sat_add(sat_sub(search_start, current), checked))
        },
    };
    let reachable_now = match current_reachability {
        Some(v) => v,
        None => false,
    };
    let blinks_until_circle = if reachable_now {
        if current < scan_end {
            match first_circle_in(circles, current + 1, scan_end) {
                Some(f) => count_of(sat_sub(f, current)),
                None => 0,
            }
        } else {
            0
        }
    } else {
        blinks
    };
    let fastest_unreachable = fastest_close && next_circle.is_none() && !search_pending && match fastest_covered {
        Some(c) => c,
        None => false,
    };
    CircleGuidance {
        current_reachability,
        reachable_now,
        blinks_until_circle,
        next_circle_frame: next_circle,
        target_unreachable: !target_dirty && (fastest_unreachable || (!fastest_close && target < current)),
        search_out_of_range: false,
    }
}

/// The recorded fastest-close starts after showing the guidance at
/// `current`: a circle not yet recorded is added at the end, and the oldest
/// is dropped beyond `MAX_RECORDED_CIRCLES`.
pub open spec fn recorded_circles_spec(recorded: Seq<i64>, current: i64, fastest_close: bool, reachable_now: bool) -> Seq<
    i64,
> {
    if fastest_close && reachable_now && !recorded.contains(current) {
        let added = recorded.push(current);
        if added.len() > MAX_RECORDED_CIRCLES {
            added.drop_first()
        } else {
            added
        }
    } else {
        recorded
    }
}

pub fn record_circle(recorded: &mut Vec<i64>, current: i64, fastest_close: bool, reachable_now: bool)
    ensures
        final(recorded)@ == recorded_circles_spec(old(recorded)@, current, fastest_close, reachable_now),
{
    if !(fastest_close && reachable_now) {
        return;
    }
    let mut i: usize = 0;
    while i < recorded.len()
        invariant
            i <= recorded@.len(),
            forall|j: int| 0 <= j < i ==> recorded@[j] != current,
        decreases recorded@.len() - i,
    {
        if recorded[i] == current {
            assert(recorded@.contains(current));
            return;
        }
        i = i + 1;
    }
    assert(!recorded@.contains(current));
    let ghost before = recorded@;
    recorded.push(current);
    if recorded.len() > MAX_RECORDED_CIRCLES {
        recorded.remove(0);
        assert(recorded@ =~= before.push(current).drop_first());
    }
}

} // verus!
