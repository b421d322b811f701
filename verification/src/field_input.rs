//! Reading the field tab's text fields into search requests: the seed in
//! hexadecimal, the range, the NPC count or NPC range, the observed model,
//! the tolerance and the optional target.

use vstd::prelude::*;
use crate::text::{
    parsed_i64, parsed_hex_u32, trimmed, strip_hex_prefix, split_pieces, not_integer_message, negative_message,
    trim_text, parse_hex_u32, strip_hex_prefix_text, split_range_text, parse_nonnegative,
};
use crate::field_types::{FieldConfig, FieldTargetMode};
use crate::field::{static_config_error, field_error_message, validate_static_config, MAX_MODELS};

verus! {

/// Most NPCs a count may name (the player comes on top).
pub const MAX_NPC_COUNT: usize = 50;

/// Widest NPC range, end minus start.
pub const MAX_NPC_RANGE_WIDTH: usize = 20;

/// A non-negative integer field, or the message refusing it.
pub open spec fn nonnegative_spec(text: Seq<char>, label: Seq<char>) -> Result<int, Seq<char>> {
    match parsed_i64(trimmed(text)) {
        None => Err(not_integer_message(label)),
        Some(v) => if v < 0 {
            Err(negative_message(label))
        } else {
            Ok(v as int)
        },
    }
}

pub open spec fn npc_label() -> Seq<char> {
    "NPC数"@
}

pub open spec fn npc_too_large() -> Seq<char> {
    "NPC数が大きすぎます。"@
}

pub open spec fn npc_out_of_range() -> Seq<char> {
    "NPC数は0～50の範囲で入力してください。"@
}

pub open spec fn npc_range_format() -> Seq<char> {
    "NPC範囲は例: 10~20 の形式で入力してください。"@
}

/// One NPC count field.
pub open spec fn npc_count_spec(text: Seq<char>) -> Result<int, Seq<char>> {
    match nonnegative_spec(text, npc_label()) {
        Err(m) => Err(m),
        Ok(v) => if v > usize::MAX {
            Err(npc_too_large())
        } else {
            Ok(v)
        },
    }
}

/// The NPC counts an NPC field names: one count, or every count of a
/// `start~end` range.
pub open spec fn npc_counts_spec(input: Seq<char>, multiple: bool) -> Result<Seq<int>, Seq<char>> {
    let value = trimmed(input);
    if !multiple {
        match npc_count_spec(value) {
            Err(m) => Err(m),
            Ok(v) => if v > MAX_NPC_COUNT {
                Err(npc_out_of_range())
            } else {
                Ok(seq![v])
            },
        }
    } else {
        let parts = split_pieces(value);
        if parts.len() != 2 || trimmed(parts[0]).len() == 0 || trimmed(parts[1]).len() == 0 {
            Err(npc_range_format())
        } else {
            match npc_count_spec(parts[0]) {
                Err(m) => Err(m),
                Ok(s) => match npc_count_spec(parts[1]) {
                    Err(m) => Err(m),
                    Ok(e) => if s > MAX_NPC_COUNT || e > MAX_NPC_COUNT {
                        Err(npc_out_of_range())
                    } else if e < s {
                        Err("NPC範囲の終点は始点以上にしてください。"@)
                    } else if e - s > MAX_NPC_RANGE_WIDTH {
                        Err("NPC範囲は幅20以内で指定してください。"@)
                    } else {
                        Ok(Seq::new((e - s + 1) as nat, |k: int| s + k))
                    },
                },
            }
        }
    }
}

fn npc_count(text: &str) -> (r: Result<usize, String>)
    ensures
        match npc_count_spec(text@) {
            Ok(v) => r == Ok::<usize, String>(v as usize),
            Err(m) => r is Err && r->Err_0@ == m,
        },
{
    let v = match parse_nonnegative(text, "NPC数") {
        Ok(v) => v,
        Err(e) => return Err(e),
    };
    if v as u64 > usize::MAX as u64 {
        return Err("NPC数が大きすぎます。".to_owned());
    }
    Ok(v as usize)
}

fn is_blank(text: &str) -> (r: bool)
    ensures
        r == (trimmed(text@).len() == 0),
{
    trim_text(text).is_empty()
}

/// The NPC counts named by the NPC field.
pub fn parse_npc_counts(input: &str, multiple: bool) -> (r: Result<Vec<usize>, String>)
    ensures
        match npc_counts_spec(input@, multiple) {
            Ok(v) => r is Ok && r->Ok_0@.len() == v.len() && forall|k: int|
                0 <= k < v.len() ==> r->Ok_0@[k] == v[k],
            Err(m) => r is Err && r->Err_0@ == m,
        },
{
    let value = trim_text(input);
    if !multiple {
        let count = match npc_count(value) {
            Ok(c) => c,
            Err(e) => return Err(e),
        };
        if count > MAX_NPC_COUNT {
            return Err("NPC数は0～50の範囲で入力してください。".to_owned());
        }
        let mut v: Vec<usize> = Vec::new();
        v.push(count);
        return Ok(v);
    }
    let parts = split_range_text(value);
    if parts.len() != 2 || is_blank(parts[0].as_str()) || is_blank(parts[1].as_str()) {
        return Err("NPC範囲は例: 10~20 の形式で入力してください。".to_owned());
    }
    let start = match npc_count(parts[0].as_str()) {
        Ok(c) => c,
        Err(e) => return Err(e),
    };
    let end = match npc_count(parts[1].as_str()) {
        Ok(c) => c,
        Err(e) => return Err(e),
    };
    if start > MAX_NPC_COUNT || end > MAX_NPC_COUNT {
        return Err("NPC数は0～50の範囲で入力してください。".to_owned());
    }
    if end < start {
        return Err("NPC範囲の終点は始点以上にしてください。".to_owned());
    }
    if end - start > MAX_NPC_RANGE_WIDTH {
        return Err("NPC範囲は幅20以内で指定してください。".to_owned());
    }
    let mut counts: Vec<usize> = Vec::new();
    let mut k: usize = start;
    while k <= end
        invariant
            start <= k <= end + 1,
            end <= MAX_NPC_COUNT,
            counts@.len() == k - start,
            forall|j: int| 0 <= j < counts@.len() ==> counts@[j] == start + j,
        decreases end + 1 - k,
    {
        counts.push(k);
        k = k + 1;
    }
    Ok(counts)
}

/// The seed field: hexadecimal, leading `0x` markers ignored.
pub open spec fn seed_spec(text: Seq<char>) -> Result<u32, Seq<char>> {
    match parsed_hex_u32(strip_hex_prefix(trimmed(text))) {
        None => Err("初期SFMT SEEDは16進数で入力してください。"@),
        Some(v) => Ok(v),
    }
}

/// The observed model field; 0 when the observed model is unknown.
pub open spec fn target_model_spec(mode: FieldTargetMode, text: Seq<char>) -> Result<int, Seq<char>> {
    if mode == FieldTargetMode::Unknown {
        Ok(0)
    } else {
        match nonnegative_spec(text, "NPC番号"@) {
            Err(m) => Err(m),
            Ok(v) => if v > usize::MAX {
                Err("NPC番号が大きすぎます。"@)
            } else {
                Ok(v)
            },
        }
    }
}

/// The optional target field: blank means no target.
pub open spec fn target_spec(text: Seq<char>) -> Result<Option<int>, Seq<char>> {
    if trimmed(text).len() == 0 {
        Ok(None)
    } else {
        match nonnegative_spec(text, "目標消費数"@) {
            Err(m) => Err(m),
            Ok(v) => Ok(Some(v)),
        }
    }
}

/// The values of every field, read in order, or the first refusal:
/// (seed, range start, range end, NPC counts, observed model, tolerance,
/// target).
pub open spec fn field_inputs_spec(
    seed: Seq<char>,
    range_start: Seq<char>,
    range_end: Seq<char>,
    npc: Seq<char>,
    multiple: bool,
    mode: FieldTargetMode,
    target_model: Seq<char>,
    tolerance: Seq<char>,
    target: Seq<char>,
) -> Result<(u32, int, int, Seq<int>, int, int, Option<int>), Seq<char>> {
    match seed_spec(seed) {
        Err(m) => Err(m),
        Ok(sd) => match nonnegative_spec(range_start, "検索範囲の始点"@) {
            Err(m) => Err(m),
            Ok(rs) => match nonnegative_spec(range_end, "検索範囲の終点"@) {
                Err(m) => Err(m),
                Ok(re) => match npc_counts_spec(npc, multiple) {
                    Err(m) => Err(m),
                    Ok(counts) => match target_model_spec(mode, target_model) {
                        Err(m) => Err(m),
                        Ok(tm) => match nonnegative_spec(tolerance, "許容差"@) {
                            Err(m) => Err(m),
                            Ok(tol) => match target_spec(target) {
                                Err(m) => Err(m),
                                Ok(t) => Ok((sd, rs, re, counts, tm, tol, t)),
                            },
                        },
                    },
                },
            },
        },
    }
}

/// The NPC counts among the first `n` whose model count (the player added)
/// covers the observed model; every count when the model is unknown.
pub open spec fn kept_counts(counts: Seq<int>, mode: FieldTargetMode, tm: int, n: nat) -> Seq<int>
    decreases n,
{
    if n == 0 {
        Seq::empty()
    } else {
        let prev = kept_counts(counts, mode, tm, (n - 1) as nat);
        let c = counts[n - 1];
        if mode == FieldTargetMode::Unknown || tm < c + 1 {
            prev.push(c)
        } else {
            prev
        }
    }
}

/// The search request for one model count.
pub open spec fn request_for(
    v: (u32, int, int, Seq<int>, int, int, Option<int>),
    models: int,
    intervals: Vec<i64>,
) -> FieldConfig {
    FieldConfig {
        seed: v.0,
        range_start: v.1 as i64,
        range_end: v.2 as i64,
        models: models as usize,
        target_model: v.4 as usize,
        observed_intervals: intervals,
        tolerance: v.5 as i64,
        target_consumption: match v.6 {
            Some(t) => Some(t as i64),
            None => None,
        },
    }
}

fn nonnegative(text: &str, label: &str) -> (r: Result<i64, String>)
    ensures
        match nonnegative_spec(text@, label@) {
            Ok(v) => r == Ok::<i64, String>(v as i64),
            Err(m) => r is Err && r->Err_0@ == m,
        },
{
    parse_nonnegative(text, label)
}

/// The search requests of the field tab, one per NPC count whose model
/// count covers the observed model, in count order. Refused with the first
/// field that does not read, when no count covers the observed model, or
/// when the request itself is refused.
pub fn field_configs(
    seed: &str,
    range_start: &str,
    range_end: &str,
    npc_count: &str,
    multiple_npc_search: bool,
    target_mode: FieldTargetMode,
    target_model: &str,
    tolerance: &str,
    target_consumption: &str,
    intervals: &Vec<i64>,
) -> (r: Result<Vec<FieldConfig>, String>)
    ensures
        match field_inputs_spec(
            seed@,
            range_start@,
            range_end@,
            npc_count@,
            multiple_npc_search,
            target_mode,
            target_model@,
            tolerance@,
            target_consumption@,
        ) {
            Err(m) => r is Err && r->Err_0@ == m,
            Ok(v) => {
                let ks = kept_counts(v.3, target_mode, v.4, v.3.len());
                if ks.len() == 0 {
                    r is Err && r->Err_0@ == "観測対象idxはNPC範囲内の0～255で入力してください。"@
                } else if static_config_error(request_for(v, ks[0] + 1, *intervals)) is Some {
                    r is Err && r->Err_0@ == field_error_message(
                        static_config_error(request_for(v, ks[0] + 1, *intervals))->0,
                    )
                } else {
                    r is Ok && r->Ok_0@.len() == ks.len() && forall|k: int|
                        0 <= k < ks.len() ==> {
                            let c = #[trigger] r->Ok_0@[k];
                            let want = request_for(v, ks[k] + 1, *intervals);
                            &&& c.seed == want.seed
                            &&& c.range_start == want.range_start
                            &&& c.range_end == want.range_end
                            &&& c.models == want.models
                            &&& c.target_model == want.target_model
                            &&& c.observed_intervals@ == intervals@
                            &&& c.tolerance == want.tolerance
                            &&& c.target_consumption == want.target_consumption
                        }
                }
            },
        },
{
    let seed_value = match parse_hex_u32(strip_hex_prefix_text(trim_text(seed))) {
        Some(v) => v,
        None => return Err("初期SFMT SEEDは16進数で入力してください。".to_owned()),
    };
    let rs = match nonnegative(range_start, "検索範囲の始点") {
        Ok(v) => v,
        Err(e) => return Err(e),
    };
    let re = match nonnegative(range_end, "検索範囲の終点") {
        Ok(v) => v,
        Err(e) => return Err(e),
    };
    let counts = match parse_npc_counts(npc_count, multiple_npc_search) {
        Ok(v) => v,
        Err(e) => return Err(e),
    };
    let ghost counts_spec = npc_counts_spec(npc_count@, multiple_npc_search)->Ok_0;
    let tm: usize = match target_mode {
        FieldTargetMode::Unknown => 0,
        FieldTargetMode::Known => {
            let v = match nonnegative(target_model, "NPC番号") {
                Ok(v) => v,
                Err(e) => return Err(e),
            };
            if v as u64 > usize::MAX as u64 {
                return Err("NPC番号が大きすぎます。".to_owned());
            }
            v as usize
        },
    };
    let tol = match nonnegative(tolerance, "許容差") {
        Ok(v) => v,
        Err(e) => return Err(e),
    };
    let target: Option<i64> = if trim_text(target_consumption).is_empty() {
        None
    } else {
        match nonnegative(target_consumption, "目標消費数") {
            Ok(v) => Some(v),
            Err(e) => return Err(e),
        }
    };
    let ghost v = (seed_value, rs as int, re as int, counts_spec, tm as int, tol as int, match target {
        Some(t) => Some(t as int),
        None => None,
    });
    assert(field_inputs_spec(
        seed@,
        range_start@,
        range_end@,
        npc_count@,
        multiple_npc_search,
        target_mode,
        target_model@,
        tolerance@,
        target_consumption@,
    ) == Ok::<(u32, int, int, Seq<int>, int, int, Option<int>), Seq<char>>(v));
    assert forall|k: int| 0 <= k < counts_spec.len() implies 0 <= #[trigger] counts_spec[k] <= MAX_NPC_COUNT by {
        lemma_counts_bounded(npc_count@, multiple_npc_search);
    }
    let mut configs: Vec<FieldConfig> = Vec::new();
    let mut i: usize = 0;
    while i < counts.len()
        invariant
            counts@.len() == counts_spec.len(),
            forall|k: int| 0 <= k < counts_spec.len() ==> counts@[k] == counts_spec[k],
            forall|k: int| 0 <= k < counts_spec.len() ==> 0 <= #[trigger] counts_spec[k] <= MAX_NPC_COUNT,
            v.3 == counts_spec,
            v.4 == tm,
            i <= counts@.len(),
            configs@.len() == kept_counts(counts_spec, target_mode, tm as int, i as nat).len(),
            forall|k: int| 0 <= k < configs@.len() ==> {
                let c = #[trigger] configs@[k];
                let want = request_for(v, kept_counts(counts_spec, target_mode, tm as int, i as nat)[k] + 1, *intervals);
                &&& c.seed == want.seed
                &&& c.range_start == want.range_start
                &&& c.range_end == want.range_end
                &&& c.models == want.models
                &&& c.target_model == want.target_model
                &&& c.observed_intervals@ == intervals@
                &&& c.tolerance == want.tolerance
                &&& c.target_consumption == want.target_consumption
            },
            v.0 == seed_value,
            v.1 == rs,
            v.2 == re,
            v.5 == tol,
            v.6 == match target {
                Some(t) => Some(t as int),
                None => None,
            },
        decreases counts@.len() - i,
    {
        assert(counts@[i as int] == counts_spec[i as int]);
        let models = counts[i] + 1;
        let keep = match target_mode {
            FieldTargetMode::Unknown => true,
            FieldTargetMode::Known => tm < models,
        };
        if keep {
            configs.push(
                FieldConfig {
                    seed: seed_value,
                    range_start: rs,
                    range_end: re,
                    models,
                    target_model: tm,
                    observed_intervals: intervals.clone(),
                    tolerance: tol,
                    target_consumption: target,
                },
            );
        }
        proof {
            assert((i + 1) as nat - 1 == i as nat);
        }
        i = i + 1;
    }
    if configs.len() == 0 {
        return Err("観測対象idxはNPC範囲内の0～255で入力してください。".to_owned());
    }
    match validate_static_config(&configs[0]) {
        Err(e) => return Err(e),
        Ok(()) => {},
    }
    Ok(configs)
}

proof fn lemma_counts_bounded(input: Seq<char>, multiple: bool)
    ensures
        npc_counts_spec(input, multiple) is Ok ==> forall|k: int|
            0 <= k < npc_counts_spec(input, multiple)->Ok_0.len() ==> 0 <= #[trigger] npc_counts_spec(input, multiple)->Ok_0[k]
                <= MAX_NPC_COUNT,
{
    let value = trimmed(input);
    if multiple {
        let parts = split_pieces(value);
        if !(parts.len() != 2 || trimmed(parts[0]).len() == 0 || trimmed(parts[1]).len() == 0) {
            if npc_count_spec(parts[0]) is Ok && npc_count_spec(parts[1]) is Ok {
                let s = npc_count_spec(parts[0])->Ok_0;
                let e = npc_count_spec(parts[1])->Ok_0;
                assert(s >= 0) by {
                    assert(nonnegative_spec(parts[0], npc_label()) is Ok);
                }
            }
        }
    } else {
        if npc_count_spec(value) is Ok {
            assert(nonnegative_spec(value, npc_label()) is Ok);
        }
    }
}

} // verus!
