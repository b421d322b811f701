//! Production start and target reachability for one observed position,
//! shared by the guidance, the candidate checks and the timers.

use vstd::prelude::*;
use crate::encounter::{spec_encounter_plan, encounter_plan_with_pre_rotom_consumption};
use crate::timeline::{max_models, tl_frame, lands_on, advance_timeline, production_timeline};

verus! {

/// Largest distance from the observed position to the target for which the
/// production timeline is computed synchronously.
pub const MAX_PRODUCTION_LOOKAHEAD: i64 = 100_000;

/// Immutable inputs of a target reachability query.
#[derive(Clone, Copy, Debug, PartialEq, Eq)]
pub struct ProductionQuery {
    pub seed: u32,
    pub target: i64,
    pub models: usize,
    pub offset: i64,
    pub consider_rotom: bool,
    pub rotom_threshold: u64,
    pub observed_rotom_talk: Option<bool>,
    pub pre_rotom_consumption: i64,
    pub npc_initial_load: i64,
    pub fastest_ticks: Option<i64>,
}

impl ProductionQuery {
    /// Start after extra consumption, Rotom and the initial load.
    pub open spec fn spec_base_start(self, observed_position: i64) -> Option<i64> {
        match spec_encounter_plan(
            self.seed,
            observed_position,
            self.offset,
            self.consider_rotom,
            if self.rotom_threshold < 100 { self.rotom_threshold } else { 100 },
            self.observed_rotom_talk,
            self.pre_rotom_consumption,
            self.npc_initial_load,
        ) {
            Some(plan) => Some(plan.encounter_start),
            None => None,
        }
    }

    /// Start of the production timeline; a fastest close additionally
    /// advances the configured number of ticks.
    pub open spec fn spec_start(self, observed_position: i64) -> Option<i64> {
        match self.spec_base_start(observed_position) {
            None => None,
            Some(s) => match self.fastest_ticks {
                None => Some(s),
                Some(t) => if s < 0 || t < 0 || self.models == 0 {
                    None
                } else {
                    let f = tl_frame(self.seed, s as int, self.models as nat, t as nat);
                    if f <= i64::MAX { Some(f as i64) } else { None }
                },
            },
        }
    }

    /// The target lies too far after the observed position to be checked.
    pub open spec fn too_far(self, observed_position: i64) -> bool {
        self.target - observed_position > MAX_PRODUCTION_LOOKAHEAD
    }

    pub fn base_encounter_start(self, observed_position: i64) -> (r: Option<i64>)
        ensures
            r == self.spec_base_start(observed_position),
    {
        match encounter_plan_with_pre_rotom_consumption(
            self.seed,
            observed_position,
            self.offset,
            self.consider_rotom,
            self.rotom_threshold,
            self.observed_rotom_talk,
            self.pre_rotom_consumption,
            self.npc_initial_load,
        ) {
            Some(plan) => Some(plan.encounter_start),
            None => None,
        }
    }

    pub fn encounter_start(self, observed_position: i64) -> (r: Option<i64>)
        requires
            self.models <= max_models(),
        ensures
            r == self.spec_start(observed_position),
    {
        let start = match self.base_encounter_start(observed_position) {
            Some(s) => s,
            None => return None,
        };
        match self.fastest_ticks {
            None => Some(start),
            Some(ticks) => advance_timeline(self.seed, start, self.models, ticks),
        }
    }

    /// Whether the production timeline from this observed position lands
    /// exactly on the target (false when the target is too far away).
    pub fn target_reachable(self, observed_position: i64) -> (r: bool)
        requires
            self.models <= max_models(),
        ensures
            r == (!self.too_far(observed_position) && match self.spec_start(observed_position) {
                Some(s) => lands_on(self.seed, s as int, self.target as int, self.models as nat),
                None => false,
            }),
    {
        if (self.target as i128) - (observed_position as i128) > MAX_PRODUCTION_LOOKAHEAD as i128 {
            return false;
        }
        let start = match self.encounter_start(observed_position) {
            Some(s) => s,
            None => return false,
        };
        production_timeline(self.seed, start, self.target, self.models).target_tick.is_some()
    }

    /// Table check: a fastest close must land exactly on the target after its
    /// ticks; a normal wait must land on it along the timeline. `None` when no
    /// start position exists.
    pub fn target_exactly_reached(self, observed_position: i64) -> (r: Option<bool>)
        requires
            self.models <= max_models(),
        ensures
            self.too_far(observed_position) ==> r == Some(false),
            !self.too_far(observed_position) ==> r == match self.spec_start(observed_position) {
                None => None,
                Some(s) => Some(
                    if self.fastest_ticks is Some {
                        s == self.target
                    } else {
                        lands_on(self.seed, s as int, self.target as int, self.models as nat)
                    },
                ),
            },
    {
        if (self.target as i128) - (observed_position as i128) > MAX_PRODUCTION_LOOKAHEAD as i128 {
            return Some(false);
        }
        let start = match self.encounter_start(observed_position) {
            Some(s) => s,
            None => return None,
        };
        if self.fastest_ticks.is_some() {
            Some(start == self.target)
        } else {
            Some(production_timeline(self.seed, start, self.target, self.models).target_tick.is_some())
        }
    }
}

} // verus!
