//! Verified core of the hatch-blink / field RNG search tool: the SFMT
//! generator, the NPC blink state machine, production timelines, encounter
//! planning, observation matching and the session rules around them.

pub mod sfmt;
pub mod model_status;
pub mod timeline;
pub mod production_cache;
pub mod encounter;
pub mod production;
pub mod production_session;
pub mod observation;
pub mod state_types;
pub mod status;
pub mod field_session;
pub mod offsets;
pub mod text;
pub mod timer_plan;
pub mod field_types;
pub mod field_scan;
pub mod field_target;
pub mod field_infer;
pub mod field;
pub mod field_range;
pub mod field_extend;
pub mod field_advance;
pub mod field_input;
pub mod guidance;
pub mod guidance_view;
pub mod cache_file;
pub mod hatch_session;
pub mod hatch_match;
pub mod observation_session;
pub mod blink_queue;
pub mod cache_format;
