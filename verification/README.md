# hatch_blink_search

A verified library for predicting NPC blinks and production timing from the
SFMT random number stream: the hatch blink observation, the Rotom chatter and
NPC initial load after the hatch, the production timeline to a target
position, the guidance of which observed positions reach the target, the
field blink search over many start positions and models, and the offset
corrections after a run. Every function in `src/` carries a contract that
Verus proves.

Layout:

- `src/sfmt.rs`, `src/model_status.rs`: the generator and the blink counters.
- `src/timeline.rs`, `src/production_cache.rs`, `src/production.rs`,
  `src/production_session.rs`: production timelines, target lookups and the
  kept continuous timeline.
- `src/encounter.rs`: from the observed position to the production start.
- `src/observation.rs`, `src/hatch_match.rs`, `src/observation_session.rs`:
  hatch blink matching and the observation session.
- `src/guidance.rs`, `src/guidance_view.rs`: the circle guidance.
- `src/hatch_session.rs`: hatch settings, corrections and the production key.
- `src/field_*.rs`, `src/field.rs`, `src/blink_queue.rs`: the field search,
  its targets, lazy timeline growth, narrowing and the blink timer queue.
- `src/cache_file.rs`, `src/cache_format.rs`: the observation cache file's
  name, header and value bytes.
- `src/timer_plan.rs`, `src/text.rs`, `src/offsets.rs`,
  `src/state_types.rs`, `src/status.rs`: timers, field reading and messages.
- `app/`: the command-line program: saved settings, offsets, reading and
  writing cache files, sound, the running timer clock, the blink clock of an
  observation and the printed circle guidance.
- `tests/`: scenario tests of the library.
