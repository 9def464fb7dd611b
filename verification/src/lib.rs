//! Hardware and energy measurements around a region of code: a set of
//! measurement bundles (wall time, RAPL energy, cycles, cache misses and
//! C-state residency) is started, stopped and read, and the readings are laid
//! out as one CSV row.
pub mod columns;
pub mod readings;
pub mod config;
pub mod perf;
pub mod host;
pub mod events;
pub mod bundles;
pub mod time_bundle;
pub mod cycles;
pub mod misses;
pub mod rapl;
pub mod cstates;
pub mod measurements;
