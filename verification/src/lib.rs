//! Event parsing and real-time playback scheduling for Standard MIDI Files.
//!
//! The crate decodes the byte-oriented, variable-length track format one
//! event at a time, merges all tracks into a single tick-ordered stream with
//! a sparse delta table, and drives a drift-corrected playback state machine
//! that tells its caller what to send to a synthesizer sink and how long to
//! sleep between events.

pub mod loader;
pub mod player;
pub mod round_trip;
pub mod scheduler;
pub mod sort;
pub mod stats_logger;
pub mod track_data;
pub mod utils;
