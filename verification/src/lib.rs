//! Verified core of the Fugue piano session archive: MIDI pedal notation,
//! recorder state, upload validation and the plain data of the services.

pub mod text;
pub mod musicxml;
pub mod tick_sort;
pub mod pedal;
pub mod recorder_state;
pub mod live;
pub mod errors;
pub mod sessions;
pub mod auth;
pub mod config;
pub mod mscore;
pub mod recorder_config;
pub mod smf_track;
pub mod take;
pub mod live_stream;
pub mod natural;
