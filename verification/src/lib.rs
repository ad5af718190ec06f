//! A step-sequencer core for live harmonic performance: it turns a looping,
//! editable one-bar chord sequence into sample-accurate MIDI note-on/note-off
//! bytes, one audio-callback window at a time.
//!
//! The crate is organised leaves-first: pitches and chord degrees, the harmony
//! table, the subdivision grid, the shared sequence model, the timing model
//! that maps musical time to audio frames, the translator that expands one bar
//! of chords into frame-stamped events, and the scheduler that diffs the live
//! timeline against the previous callback's view and emits exactly the bytes
//! owed to the current window.

pub mod chord_degree;
pub mod chord_sequence;
pub mod chords;
pub mod note;
pub mod project_state;
pub mod scheduler;
pub mod project_time_info;
pub mod sequence_translation;
pub mod timing_info;
pub mod tatum;
