//! Verified core of a MIDI "flipper": mirrors the notes of MIDI tracks
//! around the middle of the keyboard, keeps the derived data (paint caches,
//! bar grids, playback schedules) in step with the edited tracks.
pub mod flip;
pub mod midi;
pub mod paint;
pub mod track;
pub mod merge;
pub mod sequencer;
pub mod sink;
pub mod grid;
pub mod timing;
pub mod error;
pub mod session;
pub mod log;
pub mod transport;
pub mod widgets;
pub mod settings;
pub mod vu;
pub mod midi_file;
pub mod soundfont;
