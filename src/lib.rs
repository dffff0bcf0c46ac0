//! Enumerating the output devices and playback streams of a PulseAudio sound
//! server from the text of its control utility, and planning the commands that
//! move streams between devices.
pub mod engine;
pub mod model;
pub mod parser;
pub mod snapshot;
pub mod text;
