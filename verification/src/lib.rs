//! Core logic of a tray app that records meetings (microphone on the left
//! channel, system audio on the right), transcribes each channel and keeps
//! the recordings folder tidy.
//!
//! Everything here is plain computation over strings, integers and vectors;
//! the audio devices, the sidecar process, the database, the network and the
//! window system are driven from outside and hand their values in.

pub mod text;
pub mod paths;
pub mod storage;
pub mod mixer;
pub mod chunks;
pub mod sidecar;
pub mod transcribe;
pub mod transcription;
pub mod job;
pub mod model;
pub mod detection;
pub mod tray;
pub mod onboarding;
pub mod error;
pub mod metal;
pub mod commands;
pub mod settings;
pub mod recording;

