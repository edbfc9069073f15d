//! The verified core of an audio file viewer: reading WAV headers, shaping
//! waveforms, finding silence, driving playback and keeping track of the
//! audio files that are open.

pub mod analysis;
pub mod binary64;
pub mod display;
pub mod duration;
pub mod error;
pub mod file;
pub mod item;
pub mod level;
pub mod local;
pub mod metrics;
pub mod panel;
pub mod playback;
pub mod remote;
pub mod sample;
pub mod silence;
pub mod store;
pub mod table;
pub mod text;
pub mod transport;
pub mod view;
pub mod wav;
pub mod waveform;
