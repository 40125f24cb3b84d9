//! Audio: WAV decoding and playback bookkeeping.

pub mod device;
pub mod mixer;
pub mod play_laws;
pub mod synth;
pub mod wav;
pub mod wav_laws;
