//! Edit decision and rendering engine for recorded voice tracks.
//!
//! The engine takes decoded audio samples together with a list of
//! time-stamped removal intervals and deterministically produces a reduced
//! audio stream plus a structured report of what was removed.  Sample
//! amplitudes are fixed-point integers and times are integer milliseconds,
//! so every decision the engine makes is exact and provable.

use vstd::prelude::*;

pub mod asr;
pub mod audio;
pub mod commands;
pub mod diarization;
pub mod editor;
pub mod exporter;
pub mod languages;
pub mod llm;
pub mod merger;
pub mod models;
pub mod strfmt;
pub mod types;
pub mod waveform;

verus! {

/// Largest sample rate, in hertz, that the engine accepts.  The bound keeps
/// every millisecond-times-rate product comfortably inside `u64`.
pub const MAX_SAMPLE_RATE: u32 = 4_000_000;

/// Largest time stamp, in milliseconds, that a removal interval may carry.
/// The bound keeps every millisecond-times-rate product inside `u64`.
pub const MAX_TIME_MS: u64 = 4_000_000_000_000;

/// Largest number of samples an audio buffer may hold.  The bound keeps the
/// duration computation `len * 1000` inside `u64`.
pub const MAX_BUFFER_SAMPLES: u64 = 0x10_0000_0000_0000;

} // verus!
