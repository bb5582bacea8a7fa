//! Plain value types exchanged with the application shell, and the
//! parsers that turn its string tags into engine enums.

use vstd::prelude::*;

use crate::llm::AnalysisType;
use crate::strfmt::str_eq;
use crate::types::RemovalReason;

verus! {

/// Transcription-model status for the shell.
#[derive(Debug, Clone)]
pub struct AsrModelInfo {
    /// Whether a model is loaded.
    pub is_loaded: bool,
    /// The loaded model's path, if any.
    pub model_path: Option<String>,
}

/// Transcription options as the shell sends them; missing fields take
/// defaults.
#[derive(Debug)]
pub struct TranscriptionOptionsInput {
    /// Language code.
    pub language: Option<String>,
    /// Whether to produce word-level time stamps.
    pub word_timestamps: Option<bool>,
    /// Worker threads.
    pub threads: Option<u32>,
}

/// One supported language as shown to the shell.
#[derive(Debug, Clone, Copy)]
pub struct LanguageInfo {
    /// Language code.
    pub code: &'static str,
    /// Display name.
    pub name: &'static str,
}

/// Editor policy as the shell sends it.
#[derive(Debug)]
pub struct EditorConfigInput {
    /// Crossfade length in milliseconds.
    pub crossfade_ms: u32,
    /// Minimum removal length in milliseconds.
    pub min_removal_ms: u32,
    /// Merge gap in milliseconds.
    pub merge_gap_ms: u32,
    /// Zero-crossing search radius in milliseconds.
    pub zero_crossing_search_ms: u32,
}

impl Default for EditorConfigInput {
    /// The default editor policy.
    fn default() -> (c: EditorConfigInput)
        ensures
            c.crossfade_ms == 30,
            c.min_removal_ms == 100,
            c.merge_gap_ms == 50,
            c.zero_crossing_search_ms == 5,
    {
        EditorConfigInput {
            crossfade_ms: 30,
            min_removal_ms: 100,
            merge_gap_ms: 50,
            zero_crossing_search_ms: 5,
        }
    }
}

/// Diarization-model status for the shell.
#[derive(Debug, Clone, Copy)]
pub struct DiarizationModelInfo {
    /// Whether the models are loaded.
    pub is_loaded: bool,
}

/// Diarization options as the shell sends them.
#[derive(Debug)]
pub struct DiarizationOptionsInput {
    /// Smallest speaker count to consider.
    pub min_speakers: Option<u32>,
    /// Largest speaker count to consider.
    pub max_speakers: Option<u32>,
}

/// Which language-model provider to use.
#[derive(Debug, Clone, Copy, PartialEq, Eq, Structural)]
pub enum LlmProviderType {
    /// A hosted model.
    Claude,
    /// A local model server.
    Ollama,
}

/// Language-model configuration as the shell sends it.
#[derive(Debug)]
pub struct LlmConfigInput {
    /// Which provider to use.
    pub provider: LlmProviderType,
    /// The API key, for hosted providers.
    pub api_key: Option<String>,
    /// The model name.
    pub model: Option<String>,
    /// The local server's base address.
    pub ollama_url: Option<String>,
}

/// Language-model status for the shell.
#[derive(Debug, Clone)]
pub struct LlmStatus {
    /// The configured provider's name, if any.
    pub provider: Option<String>,
    /// The configured model name.
    pub model: String,
    /// Whether the provider answered a liveness check.
    pub is_available: bool,
}

/// One downloadable model as shown to the shell.
#[derive(Debug, Clone)]
pub struct ModelInfoResponse {
    /// Model identifier.
    pub id: String,
    /// Display name.
    pub name: String,
    /// Model category tag.
    pub model_type: String,
    /// File size in bytes.
    pub size_bytes: u64,
    /// Description.
    pub description: String,
    /// Whether the file is already on disk.
    pub is_downloaded: bool,
}

/// Waveform options as the shell sends them.
#[derive(Debug)]
pub struct WaveformOptionsInput {
    /// Resolution tag.
    pub resolution: Option<String>,
    /// Whether the cache may answer.
    pub use_cache: Option<bool>,
}

/// The removal reason a tag names; anything unknown counts as a filler.
pub open spec fn spec_parse_reason(s: Seq<char>) -> RemovalReason {
    if s == "filler"@ {
        RemovalReason::Filler
    } else if s == "repeat"@ {
        RemovalReason::Repeat
    } else if s == "restart"@ {
        RemovalReason::Restart
    } else if s == "mouth_noise"@ {
        RemovalReason::MouthNoise
    } else if s == "long_pause"@ {
        RemovalReason::LongPause
    } else {
        RemovalReason::Filler
    }
}

/// Parses a removal-reason tag; anything unknown counts as a filler.
pub fn parse_reason(reason: &str) -> (r: RemovalReason)
    ensures
        r == spec_parse_reason(reason@),
{
    if str_eq(reason, "filler") {
        RemovalReason::Filler
    } else if str_eq(reason, "repeat") {
        RemovalReason::Repeat
    } else if str_eq(reason, "restart") {
        RemovalReason::Restart
    } else if str_eq(reason, "mouth_noise") {
        RemovalReason::MouthNoise
    } else if str_eq(reason, "long_pause") {
        RemovalReason::LongPause
    } else {
        RemovalReason::Filler
    }
}

/// The analysis category a tag names, if any; both the engine's tags and
/// the analysis model's synonyms are accepted.
pub open spec fn spec_parse_analysis_type(s: Seq<char>) -> Option<AnalysisType> {
    if s == "filler_word"@ || s == "filler"@ {
        Some(AnalysisType::FillerWord)
    } else if s == "repetition"@ || s == "repeat"@ {
        Some(AnalysisType::Repetition)
    } else if s == "false_start"@ || s == "restart"@ {
        Some(AnalysisType::FalseStart)
    } else if s == "long_pause"@ || s == "pause"@ {
        Some(AnalysisType::LongPause)
    } else if s == "stutter"@ {
        Some(AnalysisType::Stutter)
    } else if s == "tangent"@ {
        Some(AnalysisType::Tangent)
    } else {
        None
    }
}

/// Parses an analysis-category tag.
pub fn parse_analysis_type(s: &str) -> (r: Option<AnalysisType>)
    ensures
        r == spec_parse_analysis_type(s@),
{
    if str_eq(s, "filler_word") || str_eq(s, "filler") {
        Some(AnalysisType::FillerWord)
    } else if str_eq(s, "repetition") || str_eq(s, "repeat") {
        Some(AnalysisType::Repetition)
    } else if str_eq(s, "false_start") || str_eq(s, "restart") {
        Some(AnalysisType::FalseStart)
    } else if str_eq(s, "long_pause") || str_eq(s, "pause") {
        Some(AnalysisType::LongPause)
    } else if str_eq(s, "stutter") {
        Some(AnalysisType::Stutter)
    } else if str_eq(s, "tangent") {
        Some(AnalysisType::Tangent)
    } else {
        None
    }
}

} // verus!
