//! Tests of the language table, the model registry, the analysis
//! categories, the prompt builders and the shell-facing parsers.

use reclip::asr::{clean_whisper_text, TranscriptionOptions};
use reclip::commands::{parse_analysis_type, parse_reason, EditorConfigInput, LlmProviderType};
use reclip::diarization::{DiarizationOptions, DiarizationProvider, SpeakerSegment};
use reclip::languages::Language;
use reclip::llm::{
    build_analysis_prompt, build_speaker_prompt, build_summary_prompt, type_description,
    AnalysisRequest, AnalysisType,
};
use reclip::models::{get_all_models, get_model, get_models_by_type, ModelType};
use reclip::merger::{
    find_speaker_at_time, merge_adjacent_speaker_segments, merge_speakers_with_transcript,
};
use reclip::types::{RemovalReason, Segment, TranscriptResult};
use reclip::waveform::{WaveformGenerator, WaveformResolution};

#[test]
fn test_language_mapping() {
    assert_eq!(Language::to_whisper_code("zh"), "zh");
    assert_eq!(Language::to_whisper_code("zh-TW"), "zh");
    assert_eq!(Language::to_whisper_code("yue"), "yue");
    assert_eq!(Language::to_whisper_code("en"), "en");
}

#[test]
fn test_language_fallback() {
    assert_eq!(Language::to_whisper_code("tlh"), "en");
    assert!(!Language::is_supported("tlh"));
    assert!(Language::is_supported("ja"));
    assert!(Language::get("xx").is_none());
    let fr = Language::get("fr").expect("fr is supported");
    assert_eq!(fr.code, "fr");
    assert_eq!(fr.whisper_code, "fr");
}

#[test]
fn test_clean_whisper_text() {
    assert_eq!(clean_whisper_text("<|startoftranscript|>Hello"), "Hello");
    assert_eq!(clean_whisper_text("Hello<|endoftext|>"), "Hello");
    assert_eq!(clean_whisper_text("<|zh|>你好<|endoftext|>"), "你好");
}

#[test]
fn test_transcription_options_default() {
    let o = TranscriptionOptions::default();
    assert_eq!(o.language, "zh");
    assert!(o.word_timestamps);
    assert_eq!(o.threads, 0);
}

#[test]
fn test_resolution_sample_count() {
    assert_eq!(WaveformResolution::Thumbnail.sample_count(), 256);
    assert_eq!(WaveformResolution::Standard.sample_count(), 2048);
}

#[test]
fn test_waveform_cache_path() {
    // The cache key is the first eight digest bytes of the path, in
    // hexadecimal; hashing the empty path pins the digest down exactly.
    let g = WaveformGenerator::with_cache_dir("d".to_string());
    let p = g.cache_path("", WaveformResolution::Standard).expect("caching is on");
    assert_eq!(p, "d/e3b0c44298fc1c14_std.json");
    let q = g.cache_path("some/audio.wav", WaveformResolution::Thumbnail).expect("caching is on");
    assert!(q.starts_with("d/"));
    assert!(q.ends_with("_thumb.json"));
    assert_ne!(p, q);
    assert!(WaveformGenerator::without_cache().cache_path("x", WaveformResolution::Full).is_none());
}

#[test]
fn test_model_registry() {
    let all = get_all_models();
    assert_eq!(all.len(), 7);
    let tiny = get_model("whisper-tiny").expect("registered");
    assert_eq!(tiny.filename, "ggml-tiny.bin");
    assert!(matches!(tiny.model_type, ModelType::Whisper));
    assert!(get_model("no-such-model").is_none());
    let whisper = get_models_by_type(ModelType::Whisper);
    assert_eq!(whisper.len(), 5);
    let seg = get_models_by_type(ModelType::PyannoteSegmentation);
    assert_eq!(seg.len(), 1);
    assert_eq!(seg[0].id, "pyannote-segmentation");
}

#[test]
fn test_model_type_subdirectory() {
    assert_eq!(ModelType::Whisper.subdirectory(), "whisper");
    assert_eq!(ModelType::PyannoteSegmentation.subdirectory(), "pyannote");
    assert_eq!(ModelType::PyannoteEmbedding.subdirectory(), "pyannote");
}

#[test]
fn test_model_size_strings() {
    let mut m = get_model("whisper-tiny").expect("registered");
    m.size_bytes = 500;
    assert_eq!(m.size_string(), "500 bytes");
    m.size_bytes = 75_000_000;
    assert_eq!(m.size_string(), "72 MB");
    m.size_bytes = 3_000_000_000;
    assert_eq!(m.size_string(), "2.8 GB");
    m.size_bytes = 10_240;
    assert_eq!(m.size_string(), "10 KB");
}

#[test]
fn test_analysis_type_names() {
    assert_eq!(AnalysisType::FillerWord.display_name(), "Filler Word");
    assert_eq!(AnalysisType::Tangent.display_name(), "Tangent");
    assert!(type_description(&AnalysisType::LongPause).contains(">2 seconds"));
}

#[test]
fn test_parse_reason_tags() {
    assert_eq!(parse_reason("filler"), RemovalReason::Filler);
    assert_eq!(parse_reason("repeat"), RemovalReason::Repeat);
    assert_eq!(parse_reason("restart"), RemovalReason::Restart);
    assert_eq!(parse_reason("mouth_noise"), RemovalReason::MouthNoise);
    assert_eq!(parse_reason("long_pause"), RemovalReason::LongPause);
    // Anything unknown counts as a filler.
    assert_eq!(parse_reason("???"), RemovalReason::Filler);
}

#[test]
fn test_parse_analysis_type_tags() {
    assert_eq!(parse_analysis_type("filler_word"), Some(AnalysisType::FillerWord));
    assert_eq!(parse_analysis_type("filler"), Some(AnalysisType::FillerWord));
    assert_eq!(parse_analysis_type("repetition"), Some(AnalysisType::Repetition));
    assert_eq!(parse_analysis_type("pause"), Some(AnalysisType::LongPause));
    assert_eq!(parse_analysis_type("stutter"), Some(AnalysisType::Stutter));
    assert_eq!(parse_analysis_type("tangent"), Some(AnalysisType::Tangent));
    assert_eq!(parse_analysis_type("banter"), None);
}

#[test]
fn test_prompts_carry_their_inputs() {
    let summary = build_summary_prompt("Hello there", "en");
    assert!(summary.contains("Hello there"));
    assert!(summary.contains("Write the summary in: en"));
    let speakers = build_speaker_prompt("Hi", 3);
    assert!(speakers.contains("transcript with 3 speakers"));
    assert!(speakers.contains("Hi"));
}

#[test]
fn test_reason_tags() {
    assert_eq!(RemovalReason::Filler.as_str(), "filler");
    assert_eq!(RemovalReason::Repeat.as_str(), "repeat");
    assert_eq!(RemovalReason::Restart.as_str(), "restart");
    assert_eq!(RemovalReason::MouthNoise.as_str(), "mouth_noise");
    assert_eq!(RemovalReason::LongPause.as_str(), "long_pause");
}

#[test]
fn test_diarization_provider_state() {
    let mut p = DiarizationProvider::new();
    assert!(!p.is_loaded());
    p.load_models("seg.onnx".to_string(), "emb.onnx".to_string());
    assert!(p.is_loaded());
    assert_eq!(p.segmentation_model_path.as_deref(), Some("seg.onnx"));
    assert_eq!(p.embedding_model_path.as_deref(), Some("emb.onnx"));
    p.unload();
    assert!(!p.is_loaded());
    assert!(p.segmentation_model_path.is_none());
    let o = DiarizationOptions::default();
    assert!(o.min_speakers.is_none() && o.max_speakers.is_none());
}

#[test]
fn test_shell_inputs() {
    let c = EditorConfigInput::default();
    assert_eq!(c.crossfade_ms, 30);
    assert_eq!(c.min_removal_ms, 100);
    assert_eq!(c.merge_gap_ms, 50);
    assert_eq!(c.zero_crossing_search_ms, 5);
    assert_ne!(LlmProviderType::Claude, LlmProviderType::Ollama);
}

#[test]
fn test_merge_speakers() {

    let transcript = TranscriptResult {
        segments: vec![
            Segment {
                text: "Hello".to_string(),
                start: 0,
                end: 2_000,
                speaker: None,
                words: vec![],
            },
            Segment {
                text: "World".to_string(),
                start: 3_000,
                end: 5_000,
                speaker: None,
                words: vec![],
            },
        ],
        language: "en".to_string(),
        duration: 5_000,
    };
    let diarization = vec![
        SpeakerSegment { start: 0, end: 2_500, speaker_id: "Speaker1".to_string(), confidence: 900 },
        SpeakerSegment { start: 2_500, end: 5_000, speaker_id: "Speaker2".to_string(), confidence: 900 },
    ];
    let result = merge_speakers_with_transcript(transcript, &diarization).unwrap();
    assert_eq!(result.segments[0].speaker, Some("Speaker1".to_string()));
    assert_eq!(result.segments[1].speaker, Some("Speaker2".to_string()));
}

#[test]
fn test_find_speaker_at_time() {

    let diarization = vec![
        SpeakerSegment { start: 0, end: 2_000, speaker_id: "A".to_string(), confidence: 900 },
        SpeakerSegment { start: 2_000, end: 4_000, speaker_id: "B".to_string(), confidence: 900 },
    ];
    assert_eq!(find_speaker_at_time(1_000, &diarization), Some("A".to_string()));
    assert_eq!(find_speaker_at_time(3_000, &diarization), Some("B".to_string()));
}

#[test]
fn test_speaker_segment_duration() {
    let segment = SpeakerSegment {
        start: 1_000,
        end: 3_500,
        speaker_id: "Speaker1".to_string(),
        confidence: 900,
    };
    assert_eq!(segment.duration(), 2_500);
}

#[test]
fn test_merge_adjacent_segments() {

    let transcript = TranscriptResult {
        segments: vec![
            Segment {
                text: "Hello".to_string(),
                start: 0,
                end: 2_000,
                speaker: Some("A".to_string()),
                words: vec![],
            },
            Segment {
                text: "there".to_string(),
                start: 2_500,
                end: 3_000,
                speaker: Some("A".to_string()),
                words: vec![],
            },
            Segment {
                text: "World".to_string(),
                start: 3_100,
                end: 5_000,
                speaker: Some("B".to_string()),
                words: vec![],
            },
        ],
        language: "en".to_string(),
        duration: 5_000,
    };
    let merged = merge_adjacent_speaker_segments(transcript);
    assert_eq!(merged.segments.len(), 2);
    assert_eq!(merged.segments[0].text, "Hello there");
    assert_eq!(merged.segments[0].start, 0);
    assert_eq!(merged.segments[0].end, 3_000);
    assert_eq!(merged.segments[1].text, "World");
}

#[test]
fn test_build_analysis_prompt() {
    let request = AnalysisRequest {
        transcript: "Hello, um, how are you?".to_string(),
        language: "en".to_string(),
        speakers: None,
        analysis_types: vec![AnalysisType::FillerWord],
        sensitivity: 500,
    };

    let prompt = build_analysis_prompt(&request);
    assert!(prompt.contains("Hello, um, how are you?"));
    assert!(prompt.contains("Filler Word"));
    assert!(prompt.contains("moderate"));
}

#[test]
fn test_analysis_request_default() {
    let r = AnalysisRequest::default();
    assert_eq!(r.language, "en");
    assert_eq!(r.analysis_types.len(), 4);
    assert_eq!(r.sensitivity, 500);
    assert!(r.speakers.is_none());
}

#[test]
fn test_model_path() {
    let model = reclip::models::ModelInfo {
        id: "test".to_string(),
        name: "Test".to_string(),
        model_type: ModelType::Whisper,
        filename: "test.bin".to_string(),
        url: "http://example.com/test.bin".to_string(),
        size_bytes: 1000,
        sha256: String::new(),
        description: "Test model".to_string(),
    };
    let path = reclip::models::model_path("/tmp/test", &model);
    assert_eq!(path, "/tmp/test/whisper/test.bin");
}

#[test]
fn test_model_size_string_ties() {
    // An exact half rounds to the even neighbour.
    let mut m = get_model("whisper-tiny").expect("registered");
    m.size_bytes = 2_621_440; // exactly 2.5 MiB
    assert_eq!(m.size_string(), "2 MB");
    m.size_bytes = 3_670_016; // exactly 3.5 MiB
    assert_eq!(m.size_string(), "4 MB");
    m.size_bytes = 2_560; // exactly 2.5 KiB
    assert_eq!(m.size_string(), "2 KB");
    m.size_bytes = 3_584; // exactly 3.5 KiB
    assert_eq!(m.size_string(), "4 KB");
}
