//! Tests of the audio primitives and the edit decision engine.

use reclip::audio::{AudioData, AudioFormatKind, AudioProcessor};
use reclip::editor::{Editor, EditorConfig, SampleAlignedRemoval};
use reclip::types::{AnalysisResult, RemovalReason, Removal};

fn removal(start: u64, end: u64, reason: RemovalReason, text: &str, confidence: u32) -> Removal {
    Removal { start, end, reason, text: text.to_string(), confidence }
}

#[test]
fn test_find_zero_crossing() {
    let samples = vec![500_000, 300_000, 100_000, -100_000, -300_000, -500_000];
    let idx = AudioProcessor::find_zero_crossing(&samples, 3, 2);
    assert!(idx == 2 || idx == 3);
}

#[test]
fn test_crossfade() {
    let seg1 = vec![1_000_000; 100];
    let seg2 = vec![0; 100];
    let result = AudioProcessor::apply_crossfade(&seg1, &seg2, 10);
    assert_eq!(result.len(), 190);
}

#[test]
fn test_crossfade_zero_fade_is_concat() {
    let seg1 = vec![5, -3, 7];
    let seg2 = vec![2, 9];
    let result = AudioProcessor::apply_crossfade(&seg1, &seg2, 0);
    assert_eq!(result, vec![5, -3, 7, 2, 9]);
}

#[test]
fn test_crossfade_length_formula() {
    // len(A) + len(B) - min(fade, len(A), len(B)), on several shapes.
    let a = vec![1; 7];
    let b = vec![2; 4];
    assert_eq!(AudioProcessor::apply_crossfade(&a, &b, 100).len(), 7 + 4 - 4);
    assert_eq!(AudioProcessor::apply_crossfade(&a, &b, 3).len(), 7 + 4 - 3);
    assert_eq!(AudioProcessor::apply_crossfade(&a, &Vec::new(), 3).len(), 7);
    assert_eq!(AudioProcessor::apply_crossfade(&Vec::new(), &b, 3).len(), 4);
}

#[test]
fn test_crossfade_linear_transition() {
    // Two constant segments: the ten blended samples step linearly from
    // full scale toward zero.
    let seg1 = vec![1_000_000; 100];
    let seg2 = vec![0; 100];
    let result = AudioProcessor::apply_crossfade(&seg1, &seg2, 10);
    assert_eq!(result.len(), 190);
    for i in 0..10usize {
        let expected = 1_000_000 * (10 - i as i64) / 10;
        assert_eq!(result[90 + i] as i64, expected);
    }
    for i in 0..90usize {
        assert_eq!(result[i], 1_000_000);
        assert_eq!(result[100 + i], 0);
    }
}

#[test]
fn test_zero_crossing_stays_in_range() {
    let samples = vec![5, 5, 5, 5];
    for target in 0..8usize {
        for radius in 0..5usize {
            let idx = AudioProcessor::find_zero_crossing(&samples, target, radius);
            assert!(idx < samples.len());
        }
    }
}

#[test]
fn test_zero_crossing_quietest_fallback() {
    // No sign change anywhere: the window's quietest sample wins.
    let samples = vec![900, 70, 40, 800, 900, 900];
    let idx = AudioProcessor::find_zero_crossing(&samples, 1, 2);
    assert_eq!(idx, 2);
}

#[test]
fn test_time_sample_conversion() {
    let audio = AudioData { samples: vec![0; 48_000], sample_rate: 48_000 };
    assert_eq!(audio.duration(), 1000);
    assert_eq!(audio.time_to_sample(1000), 48_000);
    assert_eq!(audio.time_to_sample(500), 24_000);
    assert_eq!(audio.sample_to_time(24_000), 500);
}

#[test]
fn test_merge_example() {
    // Two filler removals 50 ms apart merge into one interval that takes
    // the weaker confidence and joins the texts.
    let editor = Editor::new(EditorConfig { merge_gap_ms: 100, ..EditorConfig::default() });
    let removals = vec![
        removal(1000, 1200, RemovalReason::Filler, "um", 900),
        removal(1250, 1400, RemovalReason::Filler, "uh", 800),
    ];
    let merged = editor.merge_removals(&removals);
    assert_eq!(merged.len(), 1);
    assert_eq!(merged[0].start, 1000);
    assert_eq!(merged[0].end, 1400);
    assert_eq!(merged[0].confidence, 800);
    assert_eq!(merged[0].text, "um ... uh");
}

#[test]
fn test_merge_keeps_separated_intervals() {
    let editor = Editor::new(EditorConfig::default());
    let removals = vec![
        removal(0, 200, RemovalReason::Filler, "a", 1000),
        removal(1000, 1200, RemovalReason::Repeat, "b", 900),
    ];
    let merged = editor.merge_removals(&removals);
    assert_eq!(merged.len(), 2);
    assert_eq!(merged[0].start, 0);
    assert_eq!(merged[1].start, 1000);
}

#[test]
fn test_merge_idempotent() {
    // Merging the merge's own output changes nothing.
    let editor = Editor::new(EditorConfig::default());
    let removals = vec![
        removal(500, 700, RemovalReason::Repeat, "b", 700),
        removal(0, 200, RemovalReason::Filler, "a", 900),
        removal(210, 400, RemovalReason::Filler, "c", 800),
        removal(395, 460, RemovalReason::LongPause, "d", 600),
    ];
    let once = editor.merge_removals(&removals);
    let twice = editor.merge_removals(&once);
    assert_eq!(once.len(), twice.len());
    for (x, y) in once.iter().zip(twice.iter()) {
        assert_eq!(x.start, y.start);
        assert_eq!(x.end, y.end);
        assert_eq!(x.text, y.text);
        assert_eq!(x.confidence, y.confidence);
    }
}

/// A one-second buffer at 1 kHz whose signal crosses zero at every sample.
fn alternating_audio(len: usize) -> AudioData {
    let mut samples = Vec::with_capacity(len);
    for i in 0..len {
        samples.push(if i % 2 == 0 { 1000 } else { -1000 });
    }
    AudioData { samples, sample_rate: 1000 }
}

#[test]
fn test_reconciliation_non_overlapping() {
    // Snapped cuts always have positive length, stay inside the buffer,
    // and never overlap.
    let editor = Editor::new(EditorConfig::default());
    let audio = alternating_audio(2000);
    let removals = vec![
        removal(100, 300, RemovalReason::Filler, "a", 900),
        removal(400, 600, RemovalReason::Repeat, "b", 800),
        removal(601, 800, RemovalReason::LongPause, "c", 700),
    ];
    let merged = editor.merge_removals(&removals);
    let plan = editor.adjust_to_zero_crossings(&audio, &merged);
    assert!(!plan.is_empty());
    let mut last_end = 0usize;
    for cut in plan.iter() {
        assert!(cut.start_sample < cut.end_sample);
        assert!(cut.end_sample < audio.samples.len());
        assert!(cut.start_sample >= last_end);
        last_end = cut.end_sample;
    }
}

#[test]
fn test_edit_removes_audio() {
    let editor = Editor::new(EditorConfig {
        crossfade_ms: 0,
        min_removal_ms: 100,
        merge_gap_ms: 50,
        zero_crossing_search_ms: 5,
    });
    let audio = alternating_audio(2000);
    let analysis = AnalysisResult {
        removals: vec![removal(500, 1000, RemovalReason::Filler, "um", 900)],
        original_duration: 2000,
        removed_duration: 500,
        statistics: Vec::new(),
    };
    let (edited, report) = editor.edit(&audio, &analysis, "in.wav", "out.wav");
    assert!(edited.samples.len() < audio.samples.len());
    assert!(report.edited_duration <= report.original_duration);
    assert_eq!(report.original_duration, 2000);
    assert_eq!(report.edits.len(), 1);
    assert_eq!(report.edits[0].original_start, 500);
    assert_eq!(report.edits[0].original_end, 1000);
    assert_eq!(report.edits[0].reason, "filler");
    assert_eq!(report.edits[0].text, "um");
    assert_eq!(report.input_path, "in.wav");
    assert_eq!(report.output_path, "out.wav");
}

#[test]
fn test_edit_empty_plan_keeps_audio() {
    // No usable removal: the output is an unchanged copy and the edit
    // list is empty.
    let editor = Editor::new(EditorConfig::default());
    let audio = alternating_audio(1000);
    let analysis = AnalysisResult {
        removals: Vec::new(),
        original_duration: 1000,
        removed_duration: 0,
        statistics: Vec::new(),
    };
    let (edited, report) = editor.edit(&audio, &analysis, "a", "b");
    assert_eq!(edited.samples, audio.samples);
    assert_eq!(report.edited_duration, report.original_duration);
    assert!(report.edits.is_empty());
}

#[test]
fn test_edit_filters_short_removals() {
    let editor = Editor::new(EditorConfig::default());
    let audio = alternating_audio(1000);
    let analysis = AnalysisResult {
        // 50 ms is below the 100 ms minimum.
        removals: vec![removal(100, 150, RemovalReason::Filler, "x", 900)],
        original_duration: 1000,
        removed_duration: 50,
        statistics: Vec::new(),
    };
    let (edited, report) = editor.edit(&audio, &analysis, "a", "b");
    assert_eq!(edited.samples, audio.samples);
    assert!(report.edits.is_empty());
}

#[test]
fn test_preview_matches_edit() {
    // The preview uses the same reconciliation as the edit: its rows name
    // the same cuts the report shows.
    let editor = Editor::new(EditorConfig::default());
    let audio = alternating_audio(2000);
    let analysis = AnalysisResult {
        removals: vec![
            removal(100, 300, RemovalReason::Filler, "a", 900),
            removal(320, 520, RemovalReason::Repeat, "b", 700),
        ],
        original_duration: 2000,
        removed_duration: 400,
        statistics: Vec::new(),
    };
    let rows = editor.preview(&audio, &analysis);
    let (_, report) = editor.edit(&audio, &analysis, "a", "b");
    assert_eq!(rows.len(), report.edits.len());
    for (row, edit) in rows.iter().zip(report.edits.iter()) {
        assert_eq!(row.original_start, edit.original_start);
        assert_eq!(row.original_end, edit.original_end);
        assert_eq!(row.reason, edit.reason);
        assert!(row.adjusted_start <= row.adjusted_end);
        assert_eq!(row.duration, row.adjusted_end - row.adjusted_start);
    }
    // The merged pair keeps the weaker confidence.
    assert_eq!(rows[0].confidence, 700);
}

#[test]
fn test_classify_audio_path() {
    assert!(matches!(AudioProcessor::classify_audio_path("a/b.wav"), AudioFormatKind::Wav));
    assert!(matches!(AudioProcessor::classify_audio_path("a/B.WAV"), AudioFormatKind::Wav));
    assert!(matches!(AudioProcessor::classify_audio_path("x.mp3"), AudioFormatKind::Compressed));
    assert!(matches!(AudioProcessor::classify_audio_path("x.flac"), AudioFormatKind::Compressed));
    match AudioProcessor::classify_audio_path("x.xyz") {
        AudioFormatKind::Unsupported(ext) => assert_eq!(ext, "xyz"),
        other => panic!("expected an unsupported extension, got {:?}", other),
    }
    assert!(matches!(
        AudioProcessor::classify_audio_path("noextension"),
        AudioFormatKind::NoExtension
    ));
}

#[test]
fn test_editor_config_default() {
    let c = EditorConfig::default();
    assert_eq!(c.crossfade_ms, 30);
    assert_eq!(c.min_removal_ms, 100);
    assert_eq!(c.merge_gap_ms, 50);
    assert_eq!(c.zero_crossing_search_ms, 5);
}

#[test]
fn test_apply_removals_whole_buffer() {
    // A plan covering the whole buffer yields a zero-sample output, not an
    // error, and still records the edit.
    let editor = Editor::new(EditorConfig::default());
    let audio = alternating_audio(1000);
    let plan = vec![SampleAlignedRemoval {
        start_sample: 0,
        end_sample: audio.samples.len(),
        removal: removal(0, 1000, RemovalReason::LongPause, "all of it", 1000),
    }];
    let (edited, edits) = editor.apply_removals(&audio, &plan);
    assert!(edited.samples.is_empty());
    assert_eq!(edited.sample_rate, audio.sample_rate);
    assert_eq!(edits.len(), 1);
    assert_eq!(edits[0].original_start, 0);
    assert_eq!(edits[0].original_end, 1000);
}

#[test]
fn test_edit_drops_reversed_interval() {
    // An interval whose end lies before its start never survives the
    // filter, even with no minimum length configured.
    let editor = Editor::new(EditorConfig { min_removal_ms: 0, ..EditorConfig::default() });
    let audio = alternating_audio(1000);
    let analysis = AnalysisResult {
        removals: vec![removal(500, 300, RemovalReason::Filler, "x", 900)],
        original_duration: 1000,
        removed_duration: 0,
        statistics: Vec::new(),
    };
    let (edited, report) = editor.edit(&audio, &analysis, "a", "b");
    assert_eq!(edited.samples, audio.samples);
    assert!(report.edits.is_empty());
}
