//! Tests of the report exporters: JSON, EDL, markers, statistics and
//! timecodes.

use reclip::exporter::{Exporter, MarkerFormat};
use reclip::types::{AppliedEdit, EditReport};

fn edit(start: u64, end: u64, reason: &str, text: &str) -> AppliedEdit {
    AppliedEdit {
        original_start: start,
        original_end: end,
        reason: reason.to_string(),
        text: text.to_string(),
    }
}

fn sample_report() -> EditReport {
    EditReport {
        input_path: "in.wav".to_string(),
        output_path: "out.wav".to_string(),
        original_duration: 10_000,
        edited_duration: 8_000,
        edits: vec![edit(2_000, 4_000, "filler", "um")],
    }
}

#[test]
fn test_keep_regions_example() {
    // A ten-second report with one edit from 2 s to 4 s keeps two
    // regions.
    let regions = Exporter::compute_keep_regions(&sample_report());
    assert_eq!(regions, vec![(0, 2_000), (4_000, 10_000)]);
}

#[test]
fn test_keep_regions_no_edits() {
    let report = EditReport { edits: Vec::new(), ..sample_report() };
    let regions = Exporter::compute_keep_regions(&report);
    assert_eq!(regions, vec![(0, 10_000)]);
}

#[test]
fn test_keep_regions_sorts_edits() {
    let report = EditReport {
        edits: vec![edit(6_000, 7_000, "repeat", "b"), edit(1_000, 2_000, "filler", "a")],
        ..sample_report()
    };
    let regions = Exporter::compute_keep_regions(&report);
    assert_eq!(regions, vec![(0, 1_000), (2_000, 6_000), (7_000, 10_000)]);
}

#[test]
fn test_timecode_rendering() {
    assert_eq!(Exporter::seconds_to_timecode(0, 30), "00:00:00:00");
    assert_eq!(Exporter::seconds_to_timecode(2_000, 30), "00:00:02:00");
    assert_eq!(Exporter::seconds_to_timecode(10_000, 30), "00:00:10:00");
    // 3661.5 s at 30 fps: one hour, one minute, one second, 15 frames.
    assert_eq!(Exporter::seconds_to_timecode(3_661_500, 30), "01:01:01:15");
}

#[test]
fn test_timecode_truncates() {
    // 1.999 s at 30 fps is 59.97 frames: truncation, not rounding.
    assert_eq!(Exporter::seconds_to_timecode(1_999, 30), "00:00:01:29");
}

#[test]
fn test_edl_example() {
    // Two kept events: sources [0, 2 s) and [4 s, 10 s), record timeline
    // [0, 2 s) then [2 s, 8 s).
    let edl = Exporter::to_edl(&sample_report(), 30, None);
    let expected = "TITLE: in\nFCM: NON-DROP FRAME\n\n\
001  AX       AA/V  C        00:00:00:00 00:00:02:00 00:00:00:00 00:00:02:00\n\
* FROM CLIP NAME: in.wav\n\n\
002  AX       AA/V  C        00:00:04:00 00:00:10:00 00:00:02:00 00:00:08:00\n\
* FROM CLIP NAME: in.wav\n\n";
    assert_eq!(edl, expected);
}

#[test]
fn test_edl_custom_title() {
    let edl = Exporter::to_edl(&sample_report(), 30, Some("My Cut"));
    assert!(edl.starts_with("TITLE: My Cut\nFCM: NON-DROP FRAME\n\n"));
}

#[test]
fn test_markers_csv() {
    let report = EditReport {
        edits: vec![edit(2_000, 4_000, "filler", "um, you know")],
        ..sample_report()
    };
    let csv = Exporter::to_markers(&report, MarkerFormat::Csv);
    assert_eq!(csv, "start,end,label,reason\n2.000,4.000,\"um; you know\",filler");
}

#[test]
fn test_markers_audacity() {
    let markers = Exporter::to_markers(&sample_report(), MarkerFormat::Audacity);
    assert_eq!(markers, "2.000000\t4.000000\t[filler] um");
}

#[test]
fn test_statistics_groups_by_reason() {
    let report = EditReport {
        edits: vec![
            edit(0, 1_000, "filler", "a"),
            edit(2_000, 2_500, "repeat", "b"),
            edit(3_000, 3_200, "filler", "c"),
        ],
        original_duration: 10_000,
        edited_duration: 8_300,
        ..sample_report()
    };
    let stats = Exporter::statistics(&report);
    assert_eq!(stats.len(), 2);
    assert_eq!(stats[0].reason, "filler");
    assert_eq!(stats[0].count, 2);
    assert_eq!(stats[0].duration, 1_200);
    assert_eq!(stats[1].reason, "repeat");
    assert_eq!(stats[1].count, 1);
    assert_eq!(stats[1].duration, 500);
    // The grouped durations sum to the total removed duration.
    let total: u64 = stats.iter().map(|s| s.duration).sum();
    assert_eq!(total, 1_700);
}

#[test]
fn test_json_rendering() {
    let json = Exporter::render_json(&sample_report(), "2024-01-01T00:00:00+00:00", false);
    let expected = "{\"version\":\"1.0\",\
\"generated_at\":\"2024-01-01T00:00:00+00:00\",\
\"input\":\"in.wav\",\
\"output\":\"out.wav\",\
\"original_duration\":10.000,\
\"edited_duration\":8.000,\
\"removed_duration\":2.000,\
\"reduction_percent\":20.00,\
\"edit_count\":1,\
\"edits\":[{\"original_start\":2.000,\"original_end\":4.000,\"reason\":\"filler\",\"text\":\"um\"}],\
\"statistics\":{\"by_reason\":{\"filler\":{\"count\":1,\"duration\":2.000}},\"total_removed_duration\":2.000}}";
    assert_eq!(json, expected);
}

#[test]
fn test_json_escapes_text() {
    let report = EditReport {
        edits: vec![edit(0, 100, "filler", "a\"b\\c\nd")],
        ..sample_report()
    };
    let json = Exporter::render_json(&report, "ts", false);
    assert!(json.contains("\"text\":\"a\\\"b\\\\c\\nd\""));
}

#[test]
fn test_json_pretty_layout() {
    let json = Exporter::render_json(&sample_report(), "ts", true);
    assert!(json.starts_with("{\n  \"version\":\"1.0\",\n  \"generated_at\""));
    assert!(json.ends_with("\n}"));
}

#[test]
fn test_to_json_stamps_generation_time() {
    let json = Exporter::to_json(&sample_report(), false);
    assert!(json.starts_with("{\"version\":\"1.0\",\"generated_at\":\""));
    assert!(json.contains("\"input\":\"in.wav\""));
}

#[test]
fn test_keep_regions_merges_nested_edits() {
    // A nested edit never opens a kept region inside the outer one: the
    // regions are the complement of the union of the edits.
    let report = EditReport {
        edits: vec![edit(0, 10_000, "filler", "a"), edit(2_000, 3_000, "repeat", "b")],
        original_duration: 20_000,
        edited_duration: 10_000,
        ..sample_report()
    };
    let regions = Exporter::compute_keep_regions(&report);
    assert_eq!(regions, vec![(10_000, 20_000)]);
}

#[test]
fn test_keep_regions_nested_then_disjoint() {
    let report = EditReport {
        edits: vec![
            edit(0, 10_000, "filler", "a"),
            edit(2_000, 3_000, "repeat", "b"),
            edit(12_000, 13_000, "filler", "c"),
        ],
        original_duration: 20_000,
        edited_duration: 9_000,
        ..sample_report()
    };
    let regions = Exporter::compute_keep_regions(&report);
    assert_eq!(regions, vec![(10_000, 12_000), (13_000, 20_000)]);
}

#[test]
fn test_keep_regions_overlapping_edits() {
    let report = EditReport {
        edits: vec![edit(1_000, 5_000, "filler", "a"), edit(4_000, 6_000, "repeat", "b")],
        original_duration: 10_000,
        edited_duration: 5_000,
        ..sample_report()
    };
    let regions = Exporter::compute_keep_regions(&report);
    assert_eq!(regions, vec![(0, 1_000), (6_000, 10_000)]);
}
