use std::path::PathBuf;

use panops_core::diar::SpeakerTurn;
use panops_core::merge::{merge_speaker_turns, merge_two_track};
use panops_core::notes::ir::Screenshot;
use panops_core::notes::screenshot_anchoring::anchor_screenshots;
use panops_core::notes::topic_segmentation::RawSection;
use panops_core::segment::Segment;
use panops_core::wer::{levenshtein, tokenize, wer_counts};

fn seg(start_ms: u64, end_ms: u64) -> Segment {
    Segment {
        start_ms,
        end_ms,
        text: String::new(),
        language_detected: None,
        confidence_bits: 1.0f32.to_bits(),
        is_partial: false,
        speaker_id: None,
    }
}

fn turn(start_ms: u64, end_ms: u64, speaker_id: u32) -> SpeakerTurn {
    SpeakerTurn { start_ms, end_ms, speaker_id }
}

#[test]
fn segment_fully_inside_one_turn() {
    let out = merge_speaker_turns(vec![seg(1_000, 2_000)], &[turn(0, 5_000, 7)]);
    assert_eq!(out[0].speaker_id, Some(7));
}

#[test]
fn segment_spans_two_turns_picks_dominant() {
    let out = merge_speaker_turns(vec![seg(0, 1_000)], &[turn(0, 600, 0), turn(600, 5_000, 1)]);
    assert_eq!(out[0].speaker_id, Some(0));
}

#[test]
fn equal_overlap_keeps_the_earlier_turn() {
    let out = merge_speaker_turns(vec![seg(0, 1_000)], &[turn(0, 500, 3), turn(500, 1_000, 4)]);
    assert_eq!(out[0].speaker_id, Some(3));
}

#[test]
fn segment_with_no_overlapping_turn_is_none() {
    let out = merge_speaker_turns(vec![seg(0, 1_000)], &[turn(2_000, 3_000, 0)]);
    assert_eq!(out[0].speaker_id, None);
}

#[test]
fn empty_turns_leaves_speaker_none() {
    let out = merge_speaker_turns(vec![seg(0, 1_000), seg(1_000, 2_000)], &[]);
    assert!(out.iter().all(|s| s.speaker_id.is_none()));
}

#[test]
fn mic_segments_pinned_to_local_speaker_zero() {
    let out = merge_two_track(vec![seg(0, 1_000), seg(1_000, 2_000)], vec![], &[]);
    assert!(out.iter().all(|s| s.speaker_id == Some(0)));
}

#[test]
fn system_turns_offset_past_local() {
    let system = vec![seg(0, 1_000), seg(1_000, 2_000)];
    let turns = vec![turn(0, 1_000, 0), turn(1_000, 2_000, 1)];
    let out = merge_two_track(vec![], system, &turns);
    assert_eq!(out[0].speaker_id, Some(1));
    assert_eq!(out[1].speaker_id, Some(2));
}

#[test]
fn merged_output_is_timestamp_ordered() {
    let mic = vec![seg(500, 1_500)];
    let system = vec![seg(0, 400), seg(2_000, 2_500)];
    let turns = vec![turn(0, 3_000, 0)];
    let out = merge_two_track(mic, system, &turns);
    let starts: Vec<u64> = out.iter().map(|s| s.start_ms).collect();
    assert_eq!(starts, vec![0, 500, 2_000]);
    assert_eq!(out[1].speaker_id, Some(0));
    assert_eq!(out[0].speaker_id, Some(1));
    assert_eq!(out[2].speaker_id, Some(1));
}

#[test]
fn merge_keeps_mic_first_on_equal_start() {
    let mut mic = seg(1_000, 2_000);
    mic.text = "mic".into();
    let mut sys = seg(1_000, 1_500);
    sys.text = "system".into();
    let out = merge_two_track(vec![mic], vec![sys], &[turn(0, 3_000, 0)]);
    assert_eq!(out[0].text, "mic");
    assert_eq!(out[1].text, "system");
}

/// The word error rate from the verified counts.
fn wer(reference: &str, hypothesis: &str) -> f32 {
    let c = wer_counts(reference, hypothesis);
    if c.reference_words == 0 {
        return if c.hypothesis_words == 0 { 0.0 } else { 1.0 };
    }
    c.edits as f32 / c.reference_words as f32
}

#[test]
fn identical_is_zero() {
    assert_eq!(wer("the quick brown fox", "the quick brown fox"), 0.0);
}

#[test]
fn punctuation_and_case_ignored() {
    assert_eq!(wer("The quick, brown fox.", "the QUICK brown fox"), 0.0);
}

#[test]
fn one_substitution() {
    let v = wer("the quick brown fox", "the quick brown dog");
    assert!((v - 0.25).abs() < 1e-6, "got {v}");
}

#[test]
fn empty_reference() {
    assert_eq!(wer("", ""), 0.0);
    assert_eq!(wer("", "anything"), 1.0);
}

#[test]
fn wer_counts_are_exact() {
    let c = wer_counts("a b c", "a x c d");
    assert_eq!(c.edits, 2);
    assert_eq!(c.reference_words, 3);
    assert_eq!(c.hypothesis_words, 4);
    assert_eq!(tokenize("Hello, WORLD! 42"), vec!["hello", "world", "42"]);
    let a: Vec<String> = vec!["x".into(), "y".into()];
    let b: Vec<String> = vec!["y".into(), "x".into()];
    assert_eq!(levenshtein(&a, &b), levenshtein(&b, &a));
    assert_eq!(levenshtein(&a, &a), 0);
}

#[test]
fn tokenize_splits_on_unicode_white_space() {
    assert_eq!(
        tokenize("Hello\u{00A0}World\u{3000}x\u{2009}Y\tz"),
        vec!["hello", "world", "x", "y", "z"]
    );
    assert_eq!(tokenize("\u{2028}\u{0085} , "), Vec::<String>::new());
}

#[test]
fn is_whitespace_agrees_with_std() {
    for u in 0u32..0x3100 {
        if let Some(c) = char::from_u32(u) {
            assert_eq!(panops_core::text::is_whitespace(c), c.is_whitespace(), "U+{u:04X}");
        }
    }
}

fn shot(ms: u64) -> Screenshot {
    Screenshot { ms_since_start: ms, path: PathBuf::from(format!("/tmp/{ms}.jpg")), caption: None }
}

fn raw(start: u64, end: u64) -> RawSection {
    RawSection { time_range_ms: (start, end), segment_indices: vec![] }
}

#[test]
fn screenshot_anchors_in_the_section_containing_its_timestamp() {
    let secs = vec![raw(0, 30_000), raw(30_000, 60_000)];
    let shots = vec![shot(15_000), shot(45_000)];
    let assigned = anchor_screenshots(&secs, &shots);
    assert_eq!(assigned.len(), 2);
    assert_eq!(assigned[0].len(), 1);
    assert_eq!(assigned[0][0].ms_since_start, 15_000);
    assert_eq!(assigned[1][0].ms_since_start, 45_000);
}

#[test]
fn screenshot_at_section_boundary_goes_to_later_section() {
    let secs = vec![raw(0, 30_000), raw(30_000, 60_000)];
    let assigned = anchor_screenshots(&secs, &[shot(30_000)]);
    assert_eq!(assigned[0].len(), 0);
    assert_eq!(assigned[1].len(), 1);
}

#[test]
fn screenshot_past_last_section_attaches_to_nearest() {
    let secs = vec![raw(0, 30_000), raw(30_000, 60_000)];
    let assigned = anchor_screenshots(&secs, &[shot(70_000)]);
    assert_eq!(assigned[1].len(), 1);
    assert_eq!(assigned[1][0].ms_since_start, 70_000);
}

#[test]
fn no_screenshots_yields_empty_per_section_lists() {
    let secs = vec![raw(0, 60_000)];
    let assigned = anchor_screenshots(&secs, &[]);
    assert_eq!(assigned, vec![Vec::<Screenshot>::new()]);
}

#[test]
fn screenshot_between_sections_ties_go_to_the_first() {
    // Midpoints 5_000 and 25_000; 15_000 is equally far from both.
    let secs = vec![raw(0, 10_000), raw(20_000, 30_000)];
    let assigned = anchor_screenshots(&secs, &[shot(15_000)]);
    assert_eq!(assigned[0].len(), 1);
    assert_eq!(assigned[1].len(), 0);
}

#[test]
fn no_sections_yields_no_lists() {
    let assigned = anchor_screenshots(&[], &[shot(1)]);
    assert!(assigned.is_empty());
}
