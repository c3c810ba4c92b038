use std::collections::HashSet;

use panops_core::notes::attribution::{verify_section_attribution, VerifierReport};
use panops_core::notes::ir::ActionItem;
use panops_core::notes::raw_transcript::render_raw_transcript;
use panops_core::notes::topic_segmentation::{
    is_speaker_shift_break, segment_topics, speaker_share, TopicSegmentationConfig,
};
use panops_core::segment::Segment;

fn seg(start: u64, end: u64, speaker: Option<u32>, text: &str) -> Segment {
    Segment {
        start_ms: start,
        end_ms: end,
        text: text.into(),
        language_detected: Some("en".into()),
        confidence_bits: 1.0f32.to_bits(),
        is_partial: false,
        speaker_id: speaker,
    }
}

#[test]
fn single_continuous_segment_yields_one_section() {
    let segs = vec![seg(0, 60_000, Some(0), "hello world")];
    let secs = segment_topics(&segs, &TopicSegmentationConfig::default());
    assert_eq!(secs.len(), 1);
    assert_eq!(secs[0].time_range_ms, (0, 60_000));
    assert_eq!(secs[0].segment_indices, vec![0]);
}

#[test]
fn silence_gap_above_threshold_opens_new_section() {
    let segs = vec![seg(0, 20_000, Some(0), "a"), seg(30_000, 60_000, Some(0), "b")];
    let secs = segment_topics(&segs, &TopicSegmentationConfig::default());
    assert_eq!(secs.len(), 2);
    assert_eq!(secs[0].time_range_ms, (0, 20_000));
    assert_eq!(secs[1].time_range_ms, (30_000, 60_000));
}

#[test]
fn silence_gap_below_threshold_keeps_one_section() {
    let segs = vec![seg(0, 20_000, Some(0), "a"), seg(22_000, 40_000, Some(0), "b")];
    let secs = segment_topics(&segs, &TopicSegmentationConfig::default());
    assert_eq!(secs.len(), 1);
    assert_eq!(secs[0].time_range_ms, (0, 40_000));
}

#[test]
fn small_section_below_min_length_merges_with_previous() {
    let cfg = TopicSegmentationConfig {
        topic_gap_ms: 1000,
        min_section_ms: 30_000,
        speaker_shift_threshold_ppm: 100_000,
    };
    let segs = vec![seg(0, 30_000, Some(0), "long"), seg(35_000, 38_000, Some(0), "short")];
    let secs = segment_topics(&segs, &cfg);
    assert_eq!(secs.len(), 1);
    assert_eq!(secs[0].time_range_ms, (0, 38_000));
}

#[test]
fn empty_input_yields_empty_sections() {
    let segs: Vec<Segment> = vec![];
    let secs = segment_topics(&segs, &TopicSegmentationConfig::default());
    assert!(secs.is_empty());
}

#[test]
fn speaker_shift_below_threshold_opens_new_section() {
    let cfg = TopicSegmentationConfig {
        topic_gap_ms: 8000,
        min_section_ms: 1,
        speaker_shift_threshold_ppm: 100_000,
    };
    let segs = vec![seg(0, 30_000, Some(0), "a one"), seg(30_500, 35_000, Some(1), "b new")];
    let secs = segment_topics(&segs, &cfg);
    assert_eq!(secs.len(), 2);
    assert_eq!(secs[0].time_range_ms, (0, 30_000));
    assert_eq!(secs[1].time_range_ms, (30_500, 35_000));
}

#[test]
fn threshold_zero_disables_speaker_shift_breaks() {
    let cfg = TopicSegmentationConfig { topic_gap_ms: 8000, min_section_ms: 1, speaker_shift_threshold_ppm: 0 };
    let segs = vec![
        seg(0, 16_000, Some(0), "a"),
        seg(16_500, 19_500, Some(1), "b"),
        seg(20_000, 25_000, Some(0), "a back"),
    ];
    let secs = segment_topics(&segs, &cfg);
    assert_eq!(secs.len(), 1, "threshold=0 should disable speaker-shift");
    assert_eq!(secs[0].time_range_ms, (0, 25_000));
}

#[test]
fn gap_and_speaker_shift_yield_single_break() {
    let segs = vec![seg(0, 20_000, Some(0), "a"), seg(40_000, 70_000, Some(1), "b")];
    let secs = segment_topics(&segs, &TopicSegmentationConfig::default());
    assert_eq!(secs.len(), 2);
    assert_eq!(secs[0].time_range_ms, (0, 20_000));
    assert_eq!(secs[1].time_range_ms, (40_000, 70_000));
}

#[test]
fn min_section_merge_after_speaker_break_folds_short_section() {
    let segs = vec![seg(0, 30_000, Some(0), "a long"), seg(30_500, 35_500, Some(1), "b sliver")];
    let secs = segment_topics(&segs, &TopicSegmentationConfig::default());
    assert_eq!(secs.len(), 1, "5s sliver should merge back into prior 30s");
    assert_eq!(secs[0].time_range_ms, (0, 35_500));
}

#[test]
fn share_exactly_at_threshold_does_not_break() {
    let segs = vec![seg(0, 9_000, Some(0), "a"), seg(9_000, 10_000, Some(1), "b")];
    let indices = vec![0, 1];
    let (who, total) = speaker_share(&segs, &indices, 1);
    let share = who as f32 / total as f32;
    assert!((share - 0.10).abs() < 1e-6, "expected ~0.10, got {share}");
    assert!(!is_speaker_shift_break(&segs, &indices, Some(1), 100_000));
    assert!(is_speaker_shift_break(&segs, &indices, Some(1), 110_000));
}

#[test]
fn no_speaker_break_when_segment_has_no_speaker_id() {
    let segs = vec![seg(0, 30_000, Some(0), "a"), seg(30_500, 35_000, None, "no-speaker")];
    let cfg = TopicSegmentationConfig {
        topic_gap_ms: 8000,
        min_section_ms: 1,
        speaker_shift_threshold_ppm: 100_000,
    };
    let secs = segment_topics(&segs, &cfg);
    assert_eq!(secs.len(), 1, "None speaker shouldn't open a new section");
}

#[test]
fn sections_cover_every_segment_once_in_order() {
    let segs = vec![
        seg(0, 10_000, Some(0), "a"),
        seg(20_000, 50_000, Some(0), "b"),
        seg(50_500, 52_000, Some(1), "c"),
        seg(70_000, 110_000, Some(1), "d"),
    ];
    let secs = segment_topics(&segs, &TopicSegmentationConfig::default());
    let all: Vec<usize> = secs.iter().flat_map(|s| s.segment_indices.clone()).collect();
    assert_eq!(all, vec![0, 1, 2, 3]);
}

fn allowed(ids: &[u32]) -> HashSet<u32> {
    ids.iter().copied().collect()
}

fn item(desc: &str, owner: Option<&str>) -> ActionItem {
    ActionItem { description: desc.to_string(), owner: owner.map(String::from), due: None }
}

#[test]
fn ok_when_only_allowed_speakers_appear() {
    let narrative = "**speaker_0:** opened. **speaker_1:** asked.";
    let items = vec![item("draft", Some("speaker_1")), item("review", None)];
    assert_eq!(verify_section_attribution(narrative, &items, &allowed(&[0, 1])), VerifierReport::AllAllowed);
}

#[test]
fn flags_disallowed_speaker_in_narrative() {
    let narrative = "**speaker_99:** said something they did not say.";
    match verify_section_attribution(narrative, &[], &allowed(&[0, 1])) {
        VerifierReport::DisallowedSpeakers(s) => {
            assert!(s.contains(&99));
            assert_eq!(s.len(), 1);
        }
        VerifierReport::AllAllowed => panic!("expected violation"),
    }
}

#[test]
fn flags_disallowed_owner_in_action_item() {
    let items = vec![item("ship", Some("speaker_42"))];
    match verify_section_attribution("benign body", &items, &allowed(&[0, 1])) {
        VerifierReport::DisallowedSpeakers(s) => assert!(s.contains(&42)),
        VerifierReport::AllAllowed => panic!("expected violation"),
    }
}

#[test]
fn passes_through_non_id_owner_strings() {
    let items = vec![item("draft", Some("Alex"))];
    assert_eq!(verify_section_attribution("clean body", &items, &allowed(&[0])), VerifierReport::AllAllowed);
}

#[test]
fn passive_voice_with_no_speaker_prefix_passes() {
    let narrative = "The agenda was reviewed and the team agreed on next steps.";
    assert_eq!(verify_section_attribution(narrative, &[], &allowed(&[0])), VerifierReport::AllAllowed);
}

#[test]
fn collects_multiple_disallowed_speakers() {
    let narrative = "speaker_99 and speaker_88 both spoke; speaker_0 nodded.";
    match verify_section_attribution(narrative, &[], &allowed(&[0])) {
        VerifierReport::DisallowedSpeakers(s) => {
            assert!(s.contains(&88));
            assert!(s.contains(&99));
            assert!(!s.contains(&0));
        }
        VerifierReport::AllAllowed => panic!("expected violations"),
    }
}

#[test]
fn ignores_non_digit_suffix_after_speaker_prefix() {
    let narrative = "speaker_? unknown citation; speaker_0 was clear.";
    assert_eq!(verify_section_attribution(narrative, &[], &allowed(&[0])), VerifierReport::AllAllowed);
}

#[test]
fn word_boundary_skips_substring_matches() {
    let narrative = "thespeaker_99 ate the notaspeaker_42 cake. speaker_0 saw it.";
    assert_eq!(verify_section_attribution(narrative, &[], &allowed(&[0])), VerifierReport::AllAllowed);
}

#[test]
fn owner_with_surrounding_whitespace_is_checked() {
    let items = vec![item("ship", Some("  speaker_7 "))];
    match verify_section_attribution("", &items, &allowed(&[0])) {
        VerifierReport::DisallowedSpeakers(s) => assert!(s.contains(&7)),
        VerifierReport::AllAllowed => panic!("expected violation"),
    }
}

fn fixture_segments() -> Vec<Segment> {
    vec![
        Segment {
            start_ms: 0,
            end_ms: 4_500,
            text: "Hello, everyone.".into(),
            language_detected: Some("en".into()),
            confidence_bits: 0.95f32.to_bits(),
            is_partial: false,
            speaker_id: Some(0),
        },
        Segment {
            start_ms: 4_500,
            end_ms: 9_200,
            text: "  Hola a todos.  ".into(),
            language_detected: Some("es".into()),
            confidence_bits: 0.91f32.to_bits(),
            is_partial: false,
            speaker_id: Some(1),
        },
        Segment {
            start_ms: 65_000,
            end_ms: 70_000,
            text: "Crosses a\nline break.".into(),
            language_detected: None,
            confidence_bits: 0.5f32.to_bits(),
            is_partial: false,
            speaker_id: None,
        },
    ]
}

const EXPECTED: &str = "\
[0:00.000-0:04.500] speaker_0 (en): Hello, everyone.
[0:04.500-0:09.200] speaker_1 (es): Hola a todos.
[1:05.000-1:10.000] unknown (und): Crosses a line break.
";

#[test]
fn render_emits_one_line_per_segment_with_all_fields() {
    assert_eq!(render_raw_transcript(&fixture_segments()), EXPECTED);
}

#[test]
fn render_empty_transcript_is_empty_string() {
    assert_eq!(render_raw_transcript(&[]), "");
}

#[test]
fn render_long_timestamps_keep_every_millisecond() {
    let mut s = fixture_segments().remove(0);
    s.start_ms = 3_723_004;
    s.end_ms = 3_723_010;
    assert!(render_raw_transcript(&[s]).starts_with("[62:03.004-62:03.010]"));
}
