use std::path::PathBuf;

use panops_core::asr::AsrError;
use panops_core::conformance::fakes::{
    canned_transcript, fake_export_body, infer_language, language_for_stem, regions_from_frames, vad_frame_samples,
    LowConfidenceAsr, TranscriptFileFake,
};
use panops_core::notes::dialect::MarkdownDialect;
use panops_core::notes::ir::{CalendarDate, NotesFrontmatter, NotesSection, OffsetDateTime, StructuredNotes};
use panops_core::segment::{Segment, Transcript};
use panops_core::vad::{SpeechRegion, VadError};

fn transcript(text: &str) -> Transcript {
    Transcript {
        schema_version: Transcript::SCHEMA_VERSION,
        model: "m".into(),
        audio_path: PathBuf::from("a.wav"),
        audio_duration_ms: 0,
        diarized: false,
        segments: vec![Segment {
            start_ms: 5,
            end_ms: 6,
            text: text.into(),
            language_detected: Some("en".into()),
            confidence_bits: 0.2f32.to_bits(),
            is_partial: false,
            speaker_id: None,
        }],
    }
}

#[test]
fn transcript_file_fake_spans_the_samples() {
    let fake = TranscriptFileFake::from_text("hello", Some("en"));
    let t = fake.transcribe_samples(32_000, 16_000).unwrap();
    assert_eq!(t.audio_duration_ms, 2_000);
    assert_eq!(t.segments[0].start_ms, 0);
    assert_eq!(t.segments[0].end_ms, 2_000);
    assert_eq!(t.segments[0].text, "hello");
    assert_eq!(t.segments[0].language_detected.as_deref(), Some("en"));
    assert_eq!(f32::from_bits(t.segments[0].confidence_bits), 1.0);
    assert_eq!(t.model, "transcript-file-fake");
}

#[test]
fn transcript_file_fake_rejects_other_rates() {
    let fake = TranscriptFileFake::default();
    match fake.transcribe_samples(100, 8_000) {
        Err(AsrError::InvalidAudio(m)) => assert_eq!(m, "expected 16 kHz, got 8000 Hz"),
        other => panic!("expected InvalidAudio, got {other:?}"),
    }
    let canned = TranscriptFileFake::with_canned(transcript("x"));
    assert_eq!(canned.transcribe_samples(8_000, 16_000).unwrap().audio_path, PathBuf::from("a.wav"));
}

#[test]
fn low_confidence_asr_cycles_and_fails_on_demand() {
    let mut asr = LowConfidenceAsr::with_responses(vec![transcript("first"), transcript("second")]).with_error_after(3);
    assert_eq!(asr.next_transcript().unwrap().segments[0].text, "first");
    assert_eq!(asr.next_transcript().unwrap().segments[0].text, "second");
    assert_eq!(asr.next_transcript().unwrap().segments[0].text, "second");
    match asr.next_transcript() {
        Err(AsrError::Transcription(m)) => assert_eq!(m, "LowConfidenceAsr injected error at call 3"),
        other => panic!("expected an injected error, got {other:?}"),
    }
    assert_eq!(asr.call_count(), 4);
}

#[test]
fn fixture_stems_imply_languages() {
    assert_eq!(language_for_stem("en_30s").as_deref(), Some("en"));
    assert_eq!(language_for_stem("es_30s").as_deref(), Some("es"));
    assert_eq!(language_for_stem("mixed_60s").as_deref(), Some("en"));
    assert_eq!(language_for_stem("multi_speaker_60s").as_deref(), Some("en"));
    assert_eq!(language_for_stem("fr_30s"), None);
    assert_eq!(infer_language(&PathBuf::from("/fixtures/audio/es_30s.wav")).as_deref(), Some("es"));
    assert_eq!(infer_language(&PathBuf::from("/")), None);
}

#[test]
fn known_regions_fake_passes_conformance() {
    // The fake's frame logic on the suite's inputs: 1 s silence, 2 s tone,
    // 2 s silence in 100 ms frames, and the checks the suite makes.
    let frame_samples = vad_frame_samples(16_000, 100).unwrap();
    assert_eq!(frame_samples, 1_600);
    let mut speech = vec![false; 10];
    speech.extend(vec![true; 20]);
    speech.extend(vec![false; 20]);
    let regions = regions_from_frames(&speech, 100, 5 * 16_000);
    assert_eq!(regions, vec![SpeechRegion { start_ms: 1_000, end_ms: 3_000 }]);
    // Two bursts: sorted, non-overlapping.
    let burst = [vec![true; 5], vec![false; 5], vec![true; 5]].concat();
    let regions = regions_from_frames(&burst, 100, 24_000);
    assert_eq!(
        regions,
        vec![SpeechRegion { start_ms: 0, end_ms: 500 }, SpeechRegion { start_ms: 1_000, end_ms: 1_500 }]
    );
    assert!(regions.windows(2).all(|w| w[0].end_ms <= w[1].start_ms));
    // 8 kHz is refused; silence yields nothing.
    assert!(matches!(vad_frame_samples(8_000, 100), Err(VadError::InvalidAudio(_))));
    assert!(regions_from_frames(&[false; 30], 100, 48_000).is_empty());
}

#[test]
fn vad_frame_checks_name_the_problem() {
    match vad_frame_samples(8_000, 100) {
        Err(VadError::InvalidAudio(m)) => assert_eq!(m, "expected 16 kHz, got 8000 Hz"),
        other => panic!("unexpected {other:?}"),
    }
    match vad_frame_samples(16_000, 0) {
        Err(VadError::InvalidAudio(m)) => assert_eq!(m, "frame_ms produces zero samples per frame"),
        other => panic!("unexpected {other:?}"),
    }
    // A trailing region runs to the end of the samples.
    let r = regions_from_frames(&[false, true, true], 100, 4_000);
    assert_eq!(r, vec![SpeechRegion { start_ms: 100, end_ms: 250 }]);
    // Speech only in a partial last frame that starts where the samples end
    // gives no empty region.
    assert!(regions_from_frames(&[false, true], 100, 1_601).is_empty());
    let r = regions_from_frames(&[false, true], 100, 1_700);
    assert_eq!(r, vec![SpeechRegion { start_ms: 100, end_ms: 106 }]);
}

fn sample_notes() -> StructuredNotes {
    StructuredNotes {
        schema_version: StructuredNotes::SCHEMA_VERSION,
        frontmatter: NotesFrontmatter {
            title: "Weekly sync".into(),
            date: CalendarDate { year: 2026, month: 5, day: 1 },
            started_at: OffsetDateTime {
                date: CalendarDate { year: 2026, month: 5, day: 1 },
                hour: 10,
                minute: 0,
                second: 0,
                nanosecond: 0,
                offset_seconds: 0,
            },
            duration_ms: 60_000,
            speakers: vec![],
            languages: vec!["en".into()],
            tags: vec![],
            template: "default".into(),
            dialect: MarkdownDialect::Basic,
            panops_version: "0.1.0".into(),
            source_audio: None,
        },
        sections: vec![NotesSection {
            index: 1,
            title: "Intro".into(),
            time_range_ms: (0, 60_000),
            narrative_md: "Hello".into(),
            key_points: vec![],
            action_items: vec![],
            screenshots: vec![],
        }],
        language: "en".into(),
        generated_at: "2026-05-01T10:01:00+00:00".into(),
    }
}

#[test]
fn fake_export_body_names_title_and_section_count() {
    assert_eq!(fake_export_body(&sample_notes()), "title: Weekly sync\nsections: 1\n");
}

#[test]
fn canned_transcript_trims_and_infers_language() {
    let t = canned_transcript("  hola a todos\n", PathBuf::from("/fixtures/audio/es_30s.wav"));
    assert_eq!(t.segments.len(), 1);
    assert_eq!(t.segments[0].text, "hola a todos");
    assert_eq!(t.segments[0].language_detected.as_deref(), Some("es"));
    assert_eq!(t.audio_path, PathBuf::from("/fixtures/audio/es_30s.wav"));
    assert_eq!(f32::from_bits(t.segments[0].confidence_bits), 1.0);
}

#[test]
fn fake_passes_exporter_conformance() {
    // The exporter suite's sample notes: the fake's primary file body is
    // non-empty and names the title and the section count.
    let mut notes = sample_notes();
    notes.frontmatter.title = "Conformance sample".into();
    let body = fake_export_body(&notes);
    assert!(!body.is_empty(), "primary_file should be non-empty");
    assert_eq!(body, "title: Conformance sample\nsections: 1\n");
}
