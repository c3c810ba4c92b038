use std::path::PathBuf;

use panops_core::asr::AsrError;
use panops_core::clock::{now_rfc3339, timestamp_or_epoch};
use panops_core::diar::DiarError;
use panops_core::capture::{AudioSources, CaptureError, CaptureResult, CaptureTarget};
use panops_core::exporter::{ExportArtifact, ExportError};
use panops_core::llm::{JsonValue, LlmError, LlmResponse};
use panops_core::meeting_store::{MeetingStoreError, ScreenshotDraft, SegmentDraft, SpeakerDraft};
use panops_core::notes::dialect::MarkdownDialect;
use panops_core::notes::error::NotesError;
use panops_core::notes::ir::StructuredNotes;
use panops_core::storage::{MeetingDraft, StorageError};
use panops_core::vad::{SpeechRegion, VadError};

#[test]
fn capture_target_default_is_display() {
    assert_eq!(CaptureTarget::default(), CaptureTarget::Display { display_id: 0 });
}

#[test]
fn capture_target_variants_construct() {
    let _ = CaptureTarget::Display { display_id: 0 };
    let _ = CaptureTarget::Window { window_id: 9 };
    let _ = CaptureTarget::App { bundle_id: "com.apple.Safari".into() };
    let _ = CaptureTarget::Region { display_id: 0, x: 10, y: 20, w: 640, h: 480 };
}

#[test]
fn capture_target_default_is_primary_display() {
    assert_eq!(CaptureTarget::default(), CaptureTarget::Display { display_id: 0 });
}

#[test]
fn audio_sources_equality() {
    assert_eq!(AudioSources::SystemOnly, AudioSources::SystemOnly);
    assert_ne!(AudioSources::SystemOnly, AudioSources::MicOnly);
    assert_ne!(AudioSources::MicOnly, AudioSources::SystemAndMic);
}

#[test]
fn audio_sources_tracks_wanted() {
    assert!(AudioSources::SystemOnly.wants_system());
    assert!(!AudioSources::SystemOnly.wants_mic());
    assert!(!AudioSources::MicOnly.wants_system());
    assert!(AudioSources::MicOnly.wants_mic());
    assert!(AudioSources::SystemAndMic.wants_system());
    assert!(AudioSources::SystemAndMic.wants_mic());
}

#[test]
fn capture_result_paths() {
    let r = CaptureResult {
        system_audio_path: Some(PathBuf::from("/tmp/system.wav")),
        mic_audio_path: Some(PathBuf::from("/tmp/mic.wav")),
        screenshot_paths: vec![
            PathBuf::from("/tmp/screenshots/001.jpg"),
            PathBuf::from("/tmp/screenshots/002.jpg"),
        ],
        duration_ms: 60_000,
    };
    assert_eq!(r.system_audio_path.as_deref().unwrap().display().to_string(), "/tmp/system.wav");
    assert_eq!(r.mic_audio_path.as_deref().unwrap().display().to_string(), "/tmp/mic.wav");
    assert_eq!(r.screenshot_paths.len(), 2);
}

#[test]
fn capture_result_allows_single_track() {
    let r = CaptureResult {
        system_audio_path: Some(PathBuf::from("/tmp/system.wav")),
        mic_audio_path: None,
        screenshot_paths: vec![],
        duration_ms: 1_000,
    };
    assert!(r.system_audio_path.is_some());
    assert!(r.mic_audio_path.is_none());
}

#[test]
fn capture_error_display() {
    let e = CaptureError::PermissionDenied("microphone".into());
    assert!(e.message().contains("permission denied"));
    let e = CaptureError::Capture("device busy".into());
    assert!(e.message().contains("capture failed"));
    let e = CaptureError::Sidecar("process exited".into());
    assert!(e.message().contains("sidecar error"));
}

#[test]
fn capture_error_messages_are_exact() {
    assert_eq!(CaptureError::PermissionDenied("microphone".into()).message(), "permission denied: microphone");
    assert_eq!(CaptureError::Capture("device busy".into()).message(), "capture failed: device busy");
    assert_eq!(CaptureError::Sidecar("exited".into()).message(), "sidecar error: exited");
    assert_eq!(CaptureError::SessionNotFound("m1".into()).message(), "session not found: m1");
    assert_eq!(CaptureError::InvalidConfig("w".into()).message(), "invalid config: w");
    assert_eq!(CaptureError::Io(std::io::Error::other("disk full")).message(), "io error: disk full");
}

#[test]
fn capture_error_io_from() {
    let io = std::io::Error::other("disk full");
    let e: CaptureError = io.into();
    assert!(matches!(e, CaptureError::Io(..)));
}

#[test]
fn export_error_display_includes_variant_name() {
    let e = ExportError::Io(std::io::Error::other("disk full"));
    assert!(e.message().contains("io"));
}

#[test]
fn export_error_messages_are_exact() {
    assert_eq!(ExportError::Io(std::io::Error::other("disk full")).message(), "io: disk full");
    assert_eq!(ExportError::InvalidDest("/x".into()).message(), "invalid destination: /x");
    assert_eq!(ExportError::Render("bad".into()).message(), "render: bad");
}

#[test]
fn export_artifact_can_be_constructed() {
    let a = ExportArtifact {
        primary_file: PathBuf::from("/tmp/notes.md"),
        assets: vec![PathBuf::from("/tmp/screenshots/1.jpg")],
    };
    assert_eq!(a.assets.len(), 1);
}

#[test]
fn llm_error_display_includes_variant_name() {
    let e = LlmError::Network("timeout".into());
    assert!(e.message().contains("network"));
}

#[test]
fn llm_error_messages_are_exact() {
    assert_eq!(LlmError::Network("timeout".into()).message(), "network: timeout");
    assert_eq!(
        LlmError::InvalidSchema { expected: "object".into(), got: "array".into() }.message(),
        "invalid schema: expected object, got array"
    );
    assert_eq!(LlmError::EmptyResponse.message(), "empty response");
    assert_eq!(LlmError::Provider("down".into()).message(), "provider: down");
    assert_eq!(LlmError::Cancelled.message(), "cancelled");
}

#[test]
fn llm_response_text_and_json_are_distinguishable() {
    let t = LlmResponse::Text("hi".into());
    let j = LlmResponse::Json(JsonValue::Object(vec![("k".into(), JsonValue::String("v".into()))]));
    assert!(matches!(t, LlmResponse::Text(_)));
    assert!(matches!(j, LlmResponse::Json(_)));
}

#[test]
fn screenshot_draft_can_be_constructed() {
    let d = ScreenshotDraft {
        meeting_id: "m1".into(),
        timestamp_ms: 5000,
        path: "/tmp/screenshots/001.jpg".into(),
        feature_print: None,
        caption: None,
    };
    assert_eq!(d.meeting_id, "m1");
    assert_eq!(d.timestamp_ms, 5000);
}

#[test]
fn segment_draft_can_be_constructed() {
    let d = SegmentDraft {
        meeting_id: "m1".into(),
        start_ms: 0,
        end_ms: 1000,
        text: "hello".into(),
        language: Some("en".into()),
        confidence_bits: Some(0.9f32.to_bits()),
        speaker_id: None,
        source: "post_pass".into(),
    };
    assert_eq!(d.meeting_id, "m1");
    assert_eq!(d.text, "hello");
}

#[test]
fn speaker_draft_can_be_constructed() {
    let d = SpeakerDraft { meeting_id: "m1".into(), label: "Speaker A".into(), embedding: None };
    assert_eq!(d.meeting_id, "m1");
    assert_eq!(d.label, "Speaker A");
}

#[test]
fn meeting_store_error_display_includes_context() {
    let e = MeetingStoreError::MeetingNotFound { meeting_id: "abc".into() };
    assert!(e.message().contains("abc"));
    let e = MeetingStoreError::SegmentNotFound { id: 42 };
    assert!(e.message().contains("42"));
}

#[test]
fn meeting_store_error_negative_id_is_rendered_with_sign() {
    let e = MeetingStoreError::SpeakerNotFound { id: -7 };
    assert!(e.message().contains("-7"));
}

#[test]
fn meeting_store_error_io_via_from() {
    let io = std::io::Error::other("disk full");
    let e: MeetingStoreError = io.into();
    assert!(matches!(e, MeetingStoreError::Io(..)));
}

#[test]
fn meeting_store_error_sql_helper() {
    let e = MeetingStoreError::sql("locked");
    assert!(matches!(e, MeetingStoreError::Sql { ref message } if message == "locked"));
}

#[test]
fn meeting_draft_can_be_constructed() {
    let d = MeetingDraft {
        id: "m1".into(),
        title: "Test".into(),
        started_at: "2026-05-05T10:00:00+00:00".into(),
        language: "en".into(),
        dir_path: "/tmp/x".into(),
    };
    assert_eq!(d.id, "m1");
}

#[test]
fn storage_error_display_includes_kind() {
    let e = StorageError::NotFound { id: "abc".into(), kind: "meeting" };
    let s = e.message();
    assert!(s.contains("meeting"), "got: {s}");
    assert!(s.contains("abc"), "got: {s}");
}

#[test]
fn storage_error_io_via_from() {
    let io: std::io::Error = std::io::Error::other("disk full");
    let e: StorageError = io.into();
    assert!(matches!(e, StorageError::Io { .. }));
}

#[test]
fn storage_error_sql_helper_does_not_require_rusqlite() {
    let e = StorageError::sql("any displayable");
    assert!(matches!(e, StorageError::Sql { .. }));
}

#[test]
fn speech_region_eq_and_dedup() {
    let a = SpeechRegion { start_ms: 0, end_ms: 1000 };
    let b = SpeechRegion { start_ms: 0, end_ms: 1000 };
    let c = SpeechRegion { start_ms: 500, end_ms: 2000 };
    assert_eq!(a, b);
    assert_ne!(a, c);
    let mut regions = vec![a, b, c];
    regions.dedup();
    assert_eq!(regions.len(), 2);
    assert_eq!(regions[0], a);
    assert_eq!(regions[1], c);
}

#[test]
fn vad_error_display_includes_kind() {
    let e = VadError::Model("model load failed".into());
    assert!(e.message().contains("vad model"));
    let e = VadError::InvalidAudio("not 16k".into());
    assert!(e.message().contains("invalid audio"));
}

#[test]
fn vad_error_io_via_from() {
    let io: std::io::Error = std::io::Error::other("disk full");
    let e: VadError = io.into();
    assert!(matches!(e, VadError::Io(..)));
}

#[test]
fn cheat_sheet_for_notion_enhanced_mentions_callout_and_details() {
    let sheet = MarkdownDialect::NotionEnhanced.cheat_sheet();
    assert!(sheet.contains("<callout"));
    assert!(sheet.contains("<details>"));
}

#[test]
fn cheat_sheet_for_basic_does_not_mention_callout() {
    let sheet = MarkdownDialect::Basic.cheat_sheet();
    assert!(!sheet.contains("<callout"));
    assert!(sheet.contains("CommonMark") || sheet.contains("commonmark"));
}

#[test]
fn default_is_notion_enhanced() {
    assert_eq!(MarkdownDialect::default(), MarkdownDialect::NotionEnhanced);
}

#[test]
fn notes_error_display_includes_variant_name() {
    let e = NotesError::EmptyTranscript;
    assert!(e.message().contains("empty"));
}

#[test]
fn notes_error_messages_are_exact() {
    assert_eq!(NotesError::EmptyTranscript.message(), "empty transcript");
    assert_eq!(
        NotesError::LlmUnavailable { failed: 2, total: 2, last_error: "provider: down".into() }.message(),
        "notes LLM unavailable: all 2 of 2 section generation calls failed (provider: down)"
    );
    assert_eq!(NotesError::InvalidInput("x".into()).message(), "invalid input: x");
    assert_eq!(
        NotesError::SchemaMismatch { stage: "section", detail: "no title".into() }.message(),
        "schema mismatch in stage section: no title"
    );
    assert_eq!(NotesError::Llm(LlmError::Cancelled).message(), "llm: cancelled");
    let e: NotesError = LlmError::EmptyResponse.into();
    assert!(matches!(e, NotesError::Llm(LlmError::EmptyResponse)));
}

#[test]
fn schema_version_is_one() {
    assert_eq!(StructuredNotes::SCHEMA_VERSION, 1);
}

#[test]
fn asr_and_diar_errors_render_their_messages() {
    assert_eq!(AsrError::InvalidAudio("8 kHz".into()).message(), "invalid audio: 8 kHz");
    assert_eq!(AsrError::Model("load".into()).message(), "model error: load");
    assert_eq!(AsrError::Transcription("t".into()).message(), "transcription failed: t");
    assert_eq!(AsrError::AudioNotFound(PathBuf::from("/x/a.wav")).message(), "audio file not found: /x/a.wav");
    assert_eq!(DiarError::AudioNotFound(PathBuf::from("/x/a.wav")).message(), "audio file not found: /x/a.wav");
    assert_eq!(DiarError::Diarization("d".into()).message(), "diarization failed: d");
    let e: DiarError = std::io::Error::other("disk full").into();
    assert_eq!(e.message(), "io error: disk full");
}

#[test]
fn clock_readings_render_as_rfc3339() {
    assert_eq!(timestamp_or_epoch(Some((1_777_629_660, 0))), "2026-05-01T10:01:00+00:00");
    assert_eq!(timestamp_or_epoch(Some((1_777_629_660, 500_000_000))), "2026-05-01T10:01:00.500+00:00");
    assert_eq!(timestamp_or_epoch(Some((0, 0))), "1970-01-01T00:00:00+00:00");
    // No reading, or one chrono cannot represent, gives the epoch.
    assert_eq!(timestamp_or_epoch(None), "1970-01-01T00:00:00+00:00");
    assert_eq!(timestamp_or_epoch(Some((u64::MAX, 0))), "1970-01-01T00:00:00+00:00");
    assert_eq!(timestamp_or_epoch(Some((9_000_000_000_000_000, 0))), "1970-01-01T00:00:00+00:00");
    let now = now_rfc3339();
    assert!(now.starts_with("20") && now.contains('T'));
}
