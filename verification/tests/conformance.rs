use std::path::PathBuf;

use panops_core::capture::{AudioSources, CaptureError};
use panops_core::conformance::diar::{check_turns, run_suite as run_diar_suite};
use panops_core::conformance::fakes::{FailingLlm, FakeCapture, InMemoryMeetingStore, InMemoryStorage, KnownTurnsFake, MockLlm};
use panops_core::conformance::llm::{
    assert_empty_response, empty_verdict, error_verdict, json_verdict, run_error_suite, run_suite as run_llm_suite,
    text_verdict, ERROR_PROBE_USER,
};
use panops_core::conformance::meeting_store::run_suite as run_meeting_store_suite;
use panops_core::conformance::storage::{
    fresh_replace_verdict, org_filter_verdict, replaced_verdict, rollback_verdict, run_suite as run_storage_suite,
    sole_note_verdict,
};
use panops_core::storage::{Meeting, MeetingSummary, Note};
use panops_core::diar::{Diarizer, SpeakerTurn};
use panops_core::llm::{JsonValue, LlmError, LlmProvider, LlmRequest, LlmResponse};
use panops_core::meeting_store::{MeetingStore, MeetingStoreError, SegmentDraft, SpeakerDraft};
use panops_core::storage::{MeetingDraft, NoteDraft, Storage, StorageError};

#[test]
fn in_memory_storage_passes_conformance() {
    let mut s = InMemoryStorage::new();
    assert_eq!(run_storage_suite(&mut s), Ok(()));
}

#[test]
fn in_memory_meeting_store_passes_conformance() {
    let mut m = InMemoryMeetingStore::new();
    assert_eq!(run_meeting_store_suite(&mut m), Ok(()));
}

#[test]
fn fresh_meeting_store_passes_suite() {
    assert_eq!(panops_core::conformance::content_suite::fresh_store_passes_suite(), Ok(()));
}

fn draft(id: &str, title: &str, started_at: &str) -> MeetingDraft {
    MeetingDraft {
        id: id.into(),
        title: title.into(),
        started_at: started_at.into(),
        language: "auto".into(),
        dir_path: format!("/tmp/{id}"),
    }
}

fn note(id: &str, meeting_id: &str, body: &str) -> NoteDraft {
    NoteDraft {
        id: id.into(),
        meeting_id: meeting_id.into(),
        dialect: "basic".into(),
        content_md: body.into(),
        primary_path: "/tmp/notes.md".into(),
    }
}

#[test]
fn registry_round_trip_and_duplicates() {
    let mut s = InMemoryStorage::new();
    let m = s.create_meeting(draft("m1", "One", "2026-05-01T10:00:00+00:00")).unwrap();
    assert_eq!(s.get_meeting("m1").unwrap(), m);
    match s.create_meeting(draft("m1", "Again", "2026-05-02T10:00:00+00:00")) {
        Err(StorageError::AlreadyExists { id, kind }) => {
            assert_eq!(id, "m1");
            assert_eq!(kind, "meeting");
        }
        other => panic!("expected AlreadyExists, got {other:?}"),
    }
    let mut other = draft("m2", "Two", "2026-05-02T10:00:00+00:00");
    other.dir_path = "/tmp/m1".into();
    match s.create_meeting(other) {
        Err(StorageError::UniqueConflict { kind, field, value }) => {
            assert_eq!((kind, field, value.as_str()), ("meeting", "dir_path", "/tmp/m1"));
        }
        other => panic!("expected UniqueConflict, got {other:?}"),
    }
    assert!(matches!(s.get_meeting("nope"), Err(StorageError::NotFound { kind: "meeting", .. })));
}

#[test]
fn registry_delete_cascades_notes_and_tags() {
    let mut s = InMemoryStorage::new();
    s.create_meeting(draft("m1", "One", "2026-05-01T10:00:00+00:00")).unwrap();
    s.create_note(note("n1", "m1", "# hi")).unwrap();
    let tag = s.create_tag("urgent").unwrap();
    s.tag_meeting("m1", &tag.id).unwrap();
    s.delete_meeting("m1").unwrap();
    assert!(matches!(s.get_meeting("m1"), Err(StorageError::NotFound { .. })));
    assert!(s.list_notes_for_meeting("m1").unwrap().is_empty());
    assert!(s.list_tags_for_meeting("m1").unwrap().is_empty());
}

#[test]
fn registry_replace_leaves_one_note() {
    let mut s = InMemoryStorage::new();
    s.create_meeting(draft("m1", "One", "2026-05-01T10:00:00+00:00")).unwrap();
    s.create_note(note("n1", "m1", "# first")).unwrap();
    let r = s.replace_meeting_note("m1", note("n2", "m1", "# second")).unwrap();
    let rows = s.list_notes_for_meeting("m1").unwrap();
    assert_eq!(rows, vec![r]);
    assert_eq!(rows[0].content_md, "# second");
}

#[test]
fn registry_create_tag_is_idempotent_by_name() {
    let mut s = InMemoryStorage::new();
    let a = s.create_tag("urgent").unwrap();
    let b = s.create_tag("urgent").unwrap();
    assert_eq!(a, b);
    assert_eq!(s.list_tags().unwrap().len(), 1);
}

#[test]
fn registry_untag_removes_the_tag() {
    let mut s = InMemoryStorage::new();
    s.create_meeting(draft("m1", "One", "2026-05-01T10:00:00+00:00")).unwrap();
    let tag = s.create_tag("urgent").unwrap();
    s.tag_meeting("m1", &tag.id).unwrap();
    s.tag_meeting("m1", &tag.id).unwrap();
    assert_eq!(s.list_tags_for_meeting("m1").unwrap(), vec![tag.clone()]);
    s.untag_meeting("m1", &tag.id).unwrap();
    assert!(s.list_tags_for_meeting("m1").unwrap().is_empty());
}

#[test]
fn registry_lists_latest_first() {
    let mut s = InMemoryStorage::new();
    s.create_meeting(draft("a", "A", "2026-05-01T10:00:00+00:00")).unwrap();
    s.create_meeting(draft("c", "C", "2026-05-03T10:00:00+00:00")).unwrap();
    s.create_meeting(draft("b", "B", "2026-05-02T10:00:00+00:00")).unwrap();
    let ids: Vec<String> = s.list_meetings().unwrap().into_iter().map(|m| m.id).collect();
    assert_eq!(ids, vec!["c", "b", "a"]);
}

#[test]
fn registry_combined_insert_is_all_or_nothing() {
    let mut s = InMemoryStorage::new();
    s.create_meeting(draft("m1", "One", "2026-05-01T10:00:00+00:00")).unwrap();
    s.create_note(note("n1", "m1", "# hi")).unwrap();
    let err = s.create_meeting_with_note(draft("m2", "Two", "2026-05-02T10:00:00+00:00"), note("n1", "m2", "# x"), None, None);
    assert!(matches!(err, Err(StorageError::AlreadyExists { kind: "note", .. })));
    assert!(matches!(s.get_meeting("m2"), Err(StorageError::NotFound { .. })));
}

fn segment_draft(start_ms: u64, text: &str) -> SegmentDraft {
    SegmentDraft {
        meeting_id: "m1".into(),
        start_ms,
        end_ms: start_ms + 500,
        text: text.into(),
        language: None,
        confidence_bits: None,
        speaker_id: None,
        source: "live".into(),
    }
}

#[test]
fn meeting_store_lists_by_start_and_relabels() {
    let mut m = InMemoryMeetingStore::new();
    let late = m.create_segment(segment_draft(2_000, "late")).unwrap();
    let early = m.create_segment(segment_draft(1_000, "early")).unwrap();
    assert!(late.id > 0 && early.id > late.id);
    let texts: Vec<String> = m.list_segments("m1").unwrap().into_iter().map(|s| s.text).collect();
    assert_eq!(texts, vec!["early", "late"]);
    let sp = m.create_speaker(SpeakerDraft { meeting_id: "m1".into(), label: "A".into(), embedding: None }).unwrap();
    let renamed = m.update_speaker_label(sp.id, "B").unwrap();
    assert_eq!(renamed.label, "B");
    assert_eq!(m.get_speaker(sp.id).unwrap().label, "B");
    assert!(matches!(m.get_speaker(999_999), Err(MeetingStoreError::SpeakerNotFound { id: 999_999 })));
}

#[test]
fn fake_capture_passes_conformance() {
    let mut fake = FakeCapture::new();
    let dir = PathBuf::from("/tmp/meeting");
    // Session handle round trip and not-found after stop.
    fake.start_capture("test_meeting_001", dir.clone(), AudioSources::SystemAndMic, false, 1_700_000_000_000);
    let (r, video) = fake.stop_capture("test_meeting_001", 1_700_000_060_000).expect("stop should succeed");
    assert!(video.is_none());
    assert_eq!(r.duration_ms, 60_000);
    assert!(r.system_audio_path.is_some() && r.mic_audio_path.is_some());
    assert_eq!(r.system_audio_path.as_deref(), Some(dir.join("system.wav").as_path()));
    assert_eq!(r.mic_audio_path.as_deref(), Some(dir.join("mic.wav").as_path()));
    assert_eq!(r.screenshot_paths.len(), 3);
    assert_eq!(r.screenshot_paths[0], dir.join("screenshots").join("001.jpg"));
    assert_eq!(r.screenshot_paths[2], dir.join("screenshots").join("003.jpg"));
    match fake.stop_capture("test_meeting_001", 1_700_000_060_000) {
        Err(CaptureError::SessionNotFound(id)) => assert_eq!(id, "test_meeting_001"),
        other => panic!("expected SessionNotFound, got {other:?}"),
    }
    // Track presence follows the requested sources.
    let cases = [
        (AudioSources::SystemOnly, true, false),
        (AudioSources::MicOnly, false, true),
        (AudioSources::SystemAndMic, true, true),
    ];
    for (sources, want_system, want_mic) in cases {
        fake.start_capture("presence_test", dir.clone(), sources, false, 10);
        let (r, _) = fake.stop_capture("presence_test", 20).expect("stop should succeed");
        assert_eq!(r.system_audio_path.is_some(), want_system);
        assert_eq!(r.mic_audio_path.is_some(), want_mic);
        // A capture is at least one second long.
        assert_eq!(r.duration_ms, 1_000);
    }
    // A recorded video is part of the capture.
    fake.start_capture("test_meeting_video", dir.clone(), AudioSources::SystemAndMic, true, 0);
    let (_, video) = fake.stop_capture("test_meeting_video", 5_000).unwrap();
    assert_eq!(video, Some(dir.join("recording.mov")));
}

#[test]
fn fake_capture_restart_replaces_the_session() {
    let mut fake = FakeCapture::default();
    fake.start_capture("m", PathBuf::from("/tmp/a"), AudioSources::MicOnly, true, 1_000);
    fake.start_capture("m", PathBuf::from("/tmp/b"), AudioSources::SystemOnly, false, 5_000);
    let (r, video) = fake.stop_capture("m", 9_000).unwrap();
    assert!(video.is_none());
    assert_eq!(r.duration_ms, 4_000);
    assert_eq!(r.system_audio_path, Some(PathBuf::from("/tmp/b/system.wav")));
    assert!(r.mic_audio_path.is_none());
    assert!(fake.stop_capture("m", 9_000).is_err());
}

fn turn(start_ms: u64, end_ms: u64, speaker_id: u32) -> SpeakerTurn {
    SpeakerTurn { start_ms, end_ms, speaker_id }
}

#[test]
fn fake_diarizer_passes_conformance() {
    // The turns a sidecar for the two-speaker fixture lists: speaker 0
    // opens and closes, speaker 1 talks in the middle.
    let fake = KnownTurnsFake {
        turns: vec![turn(0, 9_000, 0), turn(20_000, 28_000, 1), turn(42_000, 50_000, 0)],
    };
    assert_eq!(fake.diarize(&PathBuf::from("multi_speaker_60s.wav")).unwrap(), fake.turns);
    assert_eq!(run_diar_suite(&fake, &PathBuf::from("tests/fixtures")), Ok(()));
}

#[test]
fn diarizer_checks_name_the_failure() {
    assert!(check_turns(&vec![], true).unwrap_err().contains("no turns"));
    assert!(check_turns(&vec![turn(0, 30_000, 0)], true).unwrap_err().contains("distinct speakers"));
    let overlapping = vec![turn(0, 15_000, 0), turn(10_000, 25_000, 1)];
    assert!(check_turns(&overlapping, true).is_err());
    let short = vec![turn(0, 1_000, 0), turn(1_000, 2_000, 1)];
    assert!(check_turns(&short, true).is_err());
}

#[test]
fn mock_llm_passes_conformance() {
    let mock = MockLlm::default()
        .with_response_for(None, "say hi", LlmResponse::Text("hi".into()))
        .with_response_for(
            None,
            "json please",
            LlmResponse::Json(JsonValue::Object(vec![("ok".into(), JsonValue::Bool(true))])),
        );
    assert_eq!(run_llm_suite(&mock), Ok(()));
}

#[test]
fn llm_adapters_honor_error_contract() {
    let failing_mock = MockLlm::default().with_error_for(None, ERROR_PROBE_USER, "backend down");
    assert_eq!(run_error_suite(&failing_mock), Ok(()));
    assert_eq!(run_error_suite(&FailingLlm::provider("backend down")), Ok(()));
    assert_eq!(assert_empty_response(&FailingLlm::empty()), Ok(()));
}

fn request(system: Option<&str>, user: &str) -> LlmRequest {
    LlmRequest { system: system.map(String::from), user: user.into(), schema: None, temperature_milli: 0, max_tokens: 16 }
}

#[test]
fn mock_llm_answers_by_prompt_and_reports_unknown_prompts() {
    let mock = MockLlm::default()
        .with_response_for(Some("sys"), "q", LlmResponse::Text("first".into()))
        .with_response_for(Some("sys"), "q", LlmResponse::Text("second".into()));
    match mock.complete(request(Some("sys"), "q")) {
        Ok(LlmResponse::Text(t)) => assert_eq!(t, "second"),
        other => panic!("unexpected {other:?}"),
    }
    match mock.complete(request(None, "q")) {
        Err(LlmError::Provider(m)) => assert!(m.starts_with("no canned response for prompt fingerprint ")),
        other => panic!("unexpected {other:?}"),
    }
    match FailingLlm::provider("down").complete(request(None, "q")) {
        Err(LlmError::Provider(m)) => assert_eq!(m, "down"),
        other => panic!("unexpected {other:?}"),
    }
}

#[test]
fn llm_suite_verdicts_judge_each_answer() {
    assert!(text_verdict(&Ok(LlmResponse::Text("hi".into()))).is_ok());
    assert_eq!(text_verdict(&Ok(LlmResponse::Text(String::new()))), Err("empty text response".to_string()));
    assert!(text_verdict(&Ok(LlmResponse::Json(JsonValue::Null))).is_err());
    assert!(json_verdict(&Ok(LlmResponse::Json(JsonValue::Object(vec![])))).is_ok());
    assert_eq!(json_verdict(&Ok(LlmResponse::Json(JsonValue::Array(vec![])))), Err("not an object".to_string()));
    assert!(error_verdict(&Err(LlmError::Cancelled)).is_ok());
    assert!(error_verdict(&Ok(LlmResponse::Text("x".into()))).is_err());
    assert!(empty_verdict(&Err(LlmError::EmptyResponse)).is_ok());
    assert!(empty_verdict(&Err(LlmError::Cancelled)).is_err());
}

fn listing_row(id: &str) -> MeetingSummary {
    MeetingSummary {
        id: id.to_owned(),
        title: "t".to_owned(),
        started_at: "2026-05-11T10:00:00+00:00".to_owned(),
        ended_at: None,
        duration_ms: 0,
        language: "auto".to_owned(),
        has_notes: false,
        space_id: None,
        project_id: None,
        tags: vec![],
    }
}

fn rows(ids: &[&str]) -> Result<Vec<MeetingSummary>, StorageError> {
    Ok(ids.iter().map(|id| listing_row(id)).collect())
}

#[test]
fn org_filter_verdict_judges_each_listing() {
    let inbox = rows(&["m_filter_inbox", "m_other"]);
    let space = rows(&["m_filter_project", "m_filter_space"]);
    let project = rows(&["m_filter_project", "m_elsewhere"]);
    let tag = rows(&["m_filter_project"]);
    assert_eq!(org_filter_verdict(&inbox, &space, &project, &tag), Ok(()));
    // A filed meeting in the Inbox fails the first check.
    let bad_inbox = rows(&["m_filter_inbox", "m_filter_space"]);
    assert_eq!(
        org_filter_verdict(&bad_inbox, &space, &project, &tag),
        Err("the Inbox filter should list only unfiled meetings".to_owned())
    );
    // The space listing must hold the project's meeting too.
    let thin_space = rows(&["m_filter_space"]);
    assert_eq!(
        org_filter_verdict(&inbox, &thin_space, &project, &tag),
        Err("the space filter should list the space's meetings".to_owned())
    );
    // The project listing may hold only the project's meeting of the three.
    let wide_project = rows(&["m_filter_space", "m_filter_project"]);
    assert_eq!(
        org_filter_verdict(&inbox, &space, &wide_project, &tag),
        Err("the project filter should list the project's meeting".to_owned())
    );
    let empty_tag = rows(&[]);
    assert_eq!(
        org_filter_verdict(&inbox, &space, &project, &empty_tag),
        Err("the tag filter should list the tagged meeting".to_owned())
    );
    let failed: Result<Vec<MeetingSummary>, StorageError> = Err(StorageError::Sql { message: "x".into() });
    assert_eq!(org_filter_verdict(&failed, &space, &project, &tag), Err("inbox filter".to_owned()));
}

fn stored_note(id: &str, content: &str, dialect: &str, created_at: &str) -> Note {
    Note {
        id: id.to_owned(),
        meeting_id: "m".to_owned(),
        dialect: dialect.to_owned(),
        content_md: content.to_owned(),
        primary_path: "/tmp/m/notes.md".to_owned(),
        created_at: created_at.to_owned(),
    }
}

#[test]
fn replace_verdicts_judge_the_answers() {
    let fresh = Ok(stored_note("n_replaced", "# edited by user", "basic", "2026-05-05T10:00:01+00:00"));
    assert_eq!(replaced_verdict(&fresh, "2026-05-05T10:00:00+00:00"), Ok(()));
    // A replacement stamped before the original is not the fresh note.
    assert!(replaced_verdict(&fresh, "2026-05-06T10:00:00+00:00").is_err());
    let stale = Ok(stored_note("n_original", "# original", "notion-enhanced", "2026-05-05T10:00:01+00:00"));
    assert!(replaced_verdict(&stale, "2026-05-05T10:00:00+00:00").is_err());
    let missing: Result<Note, StorageError> = Err(StorageError::NotFound { id: "m".into(), kind: "meeting" });
    assert_eq!(
        replaced_verdict(&missing, "2026-05-05T10:00:00+00:00"),
        Err("replace_meeting_note should succeed".to_owned())
    );
    let one = Ok(vec![stored_note("n_replaced", "# edited by user", "basic", "t")]);
    assert_eq!(sole_note_verdict(&one), Ok(()));
    let two = Ok(vec![
        stored_note("n_replaced", "# edited by user", "basic", "t"),
        stored_note("n_original", "# original", "basic", "t"),
    ]);
    assert_eq!(sole_note_verdict(&two), Err("replace must leave exactly one note row".to_owned()));
    let created = Ok(stored_note("n_fresh", "# fresh", "basic", "t"));
    let listed = Ok(vec![stored_note("n_fresh", "# fresh", "basic", "t")]);
    assert_eq!(fresh_replace_verdict(&created, &listed), Ok(()));
    let none: Result<Vec<Note>, StorageError> = Ok(vec![]);
    assert_eq!(
        fresh_replace_verdict(&created, &none),
        Err("replace on a meeting without notes should leave one".to_owned())
    );
}

#[test]
fn rollback_verdict_wants_a_note_collision_and_no_meeting() {
    let collided: Result<(Meeting, Note), StorageError> =
        Err(StorageError::AlreadyExists { id: "n_atomic_pre".into(), kind: "note" });
    let gone: Result<Meeting, StorageError> = Err(StorageError::NotFound { id: "m_atomic_rollback".into(), kind: "meeting" });
    assert_eq!(rollback_verdict(&collided, &gone), Ok(()));
    let wrong_kind: Result<(Meeting, Note), StorageError> =
        Err(StorageError::AlreadyExists { id: "m".into(), kind: "meeting" });
    assert_eq!(rollback_verdict(&wrong_kind, &gone), Err("expected AlreadyExists for the note".to_owned()));
    let kept: Result<Meeting, StorageError> = Ok(Meeting {
        id: "m_atomic_rollback".into(),
        title: "Rollback".into(),
        started_at: "2026-05-05T10:00:00+00:00".into(),
        ended_at: None,
        duration_ms: None,
        language: "auto".into(),
        dir_path: "/tmp/m_atomic_rollback".into(),
    });
    assert_eq!(rollback_verdict(&collided, &kept), Err("expected the new meeting to be rolled back".to_owned()));
}
