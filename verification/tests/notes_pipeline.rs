use std::collections::HashSet;
use std::path::PathBuf;
use std::sync::Mutex;

use panops_core::conformance::fakes::{FailingLlm, MockLlm};
use panops_core::llm::{JsonValue, LlmError, LlmProvider, LlmRequest, LlmResponse};
use panops_core::notes::dialect::MarkdownDialect;
use panops_core::notes::error::NotesError;
use panops_core::notes::input::{MeetingMetadata, NotesInput};
use panops_core::notes::ir::{CalendarDate, OffsetDateTime, Screenshot};
use panops_core::notes::pipeline::{
    frontmatter_outcome, rendered_llm_request_chars, section_outcome, unavailable_error, NotesGenerator,
    PANOPS_VERSION,
};
use panops_core::notes::prompts::{
    build_frontmatter_prompt, build_section_narrative_prompt, estimate_transcript_chars, SectionSummary,
    SECTION_CHUNK_THRESHOLD_CHARS,
};
use panops_core::segment::Segment;

fn seg(start: u64, end: u64, speaker: u32, text: &str) -> Segment {
    Segment {
        start_ms: start,
        end_ms: end,
        text: text.into(),
        language_detected: Some("en".into()),
        confidence_bits: 1.0f32.to_bits(),
        is_partial: false,
        speaker_id: Some(speaker),
    }
}

fn s(t: &str) -> JsonValue {
    JsonValue::String(t.into())
}

fn strings(items: &[String]) -> JsonValue {
    JsonValue::Array(items.iter().map(|t| s(t)).collect())
}

fn obj(members: Vec<(&str, JsonValue)>) -> JsonValue {
    JsonValue::Object(members.into_iter().map(|(k, v)| (k.to_string(), v)).collect())
}

fn section_json(title: &str, narrative: &str, key_points: &[String]) -> JsonValue {
    obj(vec![
        ("title", s(title)),
        ("narrative_md", s(narrative)),
        ("key_points", strings(key_points)),
        ("action_items", JsonValue::Array(vec![])),
    ])
}

fn frontmatter_json(title: &str, tags: &[&str]) -> JsonValue {
    obj(vec![("title", s(title)), ("tags", JsonValue::Array(tags.iter().map(|t| s(t)).collect()))])
}

fn started() -> OffsetDateTime {
    OffsetDateTime {
        date: CalendarDate { year: 2026, month: 5, day: 1 },
        hour: 10,
        minute: 0,
        second: 0,
        nanosecond: 0,
        offset_seconds: 0,
    }
}

fn make_mock(segments: &[Segment], duration_ms: u64) -> MockLlm {
    let section_prompt = build_section_narrative_prompt(segments, MarkdownDialect::Basic, "en");
    let frontmatter_prompt = build_frontmatter_prompt(
        &[SectionSummary { title: "Welcome".into(), key_points: vec!["meeting opened".into()] }],
        "en",
        duration_ms,
    );
    MockLlm::default()
        .with_response_for(
            section_prompt.system.as_deref(),
            &section_prompt.user,
            LlmResponse::Json(section_json(
                "Welcome",
                "The meeting opened with introductions.",
                &["meeting opened".to_string()],
            )),
        )
        .with_response_for(
            frontmatter_prompt.system.as_deref(),
            &frontmatter_prompt.user,
            LlmResponse::Json(frontmatter_json("Team Meeting", &["meeting", "intro"])),
        )
}

/// What a recording provider keeps of a request: its user prompt and its
/// rendered size.
#[derive(Clone)]
struct Call {
    user: String,
    rendered: usize,
}

fn record(calls: &Mutex<Vec<Call>>, req: &LlmRequest) {
    calls.lock().unwrap().push(Call { user: req.user.clone(), rendered: rendered_llm_request_chars(req) });
}

#[derive(Default)]
struct RecordingLlm {
    calls: Mutex<Vec<Call>>,
}

impl RecordingLlm {
    fn calls(&self) -> Vec<Call> {
        self.calls.lock().unwrap().clone()
    }
}

impl LlmProvider for RecordingLlm {
    fn complete(&self, req: LlmRequest) -> Result<LlmResponse, LlmError> {
        let response = if req.user.starts_with("Section transcript") {
            let markers = marker_list(&req.user);
            let title = markers.first().map_or_else(|| "Short Section".to_string(), |m| format!("Chunk {m}"));
            LlmResponse::Json(section_json(&title, &markers.join(" "), &markers))
        } else if req.user.starts_with("Sub-chunk summaries") {
            let markers = marker_list(&req.user);
            LlmResponse::Json(section_json("Long Section", &markers.join(" "), &markers))
        } else if req.user.starts_with("Section summaries") {
            LlmResponse::Json(frontmatter_json("Team Meeting", &["meeting"]))
        } else {
            return Err(LlmError::Provider("unexpected prompt".into()));
        };
        record(&self.calls, &req);
        Ok(response)
    }
}

#[derive(Default)]
struct BulkyRecordingLlm {
    calls: Mutex<Vec<Call>>,
}

impl BulkyRecordingLlm {
    fn calls(&self) -> Vec<Call> {
        self.calls.lock().unwrap().clone()
    }
}

impl LlmProvider for BulkyRecordingLlm {
    fn complete(&self, req: LlmRequest) -> Result<LlmResponse, LlmError> {
        let response = if req.user.starts_with("Section transcript") {
            let markers = marker_list(&req.user);
            let title = markers.first().map_or("Chunk", String::as_str).to_string();
            let narrative = format!("{} {}", markers.join(" "), "detail ".repeat(300));
            LlmResponse::Json(section_json(&title, &narrative, &markers))
        } else if req.user.starts_with("Sub-chunk summaries") {
            let markers = marker_list(&req.user);
            let narrative = format!("{} {}", markers.join(" "), "detail ".repeat(300));
            LlmResponse::Json(section_json("Merged Section", &narrative, &markers))
        } else if req.user.starts_with("Section summaries") {
            LlmResponse::Json(frontmatter_json("Team Meeting", &["meeting"]))
        } else {
            return Err(LlmError::Provider("unexpected prompt".into()));
        };
        record(&self.calls, &req);
        Ok(response)
    }
}

#[derive(Default)]
struct MergeFailingLlm {
    calls: Mutex<Vec<Call>>,
}

impl LlmProvider for MergeFailingLlm {
    fn complete(&self, req: LlmRequest) -> Result<LlmResponse, LlmError> {
        let response = if req.user.starts_with("Section transcript") {
            let markers = marker_list(&req.user);
            let title = markers.first().map_or("Chunk", String::as_str).to_string();
            LlmResponse::Json(section_json(&title, &markers.join(" "), &markers))
        } else if req.user.starts_with("Sub-chunk summaries") {
            LlmResponse::Text("merge failed as text".into())
        } else if req.user.starts_with("Section summaries") {
            LlmResponse::Json(frontmatter_json("Team Meeting", &["meeting"]))
        } else {
            return Err(LlmError::Provider("unexpected prompt".into()));
        };
        record(&self.calls, &req);
        Ok(response)
    }
}

fn marker_list(text: &str) -> Vec<String> {
    let mut out: Vec<String> = Vec::new();
    for token in text.split_whitespace() {
        let token = token.trim_matches(|c: char| !c.is_ascii_alphanumeric() && c != '-');
        if token.starts_with("marker-") && !out.iter().any(|seen| seen == token) {
            out.push(token.to_string());
        }
    }
    out
}

fn notes_input(segments: Vec<Segment>, duration_ms: u64) -> NotesInput {
    NotesInput {
        transcript: segments,
        screenshots: vec![],
        meeting_metadata: MeetingMetadata {
            started_at: started(),
            duration_ms,
            source_path: None,
            language_hint: Some("en".into()),
        },
    }
}

fn count(calls: &[Call], prefix: &str) -> usize {
    calls.iter().filter(|c| c.user.starts_with(prefix)).count()
}

#[test]
fn one_section_pipeline_produces_structured_notes() {
    let segments = vec![seg(0, 60_000, 0, "hello and welcome to the meeting")];
    let mock = make_mock(&segments, 60_000);
    let generator = NotesGenerator { llm: &mock, dialect: MarkdownDialect::Basic };
    let notes = generator.generate(notes_input(segments, 60_000)).expect("generate failed");
    assert_eq!(notes.sections.len(), 1);
    assert_eq!(notes.sections[0].title, "Welcome");
    assert_eq!(notes.frontmatter.title, "Team Meeting");
    assert_eq!(notes.frontmatter.tags, vec!["meeting", "intro"]);
    assert_eq!(notes.frontmatter.speakers, vec!["speaker_0"]);
}

#[test]
fn generated_notes_carry_meeting_facts() {
    let segments = vec![seg(0, 60_000, 0, "hello and welcome to the meeting")];
    let mock = make_mock(&segments, 60_000);
    let generator = NotesGenerator { llm: &mock, dialect: MarkdownDialect::Basic };
    let mut input = notes_input(segments, 60_000);
    input.meeting_metadata.source_path = Some(PathBuf::from("audio.wav"));
    let notes = generator.generate(input).expect("generate failed");
    assert_eq!(notes.schema_version, 1);
    assert_eq!(notes.sections[0].index, 1);
    assert_eq!(notes.sections[0].time_range_ms, (0, 60_000));
    assert_eq!(notes.sections[0].key_points, vec!["meeting opened"]);
    assert_eq!(notes.frontmatter.date, CalendarDate { year: 2026, month: 5, day: 1 });
    assert_eq!(notes.frontmatter.started_at, started());
    assert_eq!(notes.frontmatter.duration_ms, 60_000);
    assert_eq!(notes.frontmatter.languages, vec!["en"]);
    assert_eq!(notes.frontmatter.template, "default");
    assert_eq!(notes.frontmatter.dialect, MarkdownDialect::Basic);
    assert_eq!(notes.frontmatter.panops_version, PANOPS_VERSION);
    assert_eq!(notes.frontmatter.source_audio, Some(PathBuf::from("audio.wav")));
    assert_eq!(notes.language, "en");
    assert!(!notes.generated_at.is_empty());
}

#[test]
fn empty_transcript_is_rejected() {
    let mock = MockLlm::default();
    let generator = NotesGenerator { llm: &mock, dialect: MarkdownDialect::Basic };
    let err = generator.generate(notes_input(vec![], 0)).expect_err("empty transcript must fail");
    assert!(matches!(err, NotesError::EmptyTranscript));
}

#[test]
fn short_section_uses_single_section_llm_call_without_merge() {
    let segments = vec![seg(0, 60_000, 0, "marker-short hello and welcome")];
    let llm = RecordingLlm::default();
    let generator = NotesGenerator { llm: &llm, dialect: MarkdownDialect::Basic };
    let notes = generator.generate(notes_input(segments, 60_000)).expect("generate failed");
    assert_eq!(notes.sections.len(), 1);
    assert_eq!(notes.sections[0].narrative_md, "marker-short");
    let calls = llm.calls();
    assert_eq!(count(&calls, "Section transcript"), 1, "short sections keep the single-call path");
    assert_eq!(count(&calls, "Sub-chunk summaries"), 0, "short sections must not run a merge pass");
}

#[test]
fn near_threshold_rendered_section_uses_chunk_path() {
    let mut segments = Vec::new();
    let segment_count = 20usize;
    let mut remaining_estimate = SECTION_CHUNK_THRESHOLD_CHARS - 16;
    for i in 0..segment_count {
        let marker = format!("marker-rendered-{i:02}");
        let remaining_segments = segment_count - i;
        let line_chars = remaining_estimate / remaining_segments;
        let text_len = line_chars.saturating_sub(20);
        let filler_len = text_len.saturating_sub(marker.len() + 1);
        let text = format!("{marker} {}", "x".repeat(filler_len));
        remaining_estimate = remaining_estimate.saturating_sub(text.len() + 20);
        let start_ms = i as u64 * 4_000;
        segments.push(seg(start_ms, start_ms + 1_000, 0, &text));
    }
    let transcript_chars = estimate_transcript_chars(&segments);
    let single_req = build_section_narrative_prompt(&segments, MarkdownDialect::Basic, "en");
    assert!(
        transcript_chars < SECTION_CHUNK_THRESHOLD_CHARS,
        "fixture must stay under the transcript-only threshold: {transcript_chars}"
    );
    assert!(
        rendered_llm_request_chars(&single_req) > SECTION_CHUNK_THRESHOLD_CHARS,
        "fixture must exceed the rendered prompt threshold"
    );
    let llm = RecordingLlm::default();
    let generator = NotesGenerator { llm: &llm, dialect: MarkdownDialect::Basic };
    let notes = generator.generate(notes_input(segments, 80_000)).expect("generate failed");
    assert_eq!(notes.sections.len(), 1);
    let calls = llm.calls();
    assert!(count(&calls, "Section transcript") > 1, "rendered prompt overhead should force multiple chunk summaries");
    assert_eq!(count(&calls, "Sub-chunk summaries"), 1, "multiple rendered-budget chunks should merge once");
}

#[test]
fn single_chunk_long_section_skips_merge_call() {
    let segments = vec![seg(0, 60_000, 0, &format!("marker-single-chunk {}", "context ".repeat(1_200)))];
    let single_req = build_section_narrative_prompt(&segments, MarkdownDialect::Basic, "en");
    assert!(
        rendered_llm_request_chars(&single_req) > SECTION_CHUNK_THRESHOLD_CHARS,
        "fixture must exceed the rendered prompt threshold"
    );
    let llm = RecordingLlm::default();
    let generator = NotesGenerator { llm: &llm, dialect: MarkdownDialect::Basic };
    let notes = generator.generate(notes_input(segments, 60_000)).expect("generate failed");
    assert_eq!(notes.sections.len(), 1);
    assert_eq!(notes.sections[0].narrative_md, "marker-single-chunk");
    let calls = llm.calls();
    assert_eq!(count(&calls, "Section transcript"), 1, "single unbreakable chunk is summarized once");
    assert_eq!(count(&calls, "Sub-chunk summaries"), 0, "one chunk summary should pass through without an LLM merge");
}

fn assert_markers_in_order(narrative: &str, expected_markers: &[String]) {
    for marker in expected_markers {
        assert!(narrative.contains(marker.as_str()), "final merged section should include {marker}; got {narrative}");
    }
    let order: Vec<usize> = expected_markers
        .iter()
        .map(|marker| narrative.find(marker.as_str()).expect("marker should be present"))
        .collect();
    assert!(order.windows(2).all(|pair| pair[0] < pair[1]), "merged marker order should remain chronological: {narrative}");
}

#[test]
fn long_section_chunks_summarizes_each_chunk_and_merges_in_order() {
    let mut segments = Vec::new();
    let mut expected_markers = Vec::new();
    for i in 0..18u64 {
        let marker = format!("marker-{i:02}");
        expected_markers.push(marker.clone());
        let filler = " context".repeat(90);
        let start_ms = i * 4_000;
        segments.push(seg(start_ms, start_ms + 1_000, 0, &format!("{marker}{filler}")));
    }
    let llm = RecordingLlm::default();
    let generator = NotesGenerator { llm: &llm, dialect: MarkdownDialect::Basic };
    let notes = generator.generate(notes_input(segments, 72_000)).expect("generate failed");
    assert_eq!(notes.sections.len(), 1);
    let calls = llm.calls();
    let section_calls: Vec<&Call> = calls.iter().filter(|c| c.user.starts_with("Section transcript")).collect();
    assert!(section_calls.len() > 1, "long section should trigger multiple sub-chunk summaries");
    assert_eq!(count(&calls, "Sub-chunk summaries"), 1, "chunk summaries should be merged once");
    for call in &section_calls {
        assert!(!marker_list(&call.user).is_empty(), "every sub-chunk summary prompt should contain transcript content");
    }
    for call in &calls {
        assert!(
            call.rendered <= SECTION_CHUNK_THRESHOLD_CHARS,
            "LLM input exceeded threshold: {} > {}",
            call.rendered,
            SECTION_CHUNK_THRESHOLD_CHARS
        );
    }
    assert_eq!(notes.sections[0].title, "Long Section");
    assert_markers_in_order(&notes.sections[0].narrative_md, &expected_markers);
}

#[test]
fn long_section_merges_chunk_summaries_in_bounded_rounds() {
    let mut segments = Vec::new();
    let mut expected_markers = Vec::new();
    for i in 0..12u64 {
        let marker = format!("marker-bounded-{i:02}");
        expected_markers.push(marker.clone());
        let filler = " chunk".repeat(620);
        let start_ms = i * 4_000;
        segments.push(seg(start_ms, start_ms + 1_000, 0, &format!("{marker}{filler}")));
    }
    let llm = BulkyRecordingLlm::default();
    let generator = NotesGenerator { llm: &llm, dialect: MarkdownDialect::Basic };
    let notes = generator.generate(notes_input(segments, 48_000)).expect("generate failed");
    assert_eq!(notes.sections.len(), 1);
    assert_eq!(notes.sections[0].title, "Merged Section");
    assert!(
        !notes.sections[0].narrative_md.contains("panops: llm error"),
        "iterative merge should produce notes without falling back"
    );
    let calls = llm.calls();
    assert!(count(&calls, "Section transcript") > 1, "fixture should trigger chunk-level summaries");
    let merge_calls: Vec<&Call> = calls.iter().filter(|c| c.user.starts_with("Sub-chunk summaries")).collect();
    assert!(merge_calls.len() > 1, "bulky chunk summaries should require multiple bounded merge calls");
    assert!(
        merge_calls.iter().any(|call| call.user.contains("Title: Merged Section")),
        "at least one merge call should consume a previous merge result"
    );
    for call in calls
        .iter()
        .filter(|call| call.user.starts_with("Section transcript") || call.user.starts_with("Sub-chunk summaries"))
    {
        assert!(
            call.rendered <= SECTION_CHUNK_THRESHOLD_CHARS,
            "LLM input exceeded threshold: {} > {}\n{}",
            call.rendered,
            SECTION_CHUNK_THRESHOLD_CHARS,
            call.user
        );
    }
    assert_markers_in_order(&notes.sections[0].narrative_md, &expected_markers);
}

#[test]
fn long_section_merge_text_response_falls_back_without_aborting() {
    let mut segments = Vec::new();
    for i in 0..18u64 {
        let marker = format!("marker-fallback-{i:02}");
        let filler = " context".repeat(90);
        let start_ms = i * 4_000;
        segments.push(seg(start_ms, start_ms + 1_000, 0, &format!("{marker}{filler}")));
    }
    let llm = MergeFailingLlm::default();
    let generator = NotesGenerator { llm: &llm, dialect: MarkdownDialect::Basic };
    let notes = generator
        .generate(notes_input(segments, 72_000))
        .expect("generate should not abort when merge falls back");
    assert_eq!(notes.sections.len(), 1);
    assert_eq!(notes.sections[0].title, "Section");
    let narrative = &notes.sections[0].narrative_md;
    assert!(
        narrative.contains("panops: llm error: LLM unavailable"),
        "fallback should include a generic LLM marker; got: {narrative}"
    );
    assert!(
        !narrative.contains("merge failed as text") && !narrative.contains("merge LLM returned text, expected json"),
        "fallback should not leak internal LLM details; got: {narrative}"
    );
    assert!(narrative.contains("marker-fallback-00"), "fallback should preserve original transcript content; got: {narrative}");
    assert_eq!(notes.frontmatter.title, "Team Meeting");
}

#[test]
fn all_sections_failing_llm_returns_error_not_empty_notes() {
    let segments = vec![
        seg(0, 60_000, 0, "hello and welcome to the meeting"),
        seg(60_000, 120_000, 1, "let us discuss the quarterly roadmap"),
    ];
    let llm = FailingLlm::provider("Model is unavailable. Apple Intelligence is not enabled.");
    let generator = NotesGenerator { llm: &llm, dialect: MarkdownDialect::Basic };
    let err = generator
        .generate(notes_input(segments, 120_000))
        .expect_err("provider down on every call must not yield empty-section notes as success");
    assert!(matches!(err, NotesError::LlmUnavailable { .. }), "expected LlmUnavailable, got {err:?}");
    assert!(err.message().contains("unavailable"), "error message should be actionable; got: {}", err.message());
}

#[test]
fn llm_unavailable_counts_every_section() {
    let segments = vec![
        seg(0, 60_000, 0, "hello and welcome to the meeting"),
        seg(60_000, 120_000, 1, "let us discuss the quarterly roadmap"),
    ];
    let llm = FailingLlm::provider("down");
    let generator = NotesGenerator { llm: &llm, dialect: MarkdownDialect::Basic };
    match generator.generate(notes_input(segments, 120_000)) {
        Err(NotesError::LlmUnavailable { failed, total, last_error }) => {
            assert_eq!(failed, 2);
            assert_eq!(total, 2);
            assert_eq!(last_error, "provider: down");
        }
        other => panic!("expected LlmUnavailable, got {other:?}"),
    }
}

#[test]
fn verifier_replaces_section_narrative_when_llm_invents_speaker_id() {
    let segments = vec![seg(0, 60_000, 0, "hello and welcome to the meeting")];
    let section_prompt = build_section_narrative_prompt(&segments, MarkdownDialect::Basic, "en");
    let frontmatter_prompt =
        build_frontmatter_prompt(&[SectionSummary { title: "Section".into(), key_points: vec![] }], "en", 60_000);
    let mock = MockLlm::default()
        .with_response_for(
            section_prompt.system.as_deref(),
            &section_prompt.user,
            LlmResponse::Json(section_json("Welcome", "**speaker_99:** said something they did not say.", &[])),
        )
        .with_response_for(
            frontmatter_prompt.system.as_deref(),
            &frontmatter_prompt.user,
            LlmResponse::Json(frontmatter_json("Meeting", &[])),
        );
    let generator = NotesGenerator { llm: &mock, dialect: MarkdownDialect::Basic };
    let notes = generator.generate(notes_input(segments, 60_000)).expect("generate failed");
    assert_eq!(notes.sections.len(), 1);
    let body = &notes.sections[0].narrative_md;
    assert!(!body.contains("speaker_99"), "verifier should have stripped the bogus speaker; got: {body}");
    assert!(
        body.contains("verifier:") || body.contains("speaker_0:"),
        "fallback should emit a verifier marker and/or transcript dump; got: {body}"
    );
}

#[test]
fn frontmatter_llm_failure_falls_back_to_untitled() {
    let segments = vec![seg(0, 60_000, 0, "hello and welcome to the meeting")];
    let section_prompt = build_section_narrative_prompt(&segments, MarkdownDialect::Basic, "en");
    let frontmatter_prompt = build_frontmatter_prompt(
        &[SectionSummary { title: "Welcome".into(), key_points: vec!["meeting opened".into()] }],
        "en",
        60_000,
    );
    let mock = MockLlm::default()
        .with_response_for(
            section_prompt.system.as_deref(),
            &section_prompt.user,
            LlmResponse::Json(section_json(
                "Welcome",
                "The meeting opened with introductions.",
                &["meeting opened".to_string()],
            )),
        )
        .with_error_for(frontmatter_prompt.system.as_deref(), &frontmatter_prompt.user, "simulated timeout");
    let generator = NotesGenerator { llm: &mock, dialect: MarkdownDialect::Basic };
    let notes = generator.generate(notes_input(segments, 60_000)).expect("generate should not abort on frontmatter error");
    assert_eq!(notes.frontmatter.title, "Untitled meeting");
    assert!(notes.frontmatter.tags.is_empty());
    assert_eq!(notes.sections.len(), 1, "section content should still be present");
}

#[test]
fn screenshot_past_duration_is_clamped_to_last_section() {
    let segments = vec![seg(0, 60_000, 0, "hello and welcome to the meeting")];
    let mock = make_mock(&segments, 60_000);
    let generator = NotesGenerator { llm: &mock, dialect: MarkdownDialect::Basic };
    let mut input = notes_input(segments, 60_000);
    input.screenshots = vec![Screenshot { ms_since_start: 90_000, path: PathBuf::from("/tmp/late.jpg"), caption: None }];
    let notes = generator.generate(input).expect("generate failed");
    assert_eq!(notes.sections.len(), 1);
    let shots = &notes.sections[0].screenshots;
    assert_eq!(shots.len(), 1, "out-of-range screenshot should be preserved");
    assert_eq!(shots[0].ms_since_start, 60_000, "timestamp should be clamped to duration_ms");
}

#[test]
fn screenshot_with_duration_zero_passes_through_unclamped() {
    let segments = vec![seg(0, 60_000, 0, "hello and welcome to the meeting")];
    let mock = make_mock(&segments, 0);
    let generator = NotesGenerator { llm: &mock, dialect: MarkdownDialect::Basic };
    let mut input = notes_input(segments, 0);
    input.screenshots = vec![Screenshot { ms_since_start: 12_345, path: PathBuf::from("/tmp/img.jpg"), caption: None }];
    let notes = generator.generate(input).expect("generate failed");
    assert_eq!(notes.sections.len(), 1);
    let shots = &notes.sections[0].screenshots;
    assert_eq!(shots.len(), 1, "screenshot should be preserved");
    assert_eq!(shots[0].ms_since_start, 12_345, "timestamp must NOT be clamped to 0 when duration_ms == 0");
}

#[test]
fn section_outcome_follows_the_answer() {
    let segs = vec![seg(0, 1_000, 0, "hi there")];
    let allowed: HashSet<u32> = [0u32].into_iter().collect();
    let ok = section_outcome((0, 1_000), &segs, Ok(LlmResponse::Json(section_json("T", "speaker_0 spoke", &[]))), MarkdownDialect::Basic, &allowed);
    assert_eq!(ok.draft.title, "T");
    assert!(ok.llm_error.is_none());
    let bad = section_outcome((0, 1_000), &segs, Ok(LlmResponse::Json(section_json("T", "speaker_7 spoke", &[]))), MarkdownDialect::Basic, &allowed);
    assert_eq!(bad.draft.title, "Section");
    assert_eq!(bad.draft.narrative_md, "> panops: llm error: verifier: disallowed speaker reference\n\n**speaker_0:** hi there\n\n");
    let text = section_outcome((0, 1_000), &segs, Ok(LlmResponse::Text("x".into())), MarkdownDialect::NotionEnhanced, &allowed);
    assert!(text.draft.narrative_md.starts_with("<!-- panops: llm error: llm returned text, expected json -->\n\n"));
    assert!(text.llm_error.is_none());
    let err = section_outcome((0, 1_000), &segs, Err(LlmError::Network("timeout".into())), MarkdownDialect::Basic, &allowed);
    assert_eq!(err.llm_error.as_deref(), Some("network: timeout"));
    assert!(err.draft.narrative_md.starts_with("> panops: llm error: network: timeout\n\n"));
}

#[test]
fn frontmatter_outcome_defaults_without_json() {
    let (title, tags) = frontmatter_outcome(Ok(LlmResponse::Json(frontmatter_json("Sync", &["a", "b"]))));
    assert_eq!(title, "Sync");
    assert_eq!(tags, vec!["a", "b"]);
    let (title, tags) = frontmatter_outcome(Ok(LlmResponse::Json(obj(vec![("tags", JsonValue::Array(vec![s("x"), JsonValue::Null]))]))));
    assert_eq!(title, "Untitled meeting");
    assert_eq!(tags, vec!["x"]);
    let (title, tags) = frontmatter_outcome(Err(LlmError::Cancelled));
    assert_eq!(title, "Untitled meeting");
    assert!(tags.is_empty());
}

#[test]
fn unavailable_error_only_when_every_section_failed() {
    assert!(unavailable_error(&vec![]).is_none());
    assert!(unavailable_error(&vec![Some("down".to_owned()), None]).is_none());
    assert!(unavailable_error(&vec![None]).is_none());
    match unavailable_error(&vec![Some("first".to_owned()), Some("second".to_owned())]) {
        Some(NotesError::LlmUnavailable { failed, total, last_error }) => {
            assert_eq!((failed, total), (2, 2));
            assert_eq!(last_error, "second");
        },
        other => panic!("expected LlmUnavailable, got {other:?}"),
    }
}
