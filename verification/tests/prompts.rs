use panops_core::llm::{prompt_fingerprint, JsonValue, LlmRequest};
use panops_core::notes::dialect::MarkdownDialect;
use panops_core::notes::pipeline::{collect_speakers, dominant_language, rendered_llm_request_chars, unique_languages};
use panops_core::notes::prompts::{
    build_frontmatter_prompt, build_merge_section_prompt, build_section_narrative_prompt,
    estimate_transcript_chars, split_segments_for_chunking, SectionSummary,
};
use panops_core::segment::Segment;

fn seg(start: u64, end: u64, speaker: Option<u32>, text: &str) -> Segment {
    Segment {
        start_ms: start,
        end_ms: end,
        text: text.into(),
        language_detected: Some("en".into()),
        confidence_bits: 1.0f32.to_bits(),
        is_partial: false,
        speaker_id: speaker,
    }
}

fn s(t: &str) -> JsonValue {
    JsonValue::String(t.into())
}

fn obj(members: Vec<(&str, JsonValue)>) -> JsonValue {
    JsonValue::Object(members.into_iter().map(|(k, v)| (k.to_string(), v)).collect())
}

#[test]
fn section_narrative_prompt_includes_speaker_attribution_rule() {
    let segs = vec![seg(0, 5000, Some(0), "hello")];
    let p = build_section_narrative_prompt(&segs, MarkdownDialect::NotionEnhanced, "en");
    assert!(p.user.contains("speaker_id"));
    assert!(p.user.contains("passive voice"));
}

#[test]
fn section_narrative_prompt_includes_dialect_cheat_sheet() {
    let segs = vec![seg(0, 5000, Some(0), "hello")];
    let p = build_section_narrative_prompt(&segs, MarkdownDialect::NotionEnhanced, "en");
    assert!(p.user.contains("<callout"));
    let p = build_section_narrative_prompt(&segs, MarkdownDialect::Basic, "en");
    assert!(!p.user.contains("<callout"));
}

#[test]
fn section_narrative_prompt_renders_each_segment_with_speaker_id() {
    let segs = vec![seg(0, 5000, Some(0), "hello"), seg(5000, 10000, Some(1), "hi")];
    let p = build_section_narrative_prompt(&segs, MarkdownDialect::Basic, "en");
    assert!(p.user.contains("speaker_0"));
    assert!(p.user.contains("speaker_1"));
    assert!(p.user.contains("hello"));
    assert!(p.user.contains("hi"));
}

#[test]
fn section_narrative_prompt_includes_non_duplication_rule() {
    let segs = vec![seg(0, 5000, Some(0), "hello")];
    let p = build_section_narrative_prompt(&segs, MarkdownDialect::Basic, "en");
    assert!(p.user.contains("Non-duplication rule"));
    assert!(p.user.contains("must NOT restate the same facts"));
    assert!(p.user.contains("NO bullet lists"));
    assert!(p.user.contains("NOT in narrative_md"));
}

#[test]
fn section_narrative_prompt_fixes_temperature_tokens_and_schema() {
    let segs = vec![seg(0, 5000, None, "hello")];
    let p = build_section_narrative_prompt(&segs, MarkdownDialect::Basic, "es");
    assert_eq!(p.temperature_milli, 600);
    assert_eq!(p.max_tokens, 2048);
    assert!(p.schema.as_deref().unwrap().contains("\"narrative_md\""));
    assert!(p.user.contains("Output language: es"));
}

#[test]
fn frontmatter_prompt_includes_section_titles_and_key_points() {
    let summaries = vec![
        SectionSummary { title: "Intro".into(), key_points: vec!["one".into(), "two".into()] },
        SectionSummary { title: "Wrap".into(), key_points: vec![] },
    ];
    let p = build_frontmatter_prompt(&summaries, "en", 60_000);
    assert!(p.user.contains("Intro"));
    assert!(p.user.contains("Wrap"));
    assert!(p.user.contains("one"));
    assert!(p.user.contains("60000 ms"));
    assert_eq!(p.temperature_milli, 300);
    assert_eq!(p.max_tokens, 512);
}

#[test]
fn estimate_transcript_chars_counts_text_plus_overhead() {
    let segs = vec![seg(0, 5000, Some(0), "hello"), seg(5000, 10000, Some(1), "world")];
    assert_eq!(estimate_transcript_chars(&segs), 50);
}

#[test]
fn split_segments_returns_single_chunk_when_below_threshold() {
    let segs = vec![seg(0, 5000, Some(0), "short")];
    let chunks = split_segments_for_chunking(&segs, 100, 200);
    assert_eq!(chunks.len(), 1);
    assert_eq!(chunks[0].len(), 1);
}

#[test]
fn split_segments_splits_at_segment_boundaries() {
    let segs: Vec<Segment> = (0..10u32)
        .map(|i| seg(u64::from(i) * 5000, u64::from(i + 1) * 5000, Some(i % 2), "word word word word"))
        .collect();
    let chunks = split_segments_for_chunking(&segs, 80, 120);
    assert!(chunks.len() > 1, "should split into multiple chunks");
    let total_segments: usize = chunks.iter().map(|c| c.len()).sum();
    assert_eq!(total_segments, segs.len());
    let all_texts: Vec<_> = chunks.iter().flatten().map(|s| s.text.as_str()).collect();
    let expected: Vec<_> = segs.iter().map(|s| s.text.as_str()).collect();
    assert_eq!(all_texts, expected);
}

#[test]
fn split_segments_splits_at_speaker_change_after_target() {
    let segs = vec![
        seg(0, 5000, Some(0), "text text text text"),
        seg(5000, 10000, Some(1), "text text text text"),
    ];
    let chunks = split_segments_for_chunking(&segs, 30, 50);
    assert_eq!(chunks.len(), 2);
    assert_eq!(chunks[0].len(), 1);
    assert_eq!(chunks[1].len(), 1);
}

#[test]
fn split_segments_splits_at_gap_after_target() {
    let segs = vec![
        seg(0, 5000, Some(0), "text text text text"),
        seg(10_000, 15_000, Some(0), "text text text text"),
    ];
    let chunks = split_segments_for_chunking(&segs, 30, 50);
    assert_eq!(chunks.len(), 2);
}

#[test]
fn split_segments_of_nothing_is_no_chunks() {
    assert!(split_segments_for_chunking(&[], 30, 50).is_empty());
}

#[test]
fn build_merge_prompt_includes_all_chunk_summaries() {
    let summaries = vec![
        obj(vec![
            ("title", s("Part 1")),
            ("narrative_md", s("first part")),
            ("key_points", JsonValue::Array(vec![s("a")])),
            ("action_items", JsonValue::Array(vec![])),
        ]),
        obj(vec![
            ("title", s("Part 2")),
            ("narrative_md", s("second part")),
            ("key_points", JsonValue::Array(vec![s("b")])),
            (
                "action_items",
                JsonValue::Array(vec![obj(vec![("description", s("do it")), ("owner", JsonValue::Null)])]),
            ),
        ]),
    ];
    let p = build_merge_section_prompt(&summaries, MarkdownDialect::Basic, "en");
    assert!(p.user.contains("Part 1"));
    assert!(p.user.contains("Part 2"));
    assert!(p.user.contains("first part"));
    assert!(p.user.contains("second part"));
    assert!(p.user.contains("do it"));
}

#[test]
fn rendered_request_chars_count_every_part_in_utf8_bytes() {
    let req = LlmRequest {
        system: Some("ab".into()),
        user: "héllo".into(),
        schema: Some("{}".into()),
        temperature_milli: 0,
        max_tokens: 1,
    };
    assert_eq!(rendered_llm_request_chars(&req), 2 + 6 + 2);
    let bare = LlmRequest { system: None, user: String::new(), schema: None, temperature_milli: 0, max_tokens: 1 };
    assert_eq!(rendered_llm_request_chars(&bare), 0);
}

#[test]
fn prompt_fingerprint_depends_on_system_and_user() {
    let a = prompt_fingerprint(Some("sys"), "user");
    let b = prompt_fingerprint(Some("sys"), "user");
    let c = prompt_fingerprint(None, "user");
    let d = prompt_fingerprint(Some("sys"), "other");
    assert_eq!(a, b);
    assert_ne!(a, c);
    assert_ne!(a, d);
    assert_eq!(a.len(), 64);
    assert!(a.chars().all(|ch| ch.is_ascii_hexdigit() && !ch.is_ascii_uppercase()));
}

fn lang_seg(start: u64, lang: Option<&str>, speaker: Option<u32>) -> Segment {
    let mut s = seg(start, start + 1000, speaker, "x");
    s.language_detected = lang.map(String::from);
    s
}

#[test]
fn unique_languages_preserves_first_appearance_order() {
    let segs = vec![
        lang_seg(0, Some("en"), Some(0)),
        lang_seg(1000, Some("es"), Some(1)),
        lang_seg(2000, Some("en"), Some(0)),
        lang_seg(3000, Some("es"), Some(1)),
    ];
    assert_eq!(unique_languages(&segs), vec!["en", "es"]);
}

#[test]
fn unique_languages_defaults_to_en_when_none_detected() {
    let segs = vec![lang_seg(0, None, None)];
    assert_eq!(unique_languages(&segs), vec!["en"]);
}

#[test]
fn unique_languages_empty_transcript_defaults_to_en() {
    assert_eq!(unique_languages(&[]), vec!["en"]);
}

#[test]
fn dominant_language_is_the_most_frequent_or_en() {
    let segs = vec![
        lang_seg(0, Some("es"), None),
        lang_seg(1000, Some("en"), None),
        lang_seg(2000, Some("es"), None),
    ];
    assert_eq!(dominant_language(&segs), "es");
    assert_eq!(dominant_language(&[lang_seg(0, None, None)]), "en");
}

#[test]
fn collect_speakers_in_first_appearance_order() {
    let segs = vec![
        lang_seg(0, None, Some(2)),
        lang_seg(1000, None, None),
        lang_seg(2000, None, Some(0)),
        lang_seg(3000, None, Some(2)),
    ];
    assert_eq!(collect_speakers(&segs), vec!["speaker_2", "speaker_0"]);
}
