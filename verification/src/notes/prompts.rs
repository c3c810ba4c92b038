//! Prompt builders for the notes pipeline's model calls.

use vstd::prelude::*;

use crate::llm::{member_actions, member_text, member_texts, JsonModel, JsonValue, LlmRequest};
use crate::notes::dialect::{cheat_sheet_of, MarkdownDialect};
use crate::notes::raw_transcript::{push_speaker_label, speaker_label};
use crate::segment::Segment;
use crate::text::{decimal, push_decimal, push_right_aligned, push_str, right_aligned};
use vstd::utf8::encode_utf8;

verus! {

/// Sampling temperature of the section-narrative and merge calls, in
/// thousandths (0.6).
pub const SECTION_NARRATIVE_TEMPERATURE_MILLI: u32 = 600;

/// Sampling temperature of the frontmatter call, in thousandths (0.3).
pub const FRONTMATTER_TEMPERATURE_MILLI: u32 = 300;

pub const SECTION_NARRATIVE_MAX_TOKENS: u32 = 2048;

pub const FRONTMATTER_MAX_TOKENS: u32 = 512;

/// Context budget of one call, in characters. A small model has about 4k
/// tokens; at about 4 characters a token, 8000 characters leave room for
/// the answer. A section whose rendered prompt exceeds it is split.
pub const SECTION_CHUNK_THRESHOLD_CHARS: usize = 8000;

/// Target size of each sub-chunk of a long section: half the threshold,
/// leaving room for the merge prompt.
pub const SECTION_CHUNK_TARGET_CHARS: usize = 4000;

/// Estimated characters a rendered transcript line adds to its text
/// (`[XXXX–YYYYs] speaker_N: ` and the line feed).
pub const SEGMENT_LINE_OVERHEAD: usize = 20;

/// A silence longer than this is a natural chunk boundary.
pub const SPLIT_GAP_THRESHOLD_MS: u64 = 2000;

/// A compact summary of a section, fed to the frontmatter prompt.
#[derive(Debug, Clone)]
pub struct SectionSummary {
    pub title: String,
    pub key_points: Vec<String>,
}

/// System prompt of the section-narrative and merge calls.
pub const SECTION_NARRATIVE_SYSTEM: &'static str = "You are an expert meeting-notes writer. You receive a diarized transcript\nsection and produce a structured narrative summary. You write in clear,\nneutral prose. You NEVER attribute a quote or statement to a specific speaker\nunless that segment carries a confirmed speaker_id from diarization. When\nattribution is ambiguous, write in passive voice (\"the team discussed\", \"a\nconcern was raised\", \"it was proposed that\"). You return a single JSON object\nwith the schema you are given.";

/// System prompt of the frontmatter call.
pub const FRONTMATTER_SYSTEM: &'static str = "You are an expert meeting-notes editor. You receive a list of section titles\nand key points and produce a meeting title and tag list. Title is concise\n(<=80 chars), descriptive, neutral. Tags are lowercase kebab-case, max 10,\nfactual (no marketing). You return a single JSON object with the schema you\nare given.";

/// Section-narrative user prompt, before the transcript.
pub const SECTION_USER_HEAD: &'static str = "Section transcript (diarized; speaker_X is a stable label per voice):\n\n";

/// ... between the transcript and the cheat sheet.
pub const SECTION_USER_AFTER_TRANSCRIPT: &'static str = "\nMarkdown dialect for `narrative_md`:\n";

/// ... between the cheat sheet and the language.
pub const SECTION_USER_AFTER_CHEAT: &'static str = "\nOutput language: ";

/// ... after the language: the rules and the expected JSON shape.
pub const SECTION_USER_TAIL: &'static str = "\n\nSpeaker attribution rule (STRICT): never attribute a quote to a speaker_id\nthat does not appear in the transcript. When in doubt, use passive voice.\n\nNon-duplication rule (STRICT): `narrative_md`, `key_points`, and `action_items`\nmust NOT restate the same facts in different shapes. They are three\ndistinct views of the section:\n- `narrative_md`: connective prose — context, who arrived/left, how the\nconversation moved, transitions between topics, mood/tone where it\nmatters. NO bullet lists. NO embedded \"Key points:\" or \"Action items:\"\nsections. Do NOT restate the bullets in prose form.\n- `key_points`: durable takeaways the reader scans for later — facts,\nnumbers, decisions, named outcomes. Punchy and self-contained. Each\nbullet is a fact that does NOT appear (in any paraphrase) in\n`narrative_md`.\n- `action_items`: explicit commitments — \"who will do what by when\".\nA commitment that is also a key takeaway belongs HERE, not in\n`key_points`. Owner is a speaker_id (or null when unassigned).\n\nReturn JSON matching exactly:\n{\n  \"title\": \"string (descriptive, <80 chars)\",\n  \"narrative_md\": \"string (prose only — no bullets — in the dialect above; up to 400 words, scaled to section length)\",\n  \"key_points\": [\"string\", ...] (0–6 short bullets, each a fact NOT in narrative_md),\n  \"action_items\": [{\"description\": \"string\", \"owner\": \"speaker_0\"}] or [{\"description\": \"string\", \"owner\": null}]\n}";

/// Frontmatter user prompt, before the section summaries.
pub const FRONTMATTER_USER_HEAD: &'static str = "Section summaries:\n\n";

/// ... between the summaries and the language.
pub const FRONTMATTER_USER_AFTER_SUMMARIES: &'static str = "\nMeeting language: ";

/// ... between the language and the duration.
pub const FRONTMATTER_USER_AFTER_LANGUAGE: &'static str = "\nMeeting duration: ";

/// ... after the duration: the expected JSON shape.
pub const FRONTMATTER_USER_TAIL: &'static str = " ms\n\nReturn JSON matching exactly:\n{\n  \"title\": \"string (<=80 chars, descriptive)\",\n  \"tags\": [\"lowercase-kebab-case\", ...] (max 10)\n}";

/// Merge user prompt, before the chunk summaries.
pub const MERGE_USER_HEAD: &'static str = "Sub-chunk summaries (ordered chronologically):\n\n";

/// ... between the summaries and the cheat sheet.
pub const MERGE_USER_AFTER_SUMMARIES: &'static str = "\nMarkdown dialect for `narrative_md`:\n";

/// ... between the cheat sheet and the language.
pub const MERGE_USER_AFTER_CHEAT: &'static str = "\nOutput language: ";

/// ... after the language: the merge rules and the expected JSON shape.
pub const MERGE_USER_TAIL: &'static str = "\n\nMerge these sub-chunks into a single unified section summary.\n- Combine narratives into flowing prose (no bullet lists).\n- Deduplicate key_points: keep distinct facts, merge overlapping.\n- Deduplicate action_items: keep distinct commitments.\n- Title should represent the unified theme.\n\nReturn JSON matching exactly:\n{\n  \"title\": \"string (descriptive, <80 chars)\",\n  \"narrative_md\": \"string (prose only, in the dialect above)\",\n  \"key_points\": [\"string\", ...],\n  \"action_items\": [{\"description\": \"string\", \"owner\": \"speaker_0\"}] or [{\"description\": \"string\", \"owner\": null}]\n}";

/// Compact JSON schema of a section narrative (keys in order).
pub const SECTION_NARRATIVE_SCHEMA: &'static str = "{\"properties\":{\"action_items\":{\"items\":{\"properties\":{\"description\":{\"type\":\"string\"},\"owner\":{\"type\":[\"string\",\"null\"]}},\"required\":[\"description\"],\"type\":\"object\"},\"type\":\"array\"},\"key_points\":{\"items\":{\"type\":\"string\"},\"type\":\"array\"},\"narrative_md\":{\"type\":\"string\"},\"title\":{\"type\":\"string\"}},\"required\":[\"title\",\"narrative_md\",\"key_points\",\"action_items\"],\"type\":\"object\"}";

/// Compact JSON schema of the frontmatter (keys in order).
pub const FRONTMATTER_SCHEMA: &'static str = "{\"properties\":{\"tags\":{\"items\":{\"type\":\"string\"},\"type\":\"array\"},\"title\":{\"type\":\"string\"}},\"required\":[\"title\",\"tags\"],\"type\":\"object\"}";

// ---- transcript rendering ----------------------------------------------

/// `[ssss–eeees] label: text` and a line feed (seconds right-aligned in
/// four columns).
pub open spec fn transcript_line(s: Segment) -> Seq<char> {
    "["@ + right_aligned((s.start_ms / 1000) as nat, 4) + "–"@ + right_aligned(
        (s.end_ms / 1000) as nat,
        4,
    ) + "s] "@ + speaker_label(s.speaker_id) + ": "@ + s.text@ + "\n"@
}

/// The transcript lines of `segs`.
pub open spec fn rendered_transcript(segs: Seq<Segment>) -> Seq<char>
    decreases segs.len(),
{
    if segs.len() == 0 {
        Seq::empty()
    } else {
        rendered_transcript(segs.drop_last()) + transcript_line(segs.last())
    }
}

fn push_transcript_line(out: &mut String, s: &Segment)
    ensures
        final(out)@ == old(out)@ + transcript_line(*s),
{
    let ghost start = out@;
    push_str(out, "[");
    push_right_aligned(out, s.start_ms / 1000, 4);
    push_str(out, "–");
    push_right_aligned(out, s.end_ms / 1000, 4);
    push_str(out, "s] ");
    push_speaker_label(out, s.speaker_id);
    push_str(out, ": ");
    push_str(out, s.text.as_str());
    push_str(out, "\n");
    assert(out@ =~= start + transcript_line(*s));
}

fn push_transcript(out: &mut String, segments: &[Segment])
    ensures
        final(out)@ == old(out)@ + rendered_transcript(segments@),
{
    let ghost start = out@;
    let mut i: usize = 0;
    while i < segments.len()
        invariant
            i <= segments.len(),
            out@ == start + rendered_transcript(segments@.take(i as int)),
        decreases segments.len() - i,
    {
        assert(segments@.take(i + 1).drop_last() =~= segments@.take(i as int));
        push_transcript_line(out, &segments[i]);
        i = i + 1;
        assert(out@ =~= start + rendered_transcript(segments@.take(i as int)));
    }
    assert(segments@.take(i as int) =~= segments@);
}

// ---- section narrative --------------------------------------------------

/// The user prompt of a section-narrative call.
pub open spec fn section_user(segs: Seq<Segment>, dialect: MarkdownDialect, language: Seq<char>) -> Seq<
    char,
> {
    SECTION_USER_HEAD@ + rendered_transcript(segs) + SECTION_USER_AFTER_TRANSCRIPT@ + cheat_sheet_of(
        dialect,
    ) + SECTION_USER_AFTER_CHEAT@ + language + SECTION_USER_TAIL@
}

/// The request of a section-narrative call over `segs`.
pub open spec fn is_section_request(r: LlmRequest, segs: Seq<Segment>, dialect: MarkdownDialect, language: Seq<char>) -> bool {
    &&& r.system is Some
    &&& r.system->0@ == SECTION_NARRATIVE_SYSTEM@
    &&& r.user@ == section_user(segs, dialect, language)
    &&& r.schema is Some
    &&& r.schema->0@ == SECTION_NARRATIVE_SCHEMA@
    &&& r.temperature_milli == SECTION_NARRATIVE_TEMPERATURE_MILLI
    &&& r.max_tokens == SECTION_NARRATIVE_MAX_TOKENS
}

/// The request that asks for one section's narrative: its transcript, the
/// dialect's cheat sheet, the output language, the attribution and
/// non-duplication rules, and the JSON shape to return.
pub fn build_section_narrative_prompt(
    segments: &[Segment],
    dialect: MarkdownDialect,
    language: &str,
) -> (r: LlmRequest)
    ensures
        is_section_request(r, segments@, dialect, language@),
{
    let mut user = String::new();
    push_str(&mut user, SECTION_USER_HEAD);
    push_transcript(&mut user, segments);
    push_str(&mut user, SECTION_USER_AFTER_TRANSCRIPT);
    push_str(&mut user, dialect.cheat_sheet());
    push_str(&mut user, SECTION_USER_AFTER_CHEAT);
    push_str(&mut user, language);
    push_str(&mut user, SECTION_USER_TAIL);
    LlmRequest {
        system: Some(SECTION_NARRATIVE_SYSTEM.to_owned()),
        user,
        schema: Some(SECTION_NARRATIVE_SCHEMA.to_owned()),
        temperature_milli: SECTION_NARRATIVE_TEMPERATURE_MILLI,
        max_tokens: SECTION_NARRATIVE_MAX_TOKENS,
    }
}

// ---- frontmatter --------------------------------------------------------

/// `  - {kp}` lines of key points.
pub open spec fn key_point_lines(kps: Seq<String>) -> Seq<char>
    decreases kps.len(),
{
    if kps.len() == 0 {
        Seq::empty()
    } else {
        key_point_lines(kps.drop_last()) + "  - "@ + kps.last()@ + "\n"@
    }
}

/// `Section {n}: {title}` and its key points, for each summary.
pub open spec fn summaries_block(sums: Seq<SectionSummary>) -> Seq<char>
    decreases sums.len(),
{
    if sums.len() == 0 {
        Seq::empty()
    } else {
        summaries_block(sums.drop_last()) + "Section "@ + decimal(sums.len()) + ": "@
            + sums.last().title@ + "\n"@ + key_point_lines(sums.last().key_points@)
    }
}

/// The user prompt of the frontmatter call.
pub open spec fn frontmatter_user(sums: Seq<SectionSummary>, language: Seq<char>, duration_ms: u64) -> Seq<
    char,
> {
    FRONTMATTER_USER_HEAD@ + summaries_block(sums) + FRONTMATTER_USER_AFTER_SUMMARIES@ + language
        + FRONTMATTER_USER_AFTER_LANGUAGE@ + decimal(duration_ms as nat) + FRONTMATTER_USER_TAIL@
}

fn push_key_points(out: &mut String, kps: &Vec<String>)
    ensures
        final(out)@ == old(out)@ + key_point_lines(kps@),
{
    let ghost start = out@;
    let mut i: usize = 0;
    while i < kps.len()
        invariant
            i <= kps.len(),
            out@ == start + key_point_lines(kps@.take(i as int)),
        decreases kps.len() - i,
    {
        assert(kps@.take(i + 1).drop_last() =~= kps@.take(i as int));
        push_str(out, "  - ");
        push_str(out, kps[i].as_str());
        push_str(out, "\n");
        i = i + 1;
        assert(out@ =~= start + key_point_lines(kps@.take(i as int)));
    }
    assert(kps@.take(i as int) =~= kps@);
}

/// The request that asks for the meeting title and tags, from the section
/// summaries, the language and the duration.
pub fn build_frontmatter_prompt(summaries: &[SectionSummary], language: &str, duration_ms: u64) -> (r:
    LlmRequest)
    ensures
        r.system is Some,
        r.system->0@ == FRONTMATTER_SYSTEM@,
        r.user@ == frontmatter_user(summaries@, language@, duration_ms),
        r.schema is Some,
        r.schema->0@ == FRONTMATTER_SCHEMA@,
        r.temperature_milli == FRONTMATTER_TEMPERATURE_MILLI,
        r.max_tokens == FRONTMATTER_MAX_TOKENS,
{
    let mut user = String::new();
    push_str(&mut user, FRONTMATTER_USER_HEAD);
    let ghost start = user@;
    let mut i: usize = 0;
    while i < summaries.len()
        invariant
            i <= summaries.len(),
            user@ == start + summaries_block(summaries@.take(i as int)),
        decreases summaries.len() - i,
    {
        assert(summaries@.take(i + 1).drop_last() =~= summaries@.take(i as int));
        push_str(&mut user, "Section ");
        push_decimal(&mut user, (i + 1) as u64);
        push_str(&mut user, ": ");
        push_str(&mut user, summaries[i].title.as_str());
        push_str(&mut user, "\n");
        push_key_points(&mut user, &summaries[i].key_points);
        i = i + 1;
        assert(user@ =~= start + summaries_block(summaries@.take(i as int)));
    }
    assert(summaries@.take(i as int) =~= summaries@);
    push_str(&mut user, FRONTMATTER_USER_AFTER_SUMMARIES);
    push_str(&mut user, language);
    push_str(&mut user, FRONTMATTER_USER_AFTER_LANGUAGE);
    push_decimal(&mut user, duration_ms);
    push_str(&mut user, FRONTMATTER_USER_TAIL);
    LlmRequest {
        system: Some(FRONTMATTER_SYSTEM.to_owned()),
        user,
        schema: Some(FRONTMATTER_SCHEMA.to_owned()),
        temperature_milli: FRONTMATTER_TEMPERATURE_MILLI,
        max_tokens: FRONTMATTER_MAX_TOKENS,
    }
}


// ---- merge --------------------------------------------------------------

/// `  Key point: {kp}` lines.
pub open spec fn chunk_key_point_lines(kps: Seq<Seq<char>>) -> Seq<char>
    decreases kps.len(),
{
    if kps.len() == 0 {
        Seq::empty()
    } else {
        chunk_key_point_lines(kps.drop_last()) + "  Key point: "@ + kps.last() + "\n"@
    }
}

/// The owner of an action item, or `unassigned`.
pub open spec fn owner_or_unassigned(o: Option<Seq<char>>) -> Seq<char> {
    match o {
        Some(t) => t,
        None => "unassigned"@,
    }
}

/// `  Action: - {description} (owner: {owner})` lines.
pub open spec fn chunk_action_lines(acts: Seq<(Seq<char>, Option<Seq<char>>)>) -> Seq<char>
    decreases acts.len(),
{
    if acts.len() == 0 {
        Seq::empty()
    } else {
        chunk_action_lines(acts.drop_last()) + "  Action: - "@ + acts.last().0 + " (owner: "@
            + owner_or_unassigned(acts.last().1) + ")\n"@
    }
}

/// A text member, or `default` when there is none.
pub open spec fn text_or(v: JsonModel, key: Seq<char>, default: Seq<char>) -> Seq<char> {
    match member_text(v, key) {
        Some(t) => t,
        None => default,
    }
}

/// The block of chunk summary `n` (counted from 1).
pub open spec fn chunk_block(v: JsonModel, n: nat) -> Seq<char> {
    "Chunk "@ + decimal(n) + ":\n"@ + "  Title: "@ + text_or(v, "title"@, "Untitled chunk"@) + "\n"@
        + "  Narrative: "@ + text_or(v, "narrative_md"@, Seq::empty()) + "\n"@
        + chunk_key_point_lines(member_texts(v, "key_points"@)) + chunk_action_lines(
        member_actions(v, "action_items"@),
    ) + "\n"@
}

/// The blocks of all chunk summaries, in order.
pub open spec fn chunks_block(vs: Seq<JsonModel>) -> Seq<char>
    decreases vs.len(),
{
    if vs.len() == 0 {
        Seq::empty()
    } else {
        chunks_block(vs.drop_last()) + chunk_block(vs.last(), vs.len())
    }
}

/// The user prompt of a merge call.
pub open spec fn merge_user(vs: Seq<JsonModel>, dialect: MarkdownDialect, language: Seq<char>) -> Seq<
    char,
> {
    MERGE_USER_HEAD@ + chunks_block(vs) + MERGE_USER_AFTER_SUMMARIES@ + cheat_sheet_of(dialect)
        + MERGE_USER_AFTER_CHEAT@ + language + MERGE_USER_TAIL@
}

/// The request of a merge call over the chunk summaries `vs`.
pub open spec fn is_merge_request(r: LlmRequest, vs: Seq<JsonModel>, dialect: MarkdownDialect, language: Seq<char>) -> bool {
    &&& r.system is Some
    &&& r.system->0@ == SECTION_NARRATIVE_SYSTEM@
    &&& r.user@ == merge_user(vs, dialect, language)
    &&& r.schema is Some
    &&& r.schema->0@ == SECTION_NARRATIVE_SCHEMA@
    &&& r.temperature_milli == SECTION_NARRATIVE_TEMPERATURE_MILLI
    &&& r.max_tokens == SECTION_NARRATIVE_MAX_TOKENS
}

/// The models of a run of JSON values.
pub open spec fn json_models(vs: Seq<JsonValue>) -> Seq<JsonModel> {
    vs.map_values(|v: JsonValue| v@)
}

fn push_chunk_key_points(out: &mut String, v: &JsonValue)
    ensures
        final(out)@ == old(out)@ + chunk_key_point_lines(member_texts(v@, "key_points"@)),
{
    let ghost mid = out@;
    let kps = crate::llm::texts_member(v, "key_points");
    let ghost kv = kps@.map_values(|t: String| t@);
    let mut i: usize = 0;
    while i < kps.len()
        invariant
            i <= kps.len(),
            kv == kps@.map_values(|t: String| t@),
            out@ == mid + chunk_key_point_lines(kv.take(i as int)),
        decreases kps.len() - i,
    {
        assert(kv.take(i + 1).drop_last() =~= kv.take(i as int));
        push_str(out, "  Key point: ");
        push_str(out, kps[i].as_str());
        push_str(out, "\n");
        i = i + 1;
        assert(out@ =~= mid + chunk_key_point_lines(kv.take(i as int)));
    }
    assert(kv.take(i as int) =~= kv);
}

fn push_chunk_actions(out: &mut String, v: &JsonValue)
    ensures
        final(out)@ == old(out)@ + chunk_action_lines(member_actions(v@, "action_items"@)),
{
    let ghost mid2 = out@;
    let acts = crate::llm::actions_member(v, "action_items");
    let ghost av = acts@.map_values(
        |a: (String, Option<String>)| (a.0@, crate::storage::opt_view(a.1)),
    );
    let mut j: usize = 0;
    while j < acts.len()
        invariant
            j <= acts.len(),
            av == acts@.map_values(
                |a: (String, Option<String>)| (a.0@, crate::storage::opt_view(a.1)),
            ),
            out@ == mid2 + chunk_action_lines(av.take(j as int)),
        decreases acts.len() - j,
    {
        assert(av.take(j + 1).drop_last() =~= av.take(j as int));
        push_str(out, "  Action: - ");
        push_str(out, acts[j].0.as_str());
        push_str(out, " (owner: ");
        match &acts[j].1 {
            Some(o) => push_str(out, o.as_str()),
            None => push_str(out, "unassigned"),
        }
        push_str(out, ")\n");
        j = j + 1;
        assert(out@ =~= mid2 + chunk_action_lines(av.take(j as int)));
    }
    assert(av.take(j as int) =~= av);
}

/// The lines of a chunk block before its key points.
pub open spec fn chunk_head(v: JsonModel, n: nat) -> Seq<char> {
    "Chunk "@ + decimal(n) + ":\n"@ + "  Title: "@ + text_or(v, "title"@, "Untitled chunk"@) + "\n"@
        + "  Narrative: "@ + text_or(v, "narrative_md"@, Seq::empty()) + "\n"@
}

fn push_chunk_head(out: &mut String, v: &JsonValue, n: usize)
    ensures
        final(out)@ == old(out)@ + chunk_head(v@, n as nat),
{
    let ghost start = out@;
    push_str(out, "Chunk ");
    push_decimal(out, n as u64);
    push_str(out, ":\n");
    push_str(out, "  Title: ");
    match crate::llm::text_member(v, "title") {
        Some(t) => push_str(out, t.as_str()),
        None => push_str(out, "Untitled chunk"),
    }
    push_str(out, "\n");
    push_str(out, "  Narrative: ");
    match crate::llm::text_member(v, "narrative_md") {
        Some(t) => push_str(out, t.as_str()),
        None => {},
    }
    push_str(out, "\n");
    assert(out@ =~= start + chunk_head(v@, n as nat));
}

fn push_chunk_block(out: &mut String, v: &JsonValue, n: usize)
    ensures
        final(out)@ == old(out)@ + chunk_block(v@, n as nat),
{
    let ghost start = out@;
    push_chunk_head(out, v, n);
    push_chunk_key_points(out, v);
    push_chunk_actions(out, v);
    push_str(out, "\n");
    assert(out@ =~= start + chunk_block(v@, n as nat));
}

/// The merge request over `vs[lo..hi]`, numbering chunks from 1.
pub fn build_merge_section_prompt_range(
    vs: &[JsonValue],
    lo: usize,
    hi: usize,
    dialect: MarkdownDialect,
    language: &str,
) -> (r: LlmRequest)
    requires
        lo <= hi <= vs@.len(),
    ensures
        is_merge_request(r, json_models(vs@.subrange(lo as int, hi as int)), dialect, language@),
{
    let ghost part = json_models(vs@.subrange(lo as int, hi as int));
    let mut user = String::new();
    push_str(&mut user, MERGE_USER_HEAD);
    let ghost start = user@;
    let mut i: usize = lo;
    while i < hi
        invariant
            lo <= i <= hi <= vs@.len(),
            part == json_models(vs@.subrange(lo as int, hi as int)),
            user@ == start + chunks_block(part.take(i - lo)),
        decreases hi - i,
    {
        assert(part.take(i - lo + 1).drop_last() =~= part.take(i - lo));
        assert(part.take(i - lo + 1).last() == vs@[i as int]@);
        push_chunk_block(&mut user, &vs[i], i - lo + 1);
        i = i + 1;
    }
    assert(part.take(hi - lo) =~= part);
    push_str(&mut user, MERGE_USER_AFTER_SUMMARIES);
    push_str(&mut user, dialect.cheat_sheet());
    push_str(&mut user, MERGE_USER_AFTER_CHEAT);
    push_str(&mut user, language);
    push_str(&mut user, MERGE_USER_TAIL);
    LlmRequest {
        system: Some(SECTION_NARRATIVE_SYSTEM.to_owned()),
        user,
        schema: Some(SECTION_NARRATIVE_SCHEMA.to_owned()),
        temperature_milli: SECTION_NARRATIVE_TEMPERATURE_MILLI,
        max_tokens: SECTION_NARRATIVE_MAX_TOKENS,
    }
}

/// The request that merges chunk summaries (in order) into one section
/// summary: each chunk's title, narrative, key points and action items,
/// the cheat sheet, the language, and the merge rules.
pub fn build_merge_section_prompt(
    chunk_summaries: &[JsonValue],
    dialect: MarkdownDialect,
    language: &str,
) -> (r: LlmRequest)
    ensures
        is_merge_request(r, json_models(chunk_summaries@), dialect, language@),
{
    let r = build_merge_section_prompt_range(chunk_summaries, 0, chunk_summaries.len(), dialect, language);
    assert(chunk_summaries@.subrange(0, chunk_summaries@.len() as int) =~= chunk_summaries@);
    r
}


// ---- sizes and chunking -------------------------------------------------

/// The estimated rendered size of one transcript line: the text's UTF-8
/// length plus the line overhead.
pub open spec fn line_estimate(s: Segment) -> nat {
    encode_utf8(s.text@).len() + SEGMENT_LINE_OVERHEAD as nat
}

/// The estimated rendered size of a transcript.
pub open spec fn transcript_estimate(segs: Seq<Segment>) -> nat
    decreases segs.len(),
{
    if segs.len() == 0 {
        0
    } else {
        transcript_estimate(segs.drop_last()) + line_estimate(segs.last())
    }
}

proof fn lemma_estimate_prefix(segs: Seq<Segment>, i: int)
    requires
        0 <= i <= segs.len(),
    ensures
        transcript_estimate(segs.take(i)) <= transcript_estimate(segs),
    decreases segs.len() - i,
{
    if i < segs.len() {
        lemma_estimate_prefix(segs, i + 1);
        assert(segs.take(i + 1).drop_last() =~= segs.take(i));
    } else {
        assert(segs.take(i) =~= segs);
    }
}

/// The estimated size of one segment's line.
fn line_chars(s: &Segment) -> (r: usize)
    requires
        line_estimate(*s) <= usize::MAX,
    ensures
        r == line_estimate(*s),
{
    s.text.as_str().len() + SEGMENT_LINE_OVERHEAD
}

/// The estimated character count of the rendered transcript of
/// `segments`: each segment's text length (in UTF-8 bytes) plus 20 for its
/// line overhead.
pub fn estimate_transcript_chars(segments: &[Segment]) -> (r: usize)
    requires
        transcript_estimate(segments@) <= usize::MAX,
    ensures
        r == transcript_estimate(segments@),
{
    let mut total: usize = 0;
    let mut i: usize = 0;
    while i < segments.len()
        invariant
            i <= segments.len(),
            transcript_estimate(segments@) <= usize::MAX,
            total == transcript_estimate(segments@.take(i as int)),
        decreases segments.len() - i,
    {
        assert(segments@.take(i + 1).drop_last() =~= segments@.take(i as int));
        proof {
            lemma_estimate_prefix(segments@, i + 1);
        }
        total = total + line_chars(&segments[i]);
        i = i + 1;
    }
    assert(segments@.take(i as int) =~= segments@);
    total
}

/// The state of the chunking walk: closed chunks, the open chunk, and the
/// open chunk's estimated size.
pub type ChunkState = (Seq<Seq<Segment>>, Seq<Segment>, nat);

/// Closes the open chunk.
pub open spec fn flush(st: ChunkState) -> ChunkState {
    (st.0.push(st.1), Seq::empty(), 0)
}

/// One segment of the walk: close the open chunk when the segment would
/// overflow `max_chars`; else, once the open chunk reached `target_chars`,
/// close it at a silence longer than 2 s or a change of speaker; then add
/// the segment.
pub open spec fn chunk_step(st: ChunkState, s: Segment, target_chars: nat, max_chars: nat) -> ChunkState {
    let c = line_estimate(s);
    let st1 = if st.2 + c > max_chars && st.1.len() > 0 {
        flush(st)
    } else {
        st
    };
    let st2 = if st1.2 >= target_chars && st1.1.len() > 0 {
        let prev = st1.1.last();
        let gap: int = if s.start_ms >= prev.end_ms {
            s.start_ms - prev.end_ms
        } else {
            0
        };
        if gap > SPLIT_GAP_THRESHOLD_MS || s.speaker_id != prev.speaker_id {
            flush(st1)
        } else {
            st1
        }
    } else {
        st1
    };
    (st2.0, st2.1.push(s), st2.2 + c)
}

/// The walk over `segs`.
pub open spec fn chunk_walk(segs: Seq<Segment>, target_chars: nat, max_chars: nat) -> ChunkState
    decreases segs.len(),
{
    if segs.len() == 0 {
        (Seq::empty(), Seq::empty(), 0)
    } else {
        chunk_step(chunk_walk(segs.drop_last(), target_chars, max_chars), segs.last(), target_chars, max_chars)
    }
}

/// The chunks of `segs`: none for no segments, one when the transcript
/// fits in `max_chars`, else the walk's chunks and its last open chunk.
pub open spec fn split_chunks(segs: Seq<Segment>, target_chars: nat, max_chars: nat) -> Seq<Seq<Segment>> {
    if segs.len() == 0 {
        Seq::empty()
    } else if transcript_estimate(segs) <= max_chars {
        seq![segs]
    } else {
        let st = chunk_walk(segs, target_chars, max_chars);
        if st.1.len() > 0 {
            st.0.push(st.1)
        } else {
            st.0
        }
    }
}

/// The contents of nested vectors.
pub open spec fn chunks_view(v: Seq<Vec<Segment>>) -> Seq<Seq<Segment>> {
    v.map_values(|c: Vec<Segment>| c@)
}

/// Copies the segments.
fn copy_segments(segments: &[Segment]) -> (r: Vec<Segment>)
    ensures
        r@ == segments@,
{
    let mut out: Vec<Segment> = Vec::new();
    let mut i: usize = 0;
    while i < segments.len()
        invariant
            i <= segments.len(),
            out@ == segments@.take(i as int),
        decreases segments.len() - i,
    {
        out.push(segments[i].duplicate());
        assert(out@ =~= segments@.take(i + 1));
        i = i + 1;
    }
    assert(segments@.take(i as int) =~= segments@);
    out
}

/// Splits `segments` into ordered chunks at segment boundaries, each aimed
/// at `target_chars` and kept within `max_chars` where a segment boundary
/// allows (a segment larger than `max_chars` stays alone). A transcript that
/// fits in `max_chars` is one chunk.
pub fn split_segments_for_chunking(segments: &[Segment], target_chars: usize, max_chars: usize) -> (r:
    Vec<Vec<Segment>>)
    requires
        transcript_estimate(segments@) <= usize::MAX,
    ensures
        chunks_view(r@) == split_chunks(segments@, target_chars as nat, max_chars as nat),
{
    if segments.len() == 0 {
        let out: Vec<Vec<Segment>> = Vec::new();
        assert(chunks_view(out@) =~= Seq::<Seq<Segment>>::empty());
        return out;
    }
    let total = estimate_transcript_chars(segments);
    if total <= max_chars {
        let mut out: Vec<Vec<Segment>> = Vec::new();
        out.push(copy_segments(segments));
        assert(chunks_view(out@) =~= seq![segments@]);
        return out;
    }
    let ghost t = target_chars as nat;
    let ghost m = max_chars as nat;
    let mut chunks: Vec<Vec<Segment>> = Vec::new();
    let mut current: Vec<Segment> = Vec::new();
    let mut current_chars: usize = 0;
    let mut i: usize = 0;
    while i < segments.len()
        invariant
            i <= segments.len(),
            t == target_chars as nat,
            m == max_chars as nat,
            transcript_estimate(segments@) <= usize::MAX,
            chunk_walk(segments@.take(i as int), t, m) == (
                chunks_view(chunks@),
                current@,
                current_chars as nat,
            ),
            current_chars <= transcript_estimate(segments@.take(i as int)),
        decreases segments.len() - i,
    {
        let ghost st0 = chunk_walk(segments@.take(i as int), t, m);
        assert(segments@.take(i + 1).drop_last() =~= segments@.take(i as int));
        proof {
            lemma_estimate_prefix(segments@, i + 1);
        }
        let seg = &segments[i];
        let c = line_chars(seg);
        if current_chars + c > max_chars && current.len() > 0 {
            let mut done: Vec<Segment> = Vec::new();
            std::mem::swap(&mut done, &mut current);
            chunks.push(done);
            current_chars = 0;
        }
        if current_chars >= target_chars && current.len() > 0 {
            let prev_end = current[current.len() - 1].end_ms;
            let prev_speaker = current[current.len() - 1].speaker_id;
            let gap: u64 = if seg.start_ms >= prev_end {
                seg.start_ms - prev_end
            } else {
                0
            };
            if gap > SPLIT_GAP_THRESHOLD_MS || seg.speaker_id != prev_speaker {
                let mut done: Vec<Segment> = Vec::new();
                std::mem::swap(&mut done, &mut current);
                chunks.push(done);
                current_chars = 0;
            }
        }
        current.push(seg.duplicate());
        current_chars = current_chars + c;
        i = i + 1;
        assert(chunks_view(chunks@) =~= chunk_walk(segments@.take(i as int), t, m).0);
    }
    assert(segments@.take(i as int) =~= segments@);
    if current.len() > 0 {
        chunks.push(current);
    }
    chunks
}


/// A chunk fits the budget, or is a single segment that cannot be split.
pub open spec fn chunk_fits(c: Seq<Segment>, max_chars: nat) -> bool {
    transcript_estimate(c) <= max_chars || c.len() == 1
}

proof fn lemma_estimate_push(c: Seq<Segment>, s: Segment)
    ensures
        transcript_estimate(c.push(s)) == transcript_estimate(c) + line_estimate(s),
{
    assert(c.push(s).drop_last() =~= c);
}

proof fn lemma_chunk_walk(segs: Seq<Segment>, target_chars: nat, max_chars: nat)
    ensures
        ({
            let st = chunk_walk(segs, target_chars, max_chars);
            &&& st.0.flatten() + st.1 == segs
            &&& forall|k: int| 0 <= k < st.0.len() ==> (#[trigger] st.0[k]).len() > 0
            &&& forall|k: int| 0 <= k < st.0.len() ==> chunk_fits(#[trigger] st.0[k], max_chars)
            &&& chunk_fits(st.1, max_chars) || st.1.len() == 0
            &&& st.2 == transcript_estimate(st.1)
        }),
    decreases segs.len(),
{
    if segs.len() > 0 {
        let d = segs.drop_last();
        let s = segs.last();
        lemma_chunk_walk(d, target_chars, max_chars);
        let st = chunk_walk(d, target_chars, max_chars);
        let c = line_estimate(s);
        let st1 = if st.2 + c > max_chars && st.1.len() > 0 {
            flush(st)
        } else {
            st
        };
        assert(st1.0.flatten() + st1.1 == d) by {
            if st.2 + c > max_chars && st.1.len() > 0 {
                st.0.lemma_flatten_push(st.1);
                assert(st1.0.flatten() + st1.1 =~= st.0.flatten() + st.1);
            }
        }
        assert(forall|k: int| 0 <= k < st1.0.len() ==> (#[trigger] st1.0[k]).len() > 0);
        assert(forall|k: int| 0 <= k < st1.0.len() ==> chunk_fits(#[trigger] st1.0[k], max_chars));
        assert(st1.1.len() == 0 || st1.2 + c <= max_chars);
        let st2 = if st1.2 >= target_chars && st1.1.len() > 0 {
            let prev = st1.1.last();
            let gap: int = if s.start_ms >= prev.end_ms {
                s.start_ms - prev.end_ms
            } else {
                0
            };
            if gap > SPLIT_GAP_THRESHOLD_MS || s.speaker_id != prev.speaker_id {
                flush(st1)
            } else {
                st1
            }
        } else {
            st1
        };
        assert(st2.0.flatten() + st2.1 == d) by {
            if st2 != st1 {
                st1.0.lemma_flatten_push(st1.1);
                assert(st2.0.flatten() + st2.1 =~= st1.0.flatten() + st1.1);
            }
        }
        assert(st2.1.len() == 0 || st2.2 + c <= max_chars);
        assert(st2.2 == transcript_estimate(st2.1));
        let r = chunk_walk(segs, target_chars, max_chars);
        assert(r == (st2.0, st2.1.push(s), st2.2 + c));
        lemma_estimate_push(st2.1, s);
        assert(r.0.flatten() + r.1 =~= segs) by {
            assert(segs =~= d.push(s));
        }
    }
}

/// The chunks are exactly the segments, in order: flattening them gives
/// `segments` back. Every chunk is non-empty, and each fits within
/// `max_chars` unless it is a single segment that alone exceeds it.
pub proof fn lemma_split_chunks(segs: Seq<Segment>, target_chars: nat, max_chars: nat)
    ensures
        split_chunks(segs, target_chars, max_chars).flatten() == segs,
        forall|k: int|
            0 <= k < split_chunks(segs, target_chars, max_chars).len() ==> (#[trigger] split_chunks(
                segs,
                target_chars,
                max_chars,
            )[k]).len() > 0,
        forall|k: int|
            0 <= k < split_chunks(segs, target_chars, max_chars).len() ==> chunk_fits(
                #[trigger] split_chunks(segs, target_chars, max_chars)[k],
                max_chars,
            ),
{
    if segs.len() == 0 {
    } else if transcript_estimate(segs) <= max_chars {
        seq![segs].lemma_flatten_singleton();
    } else {
        lemma_chunk_walk(segs, target_chars, max_chars);
        let st = chunk_walk(segs, target_chars, max_chars);
        if st.1.len() > 0 {
            st.0.lemma_flatten_push(st.1);
        } else {
            assert(st.0.flatten() + st.1 =~= st.0.flatten());
        }
    }
}

/// A cut between a chunk `c` and the segment `y` that opens the next one is
/// either forced (adding `y` would take `c` over `max_chars`), or `c` has
/// reached `target_chars` and `y` starts a natural boundary after `c`'s
/// last segment: a silence of more than 2 s, or another speaker.
pub open spec fn cut_allowed(c: Seq<Segment>, y: Segment, target_chars: nat, max_chars: nat) -> bool {
    let x = c.last();
    ||| transcript_estimate(c) + line_estimate(y) > max_chars
    ||| transcript_estimate(c) >= target_chars && natural_boundary(x, y)
}

/// `y` follows `x` after a silence of more than 2 s, or with another
/// speaker.
pub open spec fn natural_boundary(x: Segment, y: Segment) -> bool {
    y.start_ms > x.end_ms + 2000 || y.speaker_id != x.speaker_id
}

/// No point inside `c` is one where the walk would have cut: the part
/// before it reached `target_chars` and the next segment starts a natural
/// boundary.
pub open spec fn no_late_boundary(c: Seq<Segment>, target_chars: nat) -> bool {
    forall|m: int| 0 < m < c.len() ==> !(transcript_estimate(#[trigger] c.take(m)) >= target_chars && natural_boundary(c[m - 1], c[m]))
}

/// The walk's chunks, closed and open, with every cut between two of them
/// allowed.
pub open spec fn cuts_allowed(chunks: Seq<Seq<Segment>>, target_chars: nat, max_chars: nat) -> bool {
    forall|k: int| 0 <= k < chunks.len() - 1 ==> cut_allowed(#[trigger] chunks[k], chunks[k + 1][0], target_chars, max_chars)
}

proof fn lemma_walk_cuts(segs: Seq<Segment>, target_chars: nat, max_chars: nat)
    ensures
        ({
            let st = chunk_walk(segs, target_chars, max_chars);
            &&& st.0.len() > 0 ==> st.1.len() > 0
            &&& segs.len() > 0 ==> st.1.len() > 0
            &&& cuts_allowed(st.0.push(st.1), target_chars, max_chars)
        }),
    decreases segs.len(),
{
    lemma_chunk_walk(segs, target_chars, max_chars);
    if segs.len() > 0 {
        let d = segs.drop_last();
        let s = segs.last();
        lemma_walk_cuts(d, target_chars, max_chars);
        lemma_chunk_walk(d, target_chars, max_chars);
        let st = chunk_walk(d, target_chars, max_chars);
        let old_all = st.0.push(st.1);
        let c = line_estimate(s);
        let st1 = if st.2 + c > max_chars && st.1.len() > 0 {
            flush(st)
        } else {
            st
        };
        let st2 = if st1.2 >= target_chars && st1.1.len() > 0 {
            let prev = st1.1.last();
            let gap: int = if s.start_ms >= prev.end_ms {
                s.start_ms - prev.end_ms
            } else {
                0
            };
            if gap > SPLIT_GAP_THRESHOLD_MS || s.speaker_id != prev.speaker_id {
                flush(st1)
            } else {
                st1
            }
        } else {
            st1
        };
        let r = chunk_walk(segs, target_chars, max_chars);
        assert(r == (st2.0, st2.1.push(s), st2.2 + c));
        let all = r.0.push(r.1);
        if st2.1.len() == 0 {
            // The open chunk was just closed (or the walk was empty): the
            // new open chunk is `[s]`, after the closed ones.
            assert(st2.0.len() == 0 || st2.0 == old_all);
            assert forall|k: int| 0 <= k < all.len() - 1 implies cut_allowed(#[trigger] all[k], all[k + 1][0], target_chars, max_chars) by {
                if k < all.len() - 2 {
                    assert(all[k] == old_all[k] && all[k + 1] == old_all[k + 1]);
                } else {
                    assert(all[k] == st.1);
                    assert(all[k + 1] == seq![s]);
                    assert(st.2 == transcript_estimate(st.1));
                    if !(st.2 + c > max_chars && st.1.len() > 0) {
                        assert(st1 == st);
                        assert(st1.1.last() == st.1.last());
                    }
                }
            }
        } else {
            assert(st2 == st);
            assert(all.len() == old_all.len());
            assert forall|k: int| 0 <= k < all.len() - 1 implies cut_allowed(#[trigger] all[k], all[k + 1][0], target_chars, max_chars) by {
                assert(all[k] == old_all[k]);
                if k + 1 < all.len() - 1 {
                    assert(all[k + 1] == old_all[k + 1]);
                } else {
                    assert(all[k + 1] == st.1.push(s));
                    assert(all[k + 1][0] == st.1[0]);
                    assert(old_all[k + 1] == st.1);
                }
            }
        }
    } else {
        let st = chunk_walk(segs, target_chars, max_chars);
        assert(st.0.push(st.1) =~= seq![st.1]);
    }
}

/// Every cut between two chunks is forced by `max_chars`, or falls where
/// the chunk before has reached `target_chars` and the next segment starts
/// after a silence of more than 2 s or with another speaker.
pub proof fn law_chunks_cut_at_boundaries(segs: Seq<Segment>, target_chars: nat, max_chars: nat)
    ensures
        cuts_allowed(split_chunks(segs, target_chars, max_chars), target_chars, max_chars),
{
    if segs.len() > 0 && transcript_estimate(segs) > max_chars {
        lemma_walk_cuts(segs, target_chars, max_chars);
    }
}

proof fn lemma_walk_no_late(segs: Seq<Segment>, target_chars: nat, max_chars: nat)
    ensures
        ({
            let st = chunk_walk(segs, target_chars, max_chars);
            &&& forall|k: int| 0 <= k < st.0.len() ==> no_late_boundary(#[trigger] st.0[k], target_chars)
            &&& no_late_boundary(st.1, target_chars)
        }),
    decreases segs.len(),
{
    lemma_chunk_walk(segs, target_chars, max_chars);
    if segs.len() > 0 {
        let d = segs.drop_last();
        let s = segs.last();
        lemma_walk_no_late(d, target_chars, max_chars);
        lemma_chunk_walk(d, target_chars, max_chars);
        let st = chunk_walk(d, target_chars, max_chars);
        let c = line_estimate(s);
        let st1 = if st.2 + c > max_chars && st.1.len() > 0 {
            flush(st)
        } else {
            st
        };
        let st2 = if st1.2 >= target_chars && st1.1.len() > 0 {
            let prev = st1.1.last();
            let gap: int = if s.start_ms >= prev.end_ms {
                s.start_ms - prev.end_ms
            } else {
                0
            };
            if gap > SPLIT_GAP_THRESHOLD_MS || s.speaker_id != prev.speaker_id {
                flush(st1)
            } else {
                st1
            }
        } else {
            st1
        };
        let r = chunk_walk(segs, target_chars, max_chars);
        assert(r == (st2.0, st2.1.push(s), st2.2 + c));
        assert forall|k: int| 0 <= k < st2.0.len() implies no_late_boundary(#[trigger] st2.0[k], target_chars) by {
            if k < st.0.len() {
                assert(st2.0[k] == st.0[k]);
            } else {
                assert(st2.0[k] == st.1);
            }
        }
        let o = st2.1.push(s);
        assert forall|m: int| 0 < m < o.len() implies !(transcript_estimate(#[trigger] o.take(m)) >= target_chars
            && natural_boundary(o[m - 1], o[m])) by {
            if m < o.len() - 1 {
                assert(o.take(m) =~= st2.1.take(m));
                assert(o[m - 1] == st2.1[m - 1] && o[m] == st2.1[m]);
                assert(st2 == st);
            } else {
                assert(o.take(m) =~= st2.1);
                assert(st2 == st1 && st1 == st);
                assert(o[m - 1] == st.1.last());
            }
        }
    }
}

/// When the transcript is too large for one chunk, no chunk holds a point
/// where the walk should have cut: inside a chunk, the part before a
/// segment never both reached `target_chars` and ends at a natural
/// boundary (a silence of more than 2 s, or another speaker).
pub proof fn law_chunks_not_cut_late(segs: Seq<Segment>, target_chars: nat, max_chars: nat)
    requires
        transcript_estimate(segs) > max_chars,
    ensures
        forall|k: int| 0 <= k < split_chunks(segs, target_chars, max_chars).len() ==> no_late_boundary(
            #[trigger] split_chunks(segs, target_chars, max_chars)[k],
            target_chars,
        ),
{
    lemma_walk_no_late(segs, target_chars, max_chars);
    let st = chunk_walk(segs, target_chars, max_chars);
    let r = split_chunks(segs, target_chars, max_chars);
    assert(segs.len() > 0);
    assert forall|k: int| 0 <= k < r.len() implies no_late_boundary(#[trigger] r[k], target_chars) by {
        if k < st.0.len() {
            assert(r[k] == st.0[k]);
        } else {
            assert(r[k] == st.1);
        }
    }
}

} // verus!
