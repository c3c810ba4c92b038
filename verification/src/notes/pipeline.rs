//! `NotesGenerator`: turns a transcript into structured notes.
//!
//! 1. Topic segmentation (deterministic).
//! 2. One narrative call per section; a section whose rendered prompt
//!    exceeds the context budget is split into chunks, each chunk
//!    summarised, and the summaries merged in bounded rounds.
//! 3. Screenshot anchoring (deterministic).
//! 4. One frontmatter call for the title and tags.
//!
//! A failed section call falls back to a transcript dump under an error
//! marker, and a failed frontmatter call to `Untitled meeting` with no
//! tags; neither aborts. Only when every section's call failed is the model
//! taken to be unavailable, and generation fails.

use vstd::prelude::*;

use std::collections::HashSet;

use crate::llm::{
    llm_error_text, member_actions, member_texts, response_view, JsonModel, JsonValue, LlmError, LlmProvider,
    LlmRequest, LlmResponse,
};
use crate::notes::attribution::{
    disallowed_ids, owner_id, owner_ids_before, owner_names, referenced_ids, verify_section_attribution,
    VerifierReport,
};
use crate::notes::prompts::{
    build_section_narrative_prompt, is_merge_request, is_section_request, json_models, split_segments_for_chunking, transcript_estimate,
    SECTION_CHUNK_TARGET_CHARS, SECTION_CHUNK_THRESHOLD_CHARS,
};
use crate::notes::dialect::MarkdownDialect;
use crate::notes::error::NotesError;
use crate::notes::input::NotesInput;
use crate::notes::ir::{ActionItem, CalendarDate, NotesFrontmatter, NotesSection, Screenshot, StructuredNotes};
use crate::notes::prompts::{build_frontmatter_prompt, SectionSummary};
use crate::notes::screenshot_anchoring::{
    anchor_screenshots, first_containing, ranges_of, ranges_well_formed, shots_for_section,
};
use crate::notes::topic_segmentation::{
    flatten_indices, index_range, lemma_topic_sections_partition, segment_topics, sections_view,
    topic_sections, total_duration, RawSection, SectionModel, TopicSegmentationConfig,
};
use crate::notes::prompts::text_or;
use crate::notes::raw_transcript::{push_speaker_label, speaker_label};
use crate::segment::Segment;
use crate::text::{decimal, push_decimal, push_str};


verus! {

/// An action item as values.
pub open spec fn action_view(a: ActionItem) -> (Seq<char>, Option<Seq<char>>, Option<CalendarDate>) {
    (a.description@, crate::storage::opt_view(a.owner), a.due)
}

/// A section's content before numbering and screenshots.
pub struct SectionDraft {
    pub title: String,
    pub narrative_md: String,
    pub key_points: Vec<String>,
    pub action_items: Vec<ActionItem>,
    pub time_range_ms: (u64, u64),
}

/// A section draft as values.
pub struct DraftModel {
    pub title: Seq<char>,
    pub narrative_md: Seq<char>,
    pub key_points: Seq<Seq<char>>,
    pub action_items: Seq<(Seq<char>, Option<Seq<char>>, Option<CalendarDate>)>,
    pub time_range_ms: (u64, u64),
}

impl View for SectionDraft {
    type V = DraftModel;

    open spec fn view(&self) -> DraftModel {
        DraftModel {
            title: self.title@,
            narrative_md: self.narrative_md@,
            key_points: self.key_points@.map_values(|t: String| t@),
            action_items: self.action_items@.map_values(|a: ActionItem| action_view(a)),
            time_range_ms: self.time_range_ms,
        }
    }
}

/// The draft a JSON narrative gives: its title (else `Untitled section`),
/// narrative (else empty), string key points, and the action items that
/// have a string description (with the owner when it is a string).
pub open spec fn draft_from_json(range: (u64, u64), v: JsonModel) -> DraftModel {
    DraftModel {
        title: text_or(v, "title"@, "Untitled section"@),
        narrative_md: text_or(v, "narrative_md"@, Seq::empty()),
        key_points: member_texts(v, "key_points"@),
        action_items: member_actions(v, "action_items"@).map_values(
            |a: (Seq<char>, Option<Seq<char>>)| (a.0, a.1, None::<CalendarDate>),
        ),
        time_range_ms: range,
    }
}

/// The marker a fallback narrative opens with.
pub open spec fn fallback_header(dialect: MarkdownDialect, err: Seq<char>) -> Seq<char> {
    match dialect {
        MarkdownDialect::NotionEnhanced => "<!-- panops: llm error: "@ + err + " -->\n\n"@,
        MarkdownDialect::Basic => "> panops: llm error: "@ + err + "\n\n"@,
    }
}

/// `**label:** text` paragraphs of the transcript.
pub open spec fn transcript_dump(segs: Seq<Segment>) -> Seq<char>
    decreases segs.len(),
{
    if segs.len() == 0 {
        Seq::empty()
    } else {
        transcript_dump(segs.drop_last()) + "**"@ + speaker_label(segs.last().speaker_id) + ":** "@
            + segs.last().text@ + "\n\n"@
    }
}

/// The draft of a section whose narrative could not be had: titled
/// `Section`, the error marker and the transcript dump as narrative, no key
/// points or action items.
pub open spec fn draft_fallback(
    range: (u64, u64),
    segs: Seq<Segment>,
    err: Seq<char>,
    dialect: MarkdownDialect,
) -> DraftModel {
    DraftModel {
        title: "Section"@,
        narrative_md: fallback_header(dialect, err) + transcript_dump(segs),
        key_points: Seq::empty(),
        action_items: Seq::empty(),
        time_range_ms: range,
    }
}

fn text_or_default(v: &JsonValue, key: &str, default: &str) -> (r: String)
    ensures
        r@ == text_or(v@, key@, default@),
{
    match crate::llm::text_member(v, key) {
        Some(t) => t.clone(),
        None => default.to_owned(),
    }
}

impl SectionDraft {
    /// The draft a JSON narrative gives (see `draft_from_json`).
    pub fn from_json(time_range_ms: (u64, u64), v: &JsonValue) -> (r: SectionDraft)
        ensures
            r@ == draft_from_json(time_range_ms, v@),
    {
        let title = text_or_default(v, "title", "Untitled section");
        proof {
            reveal_strlit("");
            assert(""@ =~= Seq::<char>::empty());
        }
        let narrative_md = text_or_default(v, "narrative_md", "");
        assert(narrative_md@ == text_or(v@, "narrative_md"@, Seq::empty()));
        let key_points = crate::llm::texts_member(v, "key_points");
        let acts = crate::llm::actions_member(v, "action_items");
        let ghost av = acts@.map_values(
            |a: (String, Option<String>)| (a.0@, crate::storage::opt_view(a.1)),
        );
        let mut action_items: Vec<ActionItem> = Vec::new();
        for a in it: acts.into_iter()
            invariant
                it.seq() == acts@,
                av == acts@.map_values(
                    |a: (String, Option<String>)| (a.0@, crate::storage::opt_view(a.1)),
                ),
                action_items@.map_values(|a: ActionItem| action_view(a)) == av.take(
                    it.index() as int,
                ).map_values(|a: (Seq<char>, Option<Seq<char>>)| (a.0, a.1, None::<CalendarDate>)),
        {
            let ghost k = it.index() as int;
            let ghost before = action_items@.map_values(|a: ActionItem| action_view(a));
            let item = ActionItem { description: a.0, owner: a.1, due: None };
            action_items.push(item);
            assert(av.take(k + 1) =~= av.take(k).push(av[k]));
            assert(action_items@.map_values(|a: ActionItem| action_view(a)) =~= before.push(
                (av[k].0, av[k].1, None::<CalendarDate>),
            ));
        }
        assert(av.take(av.len() as int) =~= av);
        let r = SectionDraft { title, narrative_md, key_points, action_items, time_range_ms };
        assert(r@.action_items =~= draft_from_json(time_range_ms, v@).action_items);
        r
    }

    /// The fallback draft of a section (see `draft_fallback`).
    pub fn fallback(
        time_range_ms: (u64, u64),
        segs: &[Segment],
        err: &str,
        dialect: MarkdownDialect,
    ) -> (r: SectionDraft)
        ensures
            r@ == draft_fallback(time_range_ms, segs@, err@, dialect),
    {
        let mut body = String::new();
        match dialect {
            MarkdownDialect::NotionEnhanced => {
                push_str(&mut body, "<!-- panops: llm error: ");
                push_str(&mut body, err);
                push_str(&mut body, " -->\n\n");
            },
            MarkdownDialect::Basic => {
                push_str(&mut body, "> panops: llm error: ");
                push_str(&mut body, err);
                push_str(&mut body, "\n\n");
            },
        }
        let ghost head = body@;
        assert(head =~= fallback_header(dialect, err@));
        let mut i: usize = 0;
        while i < segs.len()
            invariant
                i <= segs.len(),
                body@ == head + transcript_dump(segs@.take(i as int)),
            decreases segs.len() - i,
        {
            assert(segs@.take(i + 1).drop_last() =~= segs@.take(i as int));
            let ghost before = body@;
            push_str(&mut body, "**");
            push_speaker_label(&mut body, segs[i].speaker_id);
            push_str(&mut body, ":** ");
            push_str(&mut body, segs[i].text.as_str());
            push_str(&mut body, "\n\n");
            i = i + 1;
            assert(body@ =~= head + transcript_dump(segs@.take(i as int)));
        }
        assert(segs@.take(i as int) =~= segs@);
        let r = SectionDraft {
            title: "Section".to_owned(),
            narrative_md: body,
            key_points: Vec::new(),
            action_items: Vec::new(),
            time_range_ms,
        };
        assert(r@.key_points =~= Seq::<Seq<char>>::empty());
        assert(r@.action_items =~= Seq::<(Seq<char>, Option<Seq<char>>, Option<CalendarDate>)>::empty());
        r
    }
}

/// The title and tags a JSON frontmatter gives: its title (else `Untitled
/// meeting`) and its string tags.
pub fn extract_frontmatter(v: &JsonValue) -> (r: (String, Vec<String>))
    ensures
        r.0@ == text_or(v@, "title"@, "Untitled meeting"@),
        r.1@.map_values(|t: String| t@) == member_texts(v@, "tags"@),
{
    let title = text_or_default(v, "title", "Untitled meeting");
    let tags = crate::llm::texts_member(v, "tags");
    (title, tags)
}


// ---- languages and speakers ---------------------------------------------

/// The detected language of a segment.
pub open spec fn lang_of(s: Segment) -> Option<Seq<char>> {
    crate::storage::opt_view(s.language_detected)
}

/// The detected languages, each once, in order of first appearance.
pub open spec fn seen_languages(segs: Seq<Segment>) -> Seq<Seq<char>>
    decreases segs.len(),
{
    if segs.len() == 0 {
        Seq::empty()
    } else {
        let prev = seen_languages(segs.drop_last());
        match lang_of(segs.last()) {
            Some(l) => if prev.contains(l) {
                prev
            } else {
                prev.push(l)
            },
            None => prev,
        }
    }
}

/// The meeting's languages: those detected, or `en` when none was.
pub open spec fn meeting_languages(segs: Seq<Segment>) -> Seq<Seq<char>> {
    if seen_languages(segs).len() == 0 {
        seq!["en"@]
    } else {
        seen_languages(segs)
    }
}

/// Whether `v` holds the text `t`.
fn holds_text(v: &Vec<String>, t: &String) -> (r: bool)
    ensures
        r == v@.map_values(|x: String| x@).contains(t@),
{
    let ghost s = v@.map_values(|x: String| x@);
    let mut i: usize = 0;
    while i < v.len()
        invariant
            i <= v.len(),
            s == v@.map_values(|x: String| x@),
            forall|j: int| 0 <= j < i ==> s[j] != t@,
        decreases v.len() - i,
    {
        if v[i] == *t {
            assert(s[i as int] == t@);
            return true;
        }
        i = i + 1;
    }
    false
}

/// The detected languages in order of first appearance, or `["en"]` when
/// no segment has one.
pub fn unique_languages(segments: &[Segment]) -> (r: Vec<String>)
    ensures
        r@.map_values(|t: String| t@) == meeting_languages(segments@),
{
    let mut out: Vec<String> = Vec::new();
    let mut i: usize = 0;
    while i < segments.len()
        invariant
            i <= segments.len(),
            out@.map_values(|t: String| t@) == seen_languages(segments@.take(i as int)),
        decreases segments.len() - i,
    {
        assert(segments@.take(i + 1).drop_last() =~= segments@.take(i as int));
        assert(segments@.take(i + 1).last() == segments@[i as int]);
        match &segments[i].language_detected {
            Some(l) => {
                if !holds_text(&out, l) {
                    let ghost before = out@.map_values(|t: String| t@);
                    out.push(l.clone());
                    assert(out@.map_values(|t: String| t@) =~= before.push(l@));
                }
            },
            None => {},
        }
        i = i + 1;
    }
    assert(segments@.take(i as int) =~= segments@);
    if out.len() == 0 {
        let mut en: Vec<String> = Vec::new();
        en.push("en".to_owned());
        assert(en@.map_values(|t: String| t@) =~= seq!["en"@]);
        en
    } else {
        out
    }
}

/// The diarized speakers, each once, in order of first appearance.
pub open spec fn seen_speakers(segs: Seq<Segment>) -> Seq<u32>
    decreases segs.len(),
{
    if segs.len() == 0 {
        Seq::empty()
    } else {
        let prev = seen_speakers(segs.drop_last());
        match segs.last().speaker_id {
            Some(id) => if prev.contains(id) {
                prev
            } else {
                prev.push(id)
            },
            None => prev,
        }
    }
}

/// `speaker_N` labels of the diarized speakers, in order of first
/// appearance.
pub open spec fn speaker_labels(segs: Seq<Segment>) -> Seq<Seq<char>> {
    seen_speakers(segs).map_values(|id: u32| "speaker_"@ + decimal(id as nat))
}

fn holds_id(v: &Vec<u32>, id: u32) -> (r: bool)
    ensures
        r == v@.contains(id),
{
    let mut i: usize = 0;
    while i < v.len()
        invariant
            i <= v.len(),
            forall|j: int| 0 <= j < i ==> v@[j] != id,
        decreases v.len() - i,
    {
        if v[i] == id {
            assert(v@[i as int] == id);
            return true;
        }
        i = i + 1;
    }
    false
}

/// `speaker_N` for each diarized speaker, in order of first appearance.
pub fn collect_speakers(segments: &[Segment]) -> (r: Vec<String>)
    ensures
        r@.map_values(|t: String| t@) == speaker_labels(segments@),
{
    let mut ids: Vec<u32> = Vec::new();
    let mut i: usize = 0;
    while i < segments.len()
        invariant
            i <= segments.len(),
            ids@ == seen_speakers(segments@.take(i as int)),
        decreases segments.len() - i,
    {
        assert(segments@.take(i + 1).drop_last() =~= segments@.take(i as int));
        assert(segments@.take(i + 1).last() == segments@[i as int]);
        match segments[i].speaker_id {
            Some(id) => {
                if !holds_id(&ids, id) {
                    ids.push(id);
                }
            },
            None => {},
        }
        i = i + 1;
    }
    assert(segments@.take(i as int) =~= segments@);
    let mut out: Vec<String> = Vec::new();
    let mut k: usize = 0;
    while k < ids.len()
        invariant
            k <= ids.len(),
            out@.map_values(|t: String| t@) == ids@.take(k as int).map_values(
                |id: u32| "speaker_"@ + decimal(id as nat),
            ),
        decreases ids.len() - k,
    {
        let ghost before = out@.map_values(|t: String| t@);
        let mut label = String::new();
        push_str(&mut label, "speaker_");
        push_decimal(&mut label, ids[k] as u64);
        out.push(label);
        assert(ids@.take(k + 1) =~= ids@.take(k as int).push(ids@[k as int]));
        assert(out@.map_values(|t: String| t@) =~= before.push("speaker_"@ + decimal(ids@[k as int] as nat)));
        k = k + 1;
    }
    assert(ids@.take(k as int) =~= ids@);
    out
}

/// How many segments were detected as language `l`.
pub open spec fn lang_count(segs: Seq<Segment>, l: Seq<char>) -> nat
    decreases segs.len(),
{
    if segs.len() == 0 {
        0
    } else {
        lang_count(segs.drop_last(), l) + if lang_of(segs.last()) == Some(l) {
            1nat
        } else {
            0
        }
    }
}

proof fn lemma_lang_count_bound(segs: Seq<Segment>, l: Seq<char>)
    ensures
        lang_count(segs, l) <= segs.len(),
    decreases segs.len(),
{
    if segs.len() > 0 {
        lemma_lang_count_bound(segs.drop_last(), l);
    }
}

/// Segment `i` carries a language detected most often, and no earlier
/// segment carries one detected as often.
pub open spec fn dominant_lang_at(segs: Seq<Segment>, i: int) -> bool {
    &&& 0 <= i < segs.len()
    &&& lang_of(segs[i]) is Some
    &&& forall|j: int|
        0 <= j < segs.len() && lang_of(#[trigger] segs[j]) is Some ==> lang_count(
            segs,
            lang_of(segs[j])->0,
        ) <= lang_count(segs, lang_of(segs[i])->0)
    &&& forall|j: int|
        0 <= j < i && lang_of(#[trigger] segs[j]) is Some ==> lang_count(
            segs,
            lang_of(segs[j])->0,
        ) < lang_count(segs, lang_of(segs[i])->0)
}

/// The language detected most often (the first to appear among equals),
/// or `en` when none was detected.
pub open spec fn dominant_language_of(segs: Seq<Segment>) -> Seq<char> {
    if exists|i: int| dominant_lang_at(segs, i) {
        lang_of(segs[choose|i: int| dominant_lang_at(segs, i)])->0
    } else {
        "en"@
    }
}

fn count_language(segments: &[Segment], l: &String) -> (r: usize)
    ensures
        r == lang_count(segments@, l@),
{
    let mut n: usize = 0;
    let mut i: usize = 0;
    while i < segments.len()
        invariant
            i <= segments.len(),
            n == lang_count(segments@.take(i as int), l@),
            n <= i,
        decreases segments.len() - i,
    {
        assert(segments@.take(i + 1).drop_last() =~= segments@.take(i as int));
        assert(segments@.take(i + 1).last() == segments@[i as int]);
        let hit = match &segments[i].language_detected {
            Some(x) => *x == *l,
            None => false,
        };
        if hit {
            n = n + 1;
        }
        i = i + 1;
    }
    assert(segments@.take(i as int) =~= segments@);
    n
}

/// The language detected most often, or `en`.
pub fn dominant_language(segments: &[Segment]) -> (r: String)
    ensures
        r@ == dominant_language_of(segments@),
{
    let ghost t = segments@;
    let mut best: usize = 0;
    let mut best_count: usize = 0;
    let mut i: usize = 0;
    while i < segments.len()
        invariant
            i <= segments.len(),
            t == segments@,
            forall|j: int|
                0 <= j < i && lang_of(#[trigger] t[j]) is Some ==> lang_count(t, lang_of(t[j])->0)
                    <= best_count,
            best_count > 0 ==> best < i && lang_of(t[best as int]) is Some && lang_count(
                t,
                lang_of(t[best as int])->0,
            ) == best_count && forall|j: int|
                0 <= j < best && lang_of(#[trigger] t[j]) is Some ==> lang_count(
                    t,
                    lang_of(t[j])->0,
                ) < best_count,
        decreases segments.len() - i,
    {
        match &segments[i].language_detected {
            Some(l) => {
                let c = count_language(segments, l);
                if c > best_count {
                    best = i;
                    best_count = c;
                }
            },
            None => {},
        }
        i = i + 1;
    }
    if best_count > 0 {
        proof {
            let c = choose|k: int| dominant_lang_at(t, k);
            assert(dominant_lang_at(t, best as int));
            if exists|k: int| dominant_lang_at(t, k) {
                assert(dominant_lang_at(t, c));
                if c < best {
                    assert(lang_count(t, lang_of(t[c])->0) < best_count);
                } else if best < c {
                    assert(lang_count(t, lang_of(t[best as int])->0) < lang_count(
                        t,
                        lang_of(t[c])->0,
                    ));
                }
            }
        }
        match &segments[best].language_detected {
            Some(l) => l.clone(),
            None => "en".to_owned(),
        }
    } else {
        proof {
            if exists|k: int| dominant_lang_at(t, k) {
                let k = choose|k: int| dominant_lang_at(t, k);
                let l = lang_of(t[k])->0;
                assert(lang_count(t, l) <= best_count);
                lemma_lang_present(t, k);
            }
        }
        "en".to_owned()
    }
}

proof fn lemma_lang_present(segs: Seq<Segment>, k: int)
    requires
        0 <= k < segs.len(),
        lang_of(segs[k]) is Some,
    ensures
        lang_count(segs, lang_of(segs[k])->0) > 0,
    decreases segs.len(),
{
    if k < segs.len() - 1 {
        assert(segs.drop_last()[k] == segs[k]);
        lemma_lang_present(segs.drop_last(), k);
    }
}


// ---- prompt sizes -------------------------------------------------------

/// The UTF-8 length of an optional text (zero when absent).
pub open spec fn opt_utf8_len(o: Option<String>) -> nat {
    match o {
        Some(t) => crate::text::utf8_len(t@),
        None => 0,
    }
}

/// The size of a request as the model receives it: system prompt, user
/// prompt and schema text, in UTF-8 bytes.
pub open spec fn rendered_size(req: LlmRequest) -> nat {
    opt_utf8_len(req.system) + crate::text::utf8_len(req.user@) + opt_utf8_len(req.schema)
}

/// `n`, or `usize::MAX` when it is at least that.
pub open spec fn capped(n: nat) -> nat {
    if n < usize::MAX {
        n
    } else {
        usize::MAX as nat
    }
}

fn opt_len_capped(o: &Option<String>) -> (r: usize)
    ensures
        r == capped(opt_utf8_len(*o)),
{
    match o {
        Some(t) => crate::text::utf8_len_capped(t.as_str()),
        None => 0,
    }
}

/// The rendered size of `req`, or `usize::MAX` when it is at least that.
fn rendered_chars_capped(req: &LlmRequest) -> (r: usize)
    ensures
        r == capped(rendered_size(*req)),
{
    let a = opt_len_capped(&req.system);
    let b = crate::text::utf8_len_capped(req.user.as_str());
    let c = opt_len_capped(&req.schema);
    a.saturating_add(b).saturating_add(c)
}

/// The size of a request as the model receives it: the system prompt, the
/// user prompt and the schema, in UTF-8 bytes.
pub fn rendered_llm_request_chars(req: &LlmRequest) -> (r: usize)
    requires
        rendered_size(*req) < usize::MAX,
    ensures
        r == rendered_size(*req),
{
    rendered_chars_capped(req)
}

/// The rendered size of the narrative request over `segs`.
pub open spec fn section_size(segs: Seq<Segment>, dialect: MarkdownDialect, language: Seq<char>) -> nat {
    crate::text::utf8_len(crate::notes::prompts::SECTION_NARRATIVE_SYSTEM@) + crate::text::utf8_len(
        crate::notes::prompts::section_user(segs, dialect, language),
    ) + crate::text::utf8_len(crate::notes::prompts::SECTION_NARRATIVE_SCHEMA@)
}

/// A chunk is non-empty, and its narrative request fits in `max_chars`
/// unless it is a single segment.
pub open spec fn within_budget(c: Seq<Segment>, dialect: MarkdownDialect, language: Seq<char>, max_chars: usize) -> bool {
    c.len() > 0 && (c.len() == 1 || capped(section_size(c, dialect, language)) <= max_chars)
}

/// `after` is `before` with chunks appended that, read in order, are
/// exactly `chunk`, each within the budget.
pub open spec fn budget_pushed(
    before: Seq<Vec<Segment>>,
    after: Seq<Vec<Segment>>,
    chunk: Seq<Segment>,
    dialect: MarkdownDialect,
    language: Seq<char>,
    max_chars: usize,
) -> bool {
    &&& before.len() <= after.len()
    &&& after.subrange(0, before.len() as int) == before
    &&& crate::notes::prompts::chunks_view(after.subrange(before.len() as int, after.len() as int)).flatten()
        == chunk
    &&& forall|k: int|
        before.len() <= k < after.len() ==> within_budget(#[trigger] after[k]@, dialect, language, max_chars)
}

/// The narrative request over `c` fits in `max_chars`.
pub open spec fn budget_fits(c: Seq<Segment>, dialect: MarkdownDialect, language: Seq<char>, max_chars: usize) -> bool {
    capped(section_size(c, dialect, language)) <= max_chars
}

/// The pieces closed so far and the piece in progress after the first `n`
/// segments of `whole`: a segment that would make the piece in progress
/// overflow (when it holds one or more already) closes it and starts the
/// next.
pub open spec fn budget_walk(
    whole: Seq<Segment>,
    n: nat,
    dialect: MarkdownDialect,
    language: Seq<char>,
    max_chars: usize,
) -> (Seq<Seq<Segment>>, Seq<Segment>)
    decreases n,
{
    if n == 0 {
        (Seq::empty(), Seq::empty())
    } else {
        let (done, cur) = budget_walk(whole, (n - 1) as nat, dialect, language, max_chars);
        let grown = cur.push(whole[n - 1]);
        if !budget_fits(grown, dialect, language, max_chars) && grown.len() > 1 {
            (done.push(cur), seq![whole[n - 1]])
        } else {
            (done, grown)
        }
    }
}

/// A chunk cut to the rendered budget: kept whole when it is one segment
/// or its request fits, else cut greedily (`budget_walk`).
pub open spec fn budget_cut(chunk: Seq<Segment>, dialect: MarkdownDialect, language: Seq<char>, max_chars: usize) -> Seq<
    Seq<Segment>,
> {
    if chunk.len() <= 1 || budget_fits(chunk, dialect, language, max_chars) {
        seq![chunk]
    } else {
        let (done, cur) = budget_walk(chunk, chunk.len(), dialect, language, max_chars);
        done.push(cur)
    }
}

/// Every chunk cut to the rendered budget, in order.
pub open spec fn budget_split(chunks: Seq<Seq<Segment>>, dialect: MarkdownDialect, language: Seq<char>, max_chars: usize) -> Seq<
    Seq<Segment>,
>
    decreases chunks.len(),
{
    if chunks.len() == 0 {
        Seq::empty()
    } else {
        budget_split(chunks.drop_last(), dialect, language, max_chars) + budget_cut(
            chunks.last(),
            dialect,
            language,
            max_chars,
        )
    }
}

/// Appends `chunk` to `out`, cut where its narrative request would exceed
/// `max_chars`, then cut again from the remainder.
fn push_rendered_budget_chunk(
    chunk: Vec<Segment>,
    dialect: MarkdownDialect,
    language: &str,
    max_chars: usize,
    out: &mut Vec<Vec<Segment>>,
)
    requires
        chunk@.len() > 0,
    ensures
        budget_pushed(old(out)@, final(out)@, chunk@, dialect, language@, max_chars),
        crate::notes::prompts::chunks_view(final(out)@.subrange(old(out)@.len() as int, final(out)@.len() as int))
            == budget_cut(chunk@, dialect, language@, max_chars),
    decreases chunk@.len(),
{
    let ghost whole = chunk@;
    let ghost before = out@;
    let req = crate::notes::prompts::build_section_narrative_prompt(chunk.as_slice(), dialect, language);
    if chunk.len() <= 1 || rendered_chars_capped(&req) <= max_chars {
        out.push(chunk);
        assert(out@.subrange(0, before.len() as int) =~= before);
        assert(crate::notes::prompts::chunks_view(out@.subrange(before.len() as int, out@.len() as int)) =~= seq![whole]);
        proof {
            seq![whole].lemma_flatten_singleton();
        }
        return;
    }
    let mut current: Vec<Segment> = Vec::new();
    let mut flushed = false;
    for seg in it: chunk.into_iter()
        invariant
            it.seq() == whole,
            whole.len() > 1,
            capped(section_size(whole, dialect, language@)) > max_chars,
            before.len() <= out@.len(),
            out@.subrange(0, before.len() as int) == before,
            crate::notes::prompts::chunks_view(out@.subrange(before.len() as int, out@.len() as int)).flatten()
                + current@ == whole.take(it.index() as int),
            forall|k: int|
                before.len() <= k < out@.len() ==> within_budget(#[trigger] out@[k]@, dialect, language@, max_chars),
            current@.len() <= 1 || capped(section_size(current@, dialect, language@)) <= max_chars,
            !flushed ==> current@ == whole.take(it.index() as int) && out@.len() == before.len(),
            flushed ==> out@.len() > before.len(),
            it.index() > 0 ==> current@.len() > 0,
            (crate::notes::prompts::chunks_view(out@.subrange(before.len() as int, out@.len() as int)), current@)
                == budget_walk(whole, it.index() as nat, dialect, language@, max_chars),
    {
        let ghost k = it.index() as int;
        let ghost prev_out = out@;
        let ghost prev_cur = current@;
        current.push(seg);
        assert(whole.take(k + 1) =~= whole.take(k).push(seg));
        let r2 = crate::notes::prompts::build_section_narrative_prompt(current.as_slice(), dialect, language);
        if rendered_chars_capped(&r2) > max_chars && current.len() > 1 {
            let overflow = current.pop().unwrap();
            assert(current@ =~= prev_cur);
            let mut fresh: Vec<Segment> = Vec::new();
            std::mem::swap(&mut fresh, &mut current);
            out.push(fresh);
            current.push(overflow);
            flushed = true;
            let ghost tail = crate::notes::prompts::chunks_view(prev_out.subrange(before.len() as int, prev_out.len() as int));
            assert(crate::notes::prompts::chunks_view(out@.subrange(before.len() as int, out@.len() as int)) =~= tail.push(prev_cur));
            proof {
                tail.lemma_flatten_push(prev_cur);
            }
            assert(out@.subrange(0, before.len() as int) =~= prev_out.subrange(0, before.len() as int));
            assert(current@ =~= seq![seg]);
        } else {
            assert(out@ == prev_out);
        }
        assert(whole[k] == seg);
    }
    assert(whole.take(whole.len() as int) =~= whole);
    assert(flushed);
    let ghost mid = out@;
    let ghost pushed = crate::notes::prompts::chunks_view(mid.subrange(before.len() as int, mid.len() as int));
    assert(pushed.len() > 0);
    assert(pushed[0].len() > 0) by {
        assert(pushed[0] == mid[before.len() as int]@);
    }
    proof {
        pushed.drop_first().lemma_flatten_push(Seq::empty());
        assert(pushed.flatten() == pushed[0] + pushed.drop_first().flatten());
    }
    assert(current@.len() < whole.len());
    if current.len() > 0 {
        push_rendered_budget_chunk(current, dialect, language, max_chars, out);
        let ghost fin = out@;
        let ghost rest = crate::notes::prompts::chunks_view(fin.subrange(mid.len() as int, fin.len() as int));
        assert(fin.subrange(0, mid.len() as int) == mid);
        assert(fin.subrange(0, before.len() as int) =~= before) by {
            assert(fin.subrange(0, before.len() as int) =~= mid.subrange(0, before.len() as int));
        }
        assert(crate::notes::prompts::chunks_view(fin.subrange(before.len() as int, fin.len() as int)) =~= pushed + rest) by {
            assert(fin.subrange(before.len() as int, mid.len() as int) =~= mid.subrange(before.len() as int, mid.len() as int));
        }
        proof {
            vstd::seq_lib::lemma_flatten_concat(pushed, rest);
        }
        assert forall|k: int| before.len() <= k < fin.len() implies within_budget(
            #[trigger] fin[k]@,
            dialect,
            language@,
            max_chars,
        ) by {
            if k < mid.len() {
                assert(fin[k] == fin.subrange(0, mid.len() as int)[k]);
            }
        }
    }
}

/// Every chunk cut to the rendered budget, in order.
fn split_chunks_to_rendered_budget(
    chunks: Vec<Vec<Segment>>,
    dialect: MarkdownDialect,
    language: &str,
    max_chars: usize,
) -> (r: Vec<Vec<Segment>>)
    requires
        forall|k: int| 0 <= k < chunks@.len() ==> (#[trigger] chunks@[k])@.len() > 0,
    ensures
        crate::notes::prompts::chunks_view(r@).flatten() == crate::notes::prompts::chunks_view(chunks@).flatten(),
        forall|k: int| 0 <= k < r@.len() ==> within_budget(#[trigger] r@[k]@, dialect, language@, max_chars),
        crate::notes::prompts::chunks_view(r@) == budget_split(
            crate::notes::prompts::chunks_view(chunks@),
            dialect,
            language@,
            max_chars,
        ),
{
    let ghost input = crate::notes::prompts::chunks_view(chunks@);
    let mut out: Vec<Vec<Segment>> = Vec::new();
    for chunk in it: chunks.into_iter()
        invariant
            it.seq() == chunks@,
            input == crate::notes::prompts::chunks_view(chunks@),
            forall|k: int| 0 <= k < chunks@.len() ==> (#[trigger] chunks@[k])@.len() > 0,
            crate::notes::prompts::chunks_view(out@).flatten() == input.take(it.index() as int).flatten(),
            forall|k: int| 0 <= k < out@.len() ==> within_budget(#[trigger] out@[k]@, dialect, language@, max_chars),
            crate::notes::prompts::chunks_view(out@) == budget_split(
                input.take(it.index() as int),
                dialect,
                language@,
                max_chars,
            ),
    {
        let ghost k = it.index() as int;
        let ghost before = out@;
        assert(chunk@ == input[k]);
        push_rendered_budget_chunk(chunk, dialect, language, max_chars, &mut out);
        assert forall|j: int| 0 <= j < out@.len() implies within_budget(
            #[trigger] out@[j]@,
            dialect,
            language@,
            max_chars,
        ) by {
            if j < before.len() {
                assert(out@[j] == out@.subrange(0, before.len() as int)[j]);
            }
        }
        assert(crate::notes::prompts::chunks_view(out@) =~= crate::notes::prompts::chunks_view(before)
            + crate::notes::prompts::chunks_view(out@.subrange(before.len() as int, out@.len() as int))) by {
            assert(out@ =~= before + out@.subrange(before.len() as int, out@.len() as int));
        }
        proof {
            vstd::seq_lib::lemma_flatten_concat(
                crate::notes::prompts::chunks_view(before),
                crate::notes::prompts::chunks_view(out@.subrange(before.len() as int, out@.len() as int)),
            );
            assert(input.take(k + 1) =~= input.take(k).push(input[k]));
            input.take(k).lemma_flatten_push(input[k]);
            assert(input.take(k + 1).drop_last() =~= input.take(k));
        }
    }
    assert(input.take(input.len() as int) =~= input);
    out
}


// ---- sections -------------------------------------------------------------

/// An owner value that names `id` (see `owner_id`).
pub open spec fn owner_model_names(owner: Option<Seq<char>>, id: u32) -> bool {
    owner matches Some(o) && owner_id(o) == Some(id)
}

/// The speaker ids a draft references, in its narrative or as an action
/// item's owner, that are not allowed.
pub open spec fn draft_disallowed(dm: DraftModel, allowed: Set<u32>) -> Set<u32> {
    referenced_ids(dm.narrative_md).union(
        Set::new(
            |id: u32|
                exists|k: int|
                    0 <= k < dm.action_items.len() && owner_model_names((#[trigger] dm.action_items[k]).1, id),
        ),
    ).difference(allowed)
}

/// The ids a draft's action items name, read from the items or from their
/// values, are the same.
proof fn lemma_draft_disallowed(d: SectionDraft, allowed: Set<u32>)
    ensures
        disallowed_ids(d.narrative_md@, d.action_items@, allowed) == draft_disallowed(d@, allowed),
{
    let items = d.action_items@;
    let owners = Set::new(
        |id: u32|
            exists|k: int|
                0 <= k < d@.action_items.len() && owner_model_names((#[trigger] d@.action_items[k]).1, id),
    );
    assert forall|id: u32| owner_ids_before(items, items.len() as int).contains(id) <==> owners.contains(id) by {
        if owner_ids_before(items, items.len() as int).contains(id) {
            let k = choose|k: int| 0 <= k < items.len() && owner_names(#[trigger] items[k], id);
            assert(d@.action_items[k] == action_view(items[k]));
        }
        if owners.contains(id) {
            let k = choose|k: int|
                0 <= k < d@.action_items.len() && owner_model_names((#[trigger] d@.action_items[k]).1, id);
            assert(d@.action_items[k] == action_view(items[k]));
            assert(owner_names(items[k], id));
        }
    }
    assert(owner_ids_before(items, items.len() as int) =~= owners);
}

/// What a section came out as: a fallback for some error text, or a JSON
/// narrative whose text and action-item owners reference only allowed
/// speakers.
pub open spec fn acceptable(
    dm: DraftModel,
    range: (u64, u64),
    segs: Seq<Segment>,
    dialect: MarkdownDialect,
    allowed: Set<u32>,
) -> bool {
    ||| exists|e: Seq<char>| dm == #[trigger] draft_fallback(range, segs, e, dialect)
    ||| (exists|v: JsonModel| dm == #[trigger] draft_from_json(range, v)) && draft_disallowed(
        dm,
        allowed,
    ).is_empty()
}

/// `acceptable` of a draft.
pub open spec fn acceptable_draft(
    d: SectionDraft,
    range: (u64, u64),
    segs: Seq<Segment>,
    dialect: MarkdownDialect,
    allowed: Set<u32>,
) -> bool {
    acceptable(d@, range, segs, dialect, allowed)
}

/// The draft a JSON narrative gives if it references only allowed speakers,
/// else the verifier fallback.
pub open spec fn checked_json_draft(
    range: (u64, u64),
    segs: Seq<Segment>,
    v: JsonModel,
    dialect: MarkdownDialect,
    allowed: Set<u32>,
) -> DraftModel {
    if draft_disallowed(draft_from_json(range, v), allowed).is_empty() {
        draft_from_json(range, v)
    } else {
        draft_fallback(range, segs, "verifier: disallowed speaker reference"@, dialect)
    }
}

/// The draft a section call's answer gives, and the message of the model
/// error when the call failed: a JSON answer checked for speakers, a text
/// answer or a failure falling back to the transcript.
pub open spec fn section_outcome_spec(
    range: (u64, u64),
    segs: Seq<Segment>,
    resp: Result<Result<Seq<char>, JsonModel>, Seq<char>>,
    dialect: MarkdownDialect,
    allowed: Set<u32>,
) -> (DraftModel, Option<Seq<char>>) {
    match resp {
        Ok(Err(v)) => (checked_json_draft(range, segs, v, dialect, allowed), None),
        Ok(Ok(_)) => (draft_fallback(range, segs, "llm returned text, expected json"@, dialect), None),
        Err(m) => (draft_fallback(range, segs, m, dialect), Some(m)),
    }
}

/// A call's answer as values: the response, or the error's message.
pub open spec fn answer_view(r: Result<LlmResponse, LlmError>) -> Result<
    Result<Seq<char>, JsonModel>,
    Seq<char>,
> {
    match r {
        Ok(resp) => Ok(response_view(resp)),
        Err(e) => Err(llm_error_text(e)),
    }
}

// ---- the calls a generation makes -----------------------------------------

/// One model call: the request sent and the answer that came back.
pub type Call = (LlmRequest, Result<LlmResponse, LlmError>);

/// Every call of `log` got an answer that `llm` may give to its request.
pub open spec fn answered_by<L: LlmProvider>(llm: &L, log: Seq<Call>) -> bool {
    forall|i: int| 0 <= i < log.len() ==> llm.answers((#[trigger] log[i]).0, log[i].1)
}

/// A JSON answer.
pub open spec fn is_json_answer(a: Result<LlmResponse, LlmError>) -> bool {
    a matches Ok(LlmResponse::Json(_))
}

/// The JSON of a JSON answer.
pub open spec fn answer_json(a: Result<LlmResponse, LlmError>) -> JsonModel {
    a->Ok_0->Json_0@
}

/// The model error's message, for an answer that is an error.
pub open spec fn answer_error(a: Result<LlmResponse, LlmError>) -> Option<Seq<char>> {
    match a {
        Err(e) => Some(llm_error_text(e)),
        Ok(_) => None,
    }
}

/// The JSON of each answer of a run of calls.
pub open spec fn json_answers(log: Seq<Call>) -> Seq<JsonModel> {
    log.map_values(|c: Call| answer_json(c.1))
}

/// Why a merge failed: its message, and the message of the model error
/// behind it, if any.
pub type MergeFail = (Seq<char>, Option<Seq<char>>);

/// `LLM unavailable`: the header text of a section whose chunk or merge
/// call did not give JSON.
pub open spec fn llm_unavailable() -> Seq<char> {
    "LLM unavailable"@
}

/// The failure of merging no summaries at all.
pub open spec fn no_summaries() -> Seq<char> {
    "merge LLM call failed: no chunk summaries"@
}

/// The failure of a merge round that can merge no two summaries.
pub open spec fn cannot_reduce() -> Seq<char> {
    "merge LLM call failed: chunk summaries cannot be reduced within context threshold"@
}

/// The rendered size of the merge request over the summaries `vs`.
pub open spec fn merge_size(vs: Seq<JsonModel>, dialect: MarkdownDialect, language: Seq<char>) -> nat {
    crate::text::utf8_len(crate::notes::prompts::SECTION_NARRATIVE_SYSTEM@) + crate::text::utf8_len(
        crate::notes::prompts::merge_user(vs, dialect, language),
    ) + crate::text::utf8_len(crate::notes::prompts::SECTION_NARRATIVE_SCHEMA@)
}

/// The merge request over `round[lo..hi]` fits the context threshold.
pub open spec fn merge_fits(round: Seq<JsonModel>, lo: int, hi: int, dialect: MarkdownDialect, language: Seq<char>) -> bool {
    capped(merge_size(round.subrange(lo, hi), dialect, language)) <= SECTION_CHUNK_THRESHOLD_CHARS
}

/// Where the merge group that starts at `lo` and reaches `hi` ends: it
/// takes the next summary while the merge request over the group still
/// fits.
pub open spec fn group_end(round: Seq<JsonModel>, lo: int, hi: int, dialect: MarkdownDialect, language: Seq<char>) -> int
    decreases round.len() - hi,
{
    if hi < round.len() && merge_fits(round, lo, hi + 1, dialect, language) {
        group_end(round, lo, hi + 1, dialect, language)
    } else {
        hi
    }
}

/// The groups of a merge round from `lo` on: consecutive `(lo, hi)`
/// ranges, each as long as `group_end` makes it.
pub open spec fn groups_from(round: Seq<JsonModel>, lo: int, dialect: MarkdownDialect, language: Seq<char>) -> Seq<(int, int)>
    decreases round.len() - lo,
{
    if lo < 0 || lo >= round.len() {
        Seq::empty()
    } else {
        let e = group_end(round, lo, lo + 1, dialect, language);
        if e <= lo || e > round.len() {
            Seq::empty()
        } else {
            seq![(lo, e)] + groups_from(round, e, dialect, language)
        }
    }
}

/// A group of two or more summaries: one merge call merges it.
pub open spec fn merged_pred() -> spec_fn((int, int)) -> bool {
    |p: (int, int)| p.1 - p.0 >= 2
}

/// The groups that a call merges, in order.
pub open spec fn merged_groups(g: Seq<(int, int)>) -> Seq<(int, int)> {
    g.filter(merged_pred())
}

/// The summaries after a round: each group of one as it is, each merged
/// group replaced by its merge result (`merged`, in order).
pub open spec fn next_round(round: Seq<JsonModel>, g: Seq<(int, int)>, merged: Seq<JsonModel>) -> Seq<JsonModel>
    decreases g.len(),
{
    if g.len() == 0 {
        Seq::empty()
    } else if g.last().1 - g.last().0 >= 2 {
        next_round(round, g.drop_last(), merged.drop_last()).push(merged.last())
    } else {
        next_round(round, g.drop_last(), merged).push(round[g.last().0])
    }
}

/// The calls of one merge round and what it gives: one merge request per
/// merged group, in order, up to the first answer that is not JSON; the
/// next round when every answer was JSON, the `LLM unavailable` failure
/// at the first that was not, and the cannot-reduce failure when no group
/// holds two summaries.
pub open spec fn merge_round_run(
    round: Seq<JsonModel>,
    log: Seq<Call>,
    out: Result<Seq<JsonModel>, MergeFail>,
    dialect: MarkdownDialect,
    language: Seq<char>,
) -> bool {
    let g = groups_from(round, 0, dialect, language);
    let m = merged_groups(g);
    &&& log.len() <= m.len()
    &&& forall|i: int|
        0 <= i < log.len() ==> is_merge_request((#[trigger] log[i]).0, round.subrange(m[i].0, m[i].1), dialect, language)
    &&& forall|i: int| 0 <= i < log.len() - 1 ==> is_json_answer((#[trigger] log[i]).1)
    &&& if m.len() == 0 {
        out == Err::<Seq<JsonModel>, MergeFail>((cannot_reduce(), None))
    } else if log.len() == m.len() && is_json_answer(log.last().1) {
        out == Ok::<Seq<JsonModel>, MergeFail>(next_round(round, g, json_answers(log)))
    } else {
        &&& log.len() > 0
        &&& !is_json_answer(log.last().1)
        &&& out == Err::<Seq<JsonModel>, MergeFail>((llm_unavailable(), answer_error(log.last().1)))
    }
}

/// The calls that merge chunk summaries and the result: no summaries is a
/// failure, one is the result with no call, and more go through rounds
/// (`merge_round_run`) until one is left or a round fails.
pub open spec fn merge_run(
    summaries: Seq<JsonModel>,
    log: Seq<Call>,
    out: Result<JsonModel, MergeFail>,
    dialect: MarkdownDialect,
    language: Seq<char>,
) -> bool
    decreases summaries.len(),
{
    if summaries.len() == 0 {
        log.len() == 0 && out == Err::<JsonModel, MergeFail>((no_summaries(), None))
    } else if summaries.len() == 1 {
        log.len() == 0 && out == Ok::<JsonModel, MergeFail>(summaries[0])
    } else {
        exists|k: int, next: Result<Seq<JsonModel>, MergeFail>|
            #![trigger merge_round_run(summaries, log.take(k), next, dialect, language)]
            0 <= k <= log.len() && merge_round_run(summaries, log.take(k), next, dialect, language) && match next {
                Ok(nr) => nr.len() < summaries.len() && merge_run(nr, log.skip(k), out, dialect, language),
                Err(f) => k == log.len() && out == Err::<JsonModel, MergeFail>(f),
            }
    }
}

/// The narrative request over `segs` fits the context threshold.
pub open spec fn section_prompt_fits(segs: Seq<Segment>, dialect: MarkdownDialect, language: Seq<char>) -> bool {
    capped(section_size(segs, dialect, language)) <= SECTION_CHUNK_THRESHOLD_CHARS
}

/// The chunks a long section is cut into: runs of about 4000 estimated
/// characters (`split_chunks`), each then cut to the rendered budget
/// (`budget_split`).
pub open spec fn section_cut(segs: Seq<Segment>, dialect: MarkdownDialect, language: Seq<char>) -> Seq<Seq<Segment>> {
    budget_split(
        crate::notes::prompts::split_chunks(
            segs,
            SECTION_CHUNK_TARGET_CHARS as nat,
            SECTION_CHUNK_THRESHOLD_CHARS as nat,
        ),
        dialect,
        language,
        SECTION_CHUNK_THRESHOLD_CHARS,
    )
}

/// Chunks of a section: its segments in order, cut into runs that are each
/// within the budget (a single segment may exceed it).
pub open spec fn section_chunks(c: Seq<Seq<Segment>>, segs: Seq<Segment>, dialect: MarkdownDialect, language: Seq<char>) -> bool {
    &&& c.flatten() == segs
    &&& forall|k: int| 0 <= k < c.len() ==> within_budget(#[trigger] c[k], dialect, language, SECTION_CHUNK_THRESHOLD_CHARS)
}

/// The chunk calls of a long section: one narrative request per chunk, in
/// order, up to and including the first answer that is not JSON.
pub open spec fn chunk_calls(log: Seq<Call>, c: Seq<Seq<Segment>>, dialect: MarkdownDialect, language: Seq<char>) -> bool {
    &&& log.len() <= c.len()
    &&& forall|i: int| 0 <= i < log.len() ==> is_section_request((#[trigger] log[i]).0, c[i], dialect, language)
    &&& forall|i: int| 0 <= i < log.len() - 1 ==> is_json_answer((#[trigger] log[i]).1)
    &&& log.len() < c.len() ==> log.len() > 0 && !is_json_answer(log.last().1)
}

/// A section's outcome from the merge of its chunk summaries: the merged
/// JSON checked for speakers, or a fallback under the merge's failure.
pub open spec fn merged_outcome(
    range: (u64, u64),
    segs: Seq<Segment>,
    m: Result<JsonModel, MergeFail>,
    dialect: MarkdownDialect,
    allowed: Set<u32>,
) -> (DraftModel, Option<Seq<char>>) {
    match m {
        Ok(v) => (checked_json_draft(range, segs, v, dialect, allowed), None),
        Err(f) => (draft_fallback(range, segs, f.0, dialect), f.1),
    }
}

/// The calls a section makes and the outcome they give. A section whose
/// narrative request fits makes that one call (`section_outcome_spec`).
/// Otherwise its segments are cut into chunks, each chunk's request sent in
/// order; the first answer that is not JSON ends the section under `LLM
/// unavailable`, and when all are JSON the summaries are merged
/// (`merge_run`).
pub open spec fn section_run(
    range: (u64, u64),
    segs: Seq<Segment>,
    language: Seq<char>,
    dialect: MarkdownDialect,
    allowed: Set<u32>,
    log: Seq<Call>,
    outcome: (DraftModel, Option<Seq<char>>),
) -> bool {
    if section_prompt_fits(segs, dialect, language) {
        &&& log.len() == 1
        &&& is_section_request(log[0].0, segs, dialect, language)
        &&& outcome == section_outcome_spec(range, segs, answer_view(log[0].1), dialect, allowed)
    } else {
        exists|c: Seq<Seq<Segment>>, k: int|
            #![trigger chunk_calls(log.take(k), c, dialect, language)]
            {
                &&& 0 <= k <= log.len()
                &&& c == section_cut(segs, dialect, language)
                &&& section_chunks(c, segs, dialect, language)
                &&& chunk_calls(log.take(k), c, dialect, language)
                &&& if k > 0 && !is_json_answer(log[k - 1].1) {
                    &&& log.len() == k
                    &&& outcome == (draft_fallback(range, segs, llm_unavailable(), dialect), answer_error(log[k - 1].1))
                } else {
                    exists|mo: Result<JsonModel, MergeFail>|
                        #[trigger] merge_run(json_answers(log.take(k)), log.skip(k), mo, dialect, language)
                            && outcome == merged_outcome(range, segs, mo, dialect, allowed)
                }
            }
    }
}


/// A merged group's request fits: a group grows past one summary only
/// while its merge request fits.
proof fn lemma_group_end_fits(round: Seq<JsonModel>, lo: int, hi: int, dialect: MarkdownDialect, language: Seq<char>)
    requires
        0 <= lo < hi <= round.len(),
    ensures
        group_end(round, lo, hi, dialect, language) == hi || merge_fits(
            round,
            lo,
            group_end(round, lo, hi, dialect, language),
            dialect,
            language,
        ),
    decreases round.len() - hi,
{
    if hi < round.len() && merge_fits(round, lo, hi + 1, dialect, language) {
        lemma_group_end_fits(round, lo, hi + 1, dialect, language);
    }
}

proof fn lemma_groups_fit(round: Seq<JsonModel>, lo: int, dialect: MarkdownDialect, language: Seq<char>)
    requires
        0 <= lo <= round.len(),
    ensures
        forall|p: (int, int)|
            #[trigger] groups_from(round, lo, dialect, language).contains(p) && p.1 - p.0 >= 2 ==> merge_fits(
                round,
                p.0,
                p.1,
                dialect,
                language,
            ),
    decreases round.len() - lo,
{
    if lo < round.len() {
        let e = group_end(round, lo, lo + 1, dialect, language);
        lemma_group_end(round, lo, lo + 1, dialect, language);
        lemma_group_end_fits(round, lo, lo + 1, dialect, language);
        lemma_groups_fit(round, e, dialect, language);
        let rest = groups_from(round, e, dialect, language);
        let g = groups_from(round, lo, dialect, language);
        assert(g == seq![(lo, e)] + rest);
        assert forall|p: (int, int)| #[trigger] g.contains(p) && p.1 - p.0 >= 2 implies merge_fits(
            round,
            p.0,
            p.1,
            dialect,
            language,
        ) by {
            let j = choose|j: int| 0 <= j < g.len() && g[j] == p;
            if j > 0 {
                assert(rest[j - 1] == p);
                assert(rest.contains(p));
            }
        }
    }
}

/// Every merge request of a round fits the context threshold.
proof fn lemma_round_requests_fit(
    round: Seq<JsonModel>,
    log: Seq<Call>,
    out: Result<Seq<JsonModel>, MergeFail>,
    dialect: MarkdownDialect,
    language: Seq<char>,
)
    requires
        merge_round_run(round, log, out, dialect, language),
    ensures
        forall|i: int| 0 <= i < log.len() ==> capped(rendered_size((#[trigger] log[i]).0)) <= SECTION_CHUNK_THRESHOLD_CHARS,
{
    let g = groups_from(round, 0, dialect, language);
    let m = merged_groups(g);
    lemma_groups_fit(round, 0, dialect, language);
    assert forall|i: int| 0 <= i < log.len() implies capped(rendered_size((#[trigger] log[i]).0))
        <= SECTION_CHUNK_THRESHOLD_CHARS by {
        g.lemma_filter_pred(merged_pred(), i);
        assert(m.contains(m[i]));
        g.lemma_filter_contains_rev(merged_pred(), m[i]);
        assert(is_merge_request(log[i].0, round.subrange(m[i].0, m[i].1), dialect, language));
    }
}

/// Every request that merging chunk summaries sends fits the context
/// threshold.
pub proof fn law_merge_requests_fit(
    summaries: Seq<JsonModel>,
    log: Seq<Call>,
    out: Result<JsonModel, MergeFail>,
    dialect: MarkdownDialect,
    language: Seq<char>,
)
    requires
        merge_run(summaries, log, out, dialect, language),
    ensures
        forall|i: int| 0 <= i < log.len() ==> capped(rendered_size((#[trigger] log[i]).0)) <= SECTION_CHUNK_THRESHOLD_CHARS,
    decreases summaries.len(),
{
    if summaries.len() > 1 {
        let (k, next) = choose|k: int, next: Result<Seq<JsonModel>, MergeFail>|
            0 <= k <= log.len() && #[trigger] merge_round_run(summaries, log.take(k), next, dialect, language)
                && match next {
                Ok(nr) => nr.len() < summaries.len() && merge_run(nr, log.skip(k), out, dialect, language),
                Err(f) => k == log.len() && out == Err::<JsonModel, MergeFail>(f),
            };
        lemma_round_requests_fit(summaries, log.take(k), next, dialect, language);
        match next {
            Ok(nr) => {
                law_merge_requests_fit(nr, log.skip(k), out, dialect, language);
                assert forall|i: int| 0 <= i < log.len() implies capped(rendered_size((#[trigger] log[i]).0))
                    <= SECTION_CHUNK_THRESHOLD_CHARS by {
                    if i < k {
                        assert(log.take(k)[i] == log[i]);
                    } else {
                        assert(log.skip(k)[i - k] == log[i]);
                    }
                }
            },
            Err(_) => {
                assert forall|i: int| 0 <= i < log.len() implies capped(rendered_size((#[trigger] log[i]).0))
                    <= SECTION_CHUNK_THRESHOLD_CHARS by {
                    assert(log.take(k)[i] == log[i]);
                }
            },
        }
    }
}

/// A chunk of one segment holds a segment of the section.
proof fn lemma_flatten_member(c: Seq<Seq<Segment>>, i: int, j: int)
    requires
        0 <= i < c.len(),
        0 <= j < c[i].len(),
    ensures
        c.flatten().contains(c[i][j]),
    decreases c.len(),
{
    if i == 0 {
        assert(c.flatten() == c.first() + c.drop_first().flatten());
        assert((c.first() + c.drop_first().flatten())[j] == c[i][j]);
    } else {
        lemma_flatten_member(c.drop_first(), i - 1, j);
        assert(c.flatten() == c.first() + c.drop_first().flatten());
        let k = choose|k: int| 0 <= k < c.drop_first().flatten().len() && c.drop_first().flatten()[k] == c[i][j];
        assert((c.first() + c.drop_first().flatten())[c.first().len() + k] == c[i][j]);
    }
}

/// Every request a section sends fits the context threshold, where each of
/// its segments alone fits it (a segment that alone exceeds the threshold
/// is sent in a request of its own).
pub proof fn law_section_requests_fit(
    range: (u64, u64),
    segs: Seq<Segment>,
    language: Seq<char>,
    dialect: MarkdownDialect,
    allowed: Set<u32>,
    log: Seq<Call>,
    outcome: (DraftModel, Option<Seq<char>>),
)
    requires
        section_run(range, segs, language, dialect, allowed, log, outcome),
        forall|s: Segment| #[trigger] segs.contains(s) ==> section_prompt_fits(seq![s], dialect, language),
    ensures
        forall|i: int| 0 <= i < log.len() ==> capped(rendered_size((#[trigger] log[i]).0)) <= SECTION_CHUNK_THRESHOLD_CHARS,
{
    if !section_prompt_fits(segs, dialect, language) {
        let (c, k) = choose|c: Seq<Seq<Segment>>, k: int|
            {
                &&& 0 <= k <= log.len()
                &&& c == section_cut(segs, dialect, language)
                &&& section_chunks(c, segs, dialect, language)
                &&& #[trigger] chunk_calls(log.take(k), c, dialect, language)
                &&& if k > 0 && !is_json_answer(log[k - 1].1) {
                    &&& log.len() == k
                    &&& outcome == (draft_fallback(range, segs, llm_unavailable(), dialect), answer_error(log[k - 1].1))
                } else {
                    exists|mo: Result<JsonModel, MergeFail>|
                        #[trigger] merge_run(json_answers(log.take(k)), log.skip(k), mo, dialect, language)
                            && outcome == merged_outcome(range, segs, mo, dialect, allowed)
                }
            };
        if !(k > 0 && !is_json_answer(log[k - 1].1)) {
            let mo = choose|mo: Result<JsonModel, MergeFail>|
                #[trigger] merge_run(json_answers(log.take(k)), log.skip(k), mo, dialect, language)
                    && outcome == merged_outcome(range, segs, mo, dialect, allowed);
            law_merge_requests_fit(json_answers(log.take(k)), log.skip(k), mo, dialect, language);
        }
        assert forall|i: int| 0 <= i < log.len() implies capped(rendered_size((#[trigger] log[i]).0))
            <= SECTION_CHUNK_THRESHOLD_CHARS by {
            if i < k {
                assert(log.take(k)[i] == log[i]);
                assert(within_budget(c[i], dialect, language, SECTION_CHUNK_THRESHOLD_CHARS));
                if c[i].len() == 1 {
                    lemma_flatten_member(c, i, 0);
                    assert(c[i] =~= seq![c[i][0]]);
                }
            } else {
                assert(log.skip(k)[i - k] == log[i]);
            }
        }
    }
}

/// A section's draft, and the message of the model error that forced its
/// fallback, if one did.
pub struct SectionOutcome {
    pub draft: SectionDraft,
    pub llm_error: Option<String>,
}

/// Why merging chunk summaries failed, and whether a model error caused it.
struct MergeFailure {
    message: String,
    llm_error: Option<String>,
}

/// A merge round's result as values.
spec fn round_view(r: Result<Vec<JsonValue>, MergeFailure>) -> Result<Seq<JsonModel>, MergeFail> {
    match r {
        Ok(v) => Ok(json_models(v@)),
        Err(f) => Err((f.message@, crate::storage::opt_view(f.llm_error))),
    }
}

/// A merge's result as values.
spec fn merged_view(r: Result<JsonValue, MergeFailure>) -> Result<JsonModel, MergeFail> {
    match r {
        Ok(v) => Ok(v@),
        Err(f) => Err((f.message@, crate::storage::opt_view(f.llm_error))),
    }
}

/// Index pairs as integers.
spec fn pairs_view(v: Seq<(usize, usize)>) -> Seq<(int, int)> {
    v.map_values(|p: (usize, usize)| (p.0 as int, p.1 as int))
}

proof fn lemma_answered_concat<L: LlmProvider>(llm: &L, a: Seq<Call>, b: Seq<Call>)
    requires
        answered_by(llm, a),
        answered_by(llm, b),
    ensures
        answered_by(llm, a + b),
{
    assert forall|i: int| 0 <= i < (a + b).len() implies llm.answers((#[trigger] (a + b)[i]).0, (a + b)[i].1) by {
        if i < a.len() {
            assert((a + b)[i] == a[i]);
        } else {
            assert((a + b)[i] == b[i - a.len()]);
        }
    }
}

proof fn lemma_group_end(round: Seq<JsonModel>, lo: int, hi: int, dialect: MarkdownDialect, language: Seq<char>)
    requires
        0 <= lo < hi <= round.len(),
    ensures
        hi <= group_end(round, lo, hi, dialect, language) <= round.len(),
    decreases round.len() - hi,
{
    if hi < round.len() && merge_fits(round, lo, hi + 1, dialect, language) {
        lemma_group_end(round, lo, hi + 1, dialect, language);
    }
}

/// The groups of a round from `lo` cover it in order; there are at least
/// one, and each merged group takes the place of two or more summaries.
proof fn lemma_groups_from(round: Seq<JsonModel>, lo: int, dialect: MarkdownDialect, language: Seq<char>)
    requires
        0 <= lo <= round.len(),
    ensures
        ({
            let g = groups_from(round, lo, dialect, language);
            &&& g.len() + merged_groups(g).len() <= round.len() - lo
            &&& lo < round.len() ==> g.len() >= 1
            &&& forall|k: int| 0 <= k < g.len() ==> lo <= (#[trigger] g[k]).0 < g[k].1 <= round.len()
        }),
    decreases round.len() - lo,
{
    if lo < round.len() {
        let e = group_end(round, lo, lo + 1, dialect, language);
        lemma_group_end(round, lo, lo + 1, dialect, language);
        lemma_groups_from(round, e, dialect, language);
        let rest = groups_from(round, e, dialect, language);
        let g = groups_from(round, lo, dialect, language);
        assert(g == seq![(lo, e)] + rest);
        Seq::filter_distributes_over_add(seq![(lo, e)], rest, merged_pred());
        assert(seq![(lo, e)].filter(merged_pred()).len() <= 1) by {
            reveal_with_fuel(Seq::filter, 2);
        }
        if e - lo >= 2 {
            assert(seq![(lo, e)].filter(merged_pred()).len() == 1) by {
                reveal_with_fuel(Seq::filter, 2);
            }
        } else {
            assert(seq![(lo, e)].filter(merged_pred()).len() == 0) by {
                reveal_with_fuel(Seq::filter, 2);
            }
        }
        assert forall|k: int| 0 <= k < g.len() implies lo <= (#[trigger] g[k]).0 < g[k].1 <= round.len() by {
            if k > 0 {
                assert(g[k] == rest[k - 1]);
            }
        }
    } else {
        assert(merged_groups(Seq::<(int, int)>::empty()) =~= Seq::<(int, int)>::empty());
    }
}

/// The merged groups among the first `b` groups come first among all.
proof fn lemma_merged_prefix(g: Seq<(int, int)>, b: int)
    requires
        0 <= b <= g.len(),
    ensures
        merged_groups(g.take(b)).len() <= merged_groups(g).len(),
        forall|i: int|
            0 <= i < merged_groups(g.take(b)).len() ==> #[trigger] merged_groups(g.take(b))[i] == merged_groups(
                g,
            )[i],
{
    assert(g =~= g.take(b) + g.skip(b));
    Seq::filter_distributes_over_add(g.take(b), g.skip(b), merged_pred());
}

proof fn lemma_next_round_len(round: Seq<JsonModel>, g: Seq<(int, int)>, merged: Seq<JsonModel>)
    ensures
        next_round(round, g, merged).len() == g.len(),
    decreases g.len(),
{
    if g.len() > 0 {
        if g.last().1 - g.last().0 >= 2 {
            lemma_next_round_len(round, g.drop_last(), merged.drop_last());
        } else {
            lemma_next_round_len(round, g.drop_last(), merged);
        }
    }
}

/// Generates notes with `llm`, in `dialect`.
pub struct NotesGenerator<'a, L: LlmProvider> {
    pub llm: &'a L,
    pub dialect: MarkdownDialect,
}

/// The draft of a JSON narrative if it names only allowed speakers, else
/// the verifier fallback.
fn checked_draft(
    time_range_ms: (u64, u64),
    segs: &[Segment],
    v: &JsonValue,
    dialect: MarkdownDialect,
    allowed: &HashSet<u32>,
) -> (r: SectionDraft)
    ensures
        r@ == checked_json_draft(time_range_ms, segs@, v@, dialect, allowed@),
        acceptable_draft(r, time_range_ms, segs@, dialect, allowed@),
{
    let draft = SectionDraft::from_json(time_range_ms, v);
    proof {
        lemma_draft_disallowed(draft, allowed@);
    }
    match verify_section_attribution(draft.narrative_md.as_str(), draft.action_items.as_slice(), allowed) {
        VerifierReport::AllAllowed => {
            assert(draft@ == draft_from_json(time_range_ms, v@));
            draft
        },
        VerifierReport::DisallowedSpeakers(_) => {
            let r = SectionDraft::fallback(
                time_range_ms,
                segs,
                "verifier: disallowed speaker reference",
                dialect,
            );
            assert(r@ == draft_fallback(
                time_range_ms,
                segs@,
                "verifier: disallowed speaker reference"@,
                dialect,
            ));
            r
        },
    }
}

/// A fallback outcome for `err`, remembering the model error if any.
fn fallback_outcome(
    time_range_ms: (u64, u64),
    segs: &[Segment],
    err: &str,
    dialect: MarkdownDialect,
    llm_error: Option<String>,
    allowed: &HashSet<u32>,
) -> (r: SectionOutcome)
    ensures
        r.draft@ == draft_fallback(time_range_ms, segs@, err@, dialect),
        acceptable_draft(r.draft, time_range_ms, segs@, dialect, allowed@),
        r.llm_error == llm_error,
{
    let draft = SectionDraft::fallback(time_range_ms, segs, err, dialect);
    SectionOutcome { draft, llm_error }
}

/// The outcome of a section's narrative call (see `section_outcome_spec`).
pub fn section_outcome(
    time_range_ms: (u64, u64),
    segs: &[Segment],
    answer: Result<LlmResponse, LlmError>,
    dialect: MarkdownDialect,
    allowed: &HashSet<u32>,
) -> (r: SectionOutcome)
    ensures
        (r.draft@, crate::storage::opt_view(r.llm_error)) == section_outcome_spec(
            time_range_ms,
            segs@,
            answer_view(answer),
            dialect,
            allowed@,
        ),
        acceptable_draft(r.draft, time_range_ms, segs@, dialect, allowed@),
{
    match answer {
        Ok(LlmResponse::Json(v)) => {
            let draft = checked_draft(time_range_ms, segs, &v, dialect, allowed);
            SectionOutcome { draft, llm_error: None }
        },
        Ok(LlmResponse::Text(_)) => fallback_outcome(
            time_range_ms,
            segs,
            "llm returned text, expected json",
            dialect,
            None,
            allowed,
        ),
        Err(e) => {
            let m = e.message();
            let r = fallback_outcome(time_range_ms, segs, m.as_str(), dialect, Some(m.clone()), allowed);
            assert(r.draft@ == draft_fallback(time_range_ms, segs@, m@, dialect));
            r
        },
    }
}

impl<'a, L: LlmProvider> NotesGenerator<'a, L> {
    /// One narrative call for a section whose prompt fits.
    fn process_single_section(
        &self,
        time_range_ms: (u64, u64),
        segs: &[Segment],
        req: LlmRequest,
        allowed: &HashSet<u32>,
    ) -> (r: (SectionOutcome, Ghost<Seq<Call>>))
        ensures
            answered_by(self.llm, r.1@),
            r.1@.len() == 1,
            r.1@[0].0 == req,
            (r.0.draft@, crate::storage::opt_view(r.0.llm_error)) == section_outcome_spec(
                time_range_ms,
                segs@,
                answer_view(r.1@[0].1),
                self.dialect,
                allowed@,
            ),
            acceptable_draft(r.0.draft, time_range_ms, segs@, self.dialect, allowed@),
    {
        let ghost greq = req;
        let answer = self.llm.complete(req);
        let ghost log: Seq<Call> = seq![(greq, answer)];
        let outcome = section_outcome(time_range_ms, segs, answer, self.dialect, allowed);
        assert(log[0] == (greq, answer));
        (outcome, Ghost(log))
    }

    /// A section's draft (see `section_run`): one narrative call when its
    /// rendered prompt fits the context threshold; otherwise the section is
    /// cut into chunks that fit, each chunk summarised, and the summaries
    /// merged.
    fn process_section(
        &self,
        time_range_ms: (u64, u64),
        segs: &[Segment],
        language: &str,
        allowed: &HashSet<u32>,
    ) -> (r: (SectionOutcome, Ghost<Seq<Call>>))
        requires
            transcript_estimate(segs@) <= usize::MAX,
        ensures
            answered_by(self.llm, r.1@),
            section_run(
                time_range_ms,
                segs@,
                language@,
                self.dialect,
                allowed@,
                r.1@,
                (r.0.draft@, crate::storage::opt_view(r.0.llm_error)),
            ),
            acceptable_draft(r.0.draft, time_range_ms, segs@, self.dialect, allowed@),
    {
        let single_req = build_section_narrative_prompt(segs, self.dialect, language);
        if rendered_chars_capped(&single_req) <= SECTION_CHUNK_THRESHOLD_CHARS {
            return self.process_single_section(time_range_ms, segs, single_req, allowed);
        }
        let initial_chunks = split_segments_for_chunking(
            segs,
            SECTION_CHUNK_TARGET_CHARS,
            SECTION_CHUNK_THRESHOLD_CHARS,
        );
        proof {
            crate::notes::prompts::lemma_split_chunks(
                segs@,
                SECTION_CHUNK_TARGET_CHARS as nat,
                SECTION_CHUNK_THRESHOLD_CHARS as nat,
            );
            assert forall|k: int| 0 <= k < initial_chunks@.len() implies (#[trigger] initial_chunks@[k])@.len() > 0 by {
                assert(crate::notes::prompts::chunks_view(initial_chunks@)[k] == initial_chunks@[k]@);
            }
        }
        let chunks = split_chunks_to_rendered_budget(
            initial_chunks,
            self.dialect,
            language,
            SECTION_CHUNK_THRESHOLD_CHARS,
        );
        let ghost c = crate::notes::prompts::chunks_view(chunks@);
        proof {
            assert forall|k: int| 0 <= k < c.len() implies within_budget(
                #[trigger] c[k],
                self.dialect,
                language@,
                SECTION_CHUNK_THRESHOLD_CHARS,
            ) by {
                assert(c[k] == chunks@[k]@);
            }
            assert(section_chunks(c, segs@, self.dialect, language@));
            assert(c == section_cut(segs@, self.dialect, language@));
        }
        assert(!section_prompt_fits(segs@, self.dialect, language@));
        let mut chunk_summaries: Vec<JsonValue> = Vec::new();
        let ghost mut log: Seq<Call> = Seq::empty();
        let mut i: usize = 0;
        assert(json_models(chunk_summaries@) =~= json_answers(log));
        while i < chunks.len()
            invariant
                i <= chunks@.len(),
                !section_prompt_fits(segs@, self.dialect, language@),
                section_chunks(c, segs@, self.dialect, language@),
                c == section_cut(segs@, self.dialect, language@),
                c == crate::notes::prompts::chunks_view(chunks@),
                log.len() == i,
                forall|j: int| 0 <= j < log.len() ==> is_section_request((#[trigger] log[j]).0, c[j], self.dialect, language@),
                forall|j: int| 0 <= j < log.len() ==> is_json_answer((#[trigger] log[j]).1),
                answered_by(self.llm, log),
                json_models(chunk_summaries@) == json_answers(log),
            decreases chunks@.len() - i,
        {
            let req = build_section_narrative_prompt(chunks[i].as_slice(), self.dialect, language);
            assert(c[i as int] == chunks@[i as int]@);
            let ghost greq = req;
            let answer = self.llm.complete(req);
            let ghost before = log;
            proof {
                log = log.push((greq, answer));
                assert forall|j: int| 0 <= j < before.len() implies #[trigger] log[j] == before[j] by {}
                assert forall|j: int| 0 <= j < log.len() implies self.llm.answers((#[trigger] log[j]).0, log[j].1) by {
                    if j < before.len() {
                        assert(log[j] == before[j]);
                    }
                }
                assert forall|j: int| 0 <= j < log.len() implies is_section_request((#[trigger] log[j]).0, c[j], self.dialect, language@) by {
                    if j < before.len() {
                        assert(log[j] == before[j]);
                    }
                }
                assert(log.take(log.len() as int) =~= log);
                assert(!section_prompt_fits(segs@, self.dialect, language@));
            }
            match answer {
                Ok(LlmResponse::Json(v)) => {
                    let ghost sums = json_models(chunk_summaries@);
                    chunk_summaries.push(v);
                    proof {
                        assert(json_answers(log) =~= json_answers(before).push(chunk_summaries@.last()@));
                        assert(json_models(chunk_summaries@) =~= sums.push(chunk_summaries@.last()@));
                    }
                },
                Ok(LlmResponse::Text(_)) => {
                    let r = fallback_outcome(time_range_ms, segs, "LLM unavailable", self.dialect, None, allowed);
                    proof {
                        assert(chunk_calls(log.take(log.len() as int), c, self.dialect, language@));
                        assert(r.draft@ == draft_fallback(time_range_ms, segs@, llm_unavailable(), self.dialect));
                        assert(log[log.len() - 1] == (greq, answer));
                    }
                    return (r, Ghost(log));
                },
                Err(e) => {
                    let m = e.message();
                    let r = fallback_outcome(time_range_ms, segs, "LLM unavailable", self.dialect, Some(m), allowed);
                    proof {
                        assert(chunk_calls(log.take(log.len() as int), c, self.dialect, language@));
                        assert(r.draft@ == draft_fallback(time_range_ms, segs@, llm_unavailable(), self.dialect));
                        assert(log[log.len() - 1] == (greq, answer));
                    }
                    return (r, Ghost(log));
                },
            }
            i = i + 1;
        }
        let (merged, Ghost(ml)) = self.merge_chunk_summaries(chunk_summaries, language);
        let ghost all = log + ml;
        proof {
            lemma_answered_concat(self.llm, log, ml);
            assert(all.take(log.len() as int) =~= log);
            assert(all.skip(log.len() as int) =~= ml);
            assert(chunk_calls(all.take(log.len() as int), c, self.dialect, language@));
        }
        match merged {
            Ok(v) => {
                let draft = checked_draft(time_range_ms, segs, &v, self.dialect, allowed);
                (SectionOutcome { draft, llm_error: None }, Ghost(all))
            },
            Err(f) => {
                let r = fallback_outcome(time_range_ms, segs, f.message.as_str(), self.dialect, f.llm_error, allowed);
                assert(r.draft@ == draft_fallback(time_range_ms, segs@, f.message@, self.dialect));
                (r, Ghost(all))
            },
        }
    }

    /// Groups consecutive summaries of `round` while their merge prompt
    /// fits the budget (see `groups_from`).
    fn merge_groups(&self, round: &Vec<JsonValue>, language: &str) -> (r: Vec<(usize, usize)>)
        ensures
            pairs_view(r@) == groups_from(json_models(round@), 0, self.dialect, language@),
    {
        let ghost rs = json_models(round@);
        let n = round.len();
        let mut bounds: Vec<(usize, usize)> = Vec::new();
        let mut index: usize = 0;
        assert(pairs_view(bounds@) =~= Seq::<(int, int)>::empty());
        assert(Seq::<(int, int)>::empty() + groups_from(rs, 0, self.dialect, language@) =~= groups_from(
            rs,
            0,
            self.dialect,
            language@,
        ));
        while index < n
            invariant
                n == round@.len(),
                rs == json_models(round@),
                index <= n,
                pairs_view(bounds@) + groups_from(rs, index as int, self.dialect, language@) == groups_from(
                    rs,
                    0,
                    self.dialect,
                    language@,
                ),
            decreases n - index,
        {
            let start = index;
            index = index + 1;
            let mut grow = true;
            while grow && index < n
                invariant
                    n == round@.len(),
                    rs == json_models(round@),
                    start < index <= n,
                    group_end(rs, start as int, index as int, self.dialect, language@) == group_end(
                        rs,
                        start as int,
                        start + 1,
                        self.dialect,
                        language@,
                    ),
                    !grow ==> index < n && !merge_fits(rs, start as int, index + 1, self.dialect, language@),
                decreases n - index + (if grow { 1int } else { 0int }),
            {
                let candidate = crate::notes::prompts::build_merge_section_prompt_range(
                    round.as_slice(),
                    start,
                    index + 1,
                    self.dialect,
                    language,
                );
                assert(json_models(round@.subrange(start as int, index + 1)) =~= rs.subrange(
                    start as int,
                    index + 1,
                ));
                if rendered_chars_capped(&candidate) > SECTION_CHUNK_THRESHOLD_CHARS {
                    grow = false;
                } else {
                    index = index + 1;
                }
            }
            let ghost before = pairs_view(bounds@);
            bounds.push((start, index));
            proof {
                assert(pairs_view(bounds@) =~= before.push((start as int, index as int)));
                assert(groups_from(rs, start as int, self.dialect, language@) =~= seq![
                    (start as int, index as int),
                ] + groups_from(rs, index as int, self.dialect, language@));
                assert(pairs_view(bounds@) + groups_from(rs, index as int, self.dialect, language@) =~= before
                    + groups_from(rs, start as int, self.dialect, language@));
            }
        }
        assert(groups_from(rs, index as int, self.dialect, language@) =~= Seq::<(int, int)>::empty());
        assert(pairs_view(bounds@) + Seq::<(int, int)>::empty() =~= pairs_view(bounds@));
        bounds
    }

    /// One merge round (see `merge_round_run`): every group of two or more
    /// summaries is merged with one call, a group of one moves on as it is.
    fn merge_round(&self, round: &Vec<JsonValue>, language: &str) -> (r: (
        Result<Vec<JsonValue>, MergeFailure>,
        Ghost<Seq<Call>>,
    ))
        requires
            round@.len() > 1,
        ensures
            answered_by(self.llm, r.1@),
            merge_round_run(json_models(round@), r.1@, round_view(r.0), self.dialect, language@),
            r.0 matches Ok(next) ==> 0 < next@.len() < round@.len(),
    {
        let ghost rs = json_models(round@);
        let bounds = self.merge_groups(round, language);
        let ghost g = pairs_view(bounds@);
        proof {
            lemma_groups_from(rs, 0, self.dialect, language@);
        }
        let ghost mut log: Seq<Call> = Seq::empty();
        let mut next: Vec<JsonValue> = Vec::new();
        let mut calls: usize = 0;
        let mut b: usize = 0;
        assert(g.take(0) =~= Seq::<(int, int)>::empty());
        assert(merged_groups(Seq::<(int, int)>::empty()) =~= Seq::<(int, int)>::empty());
        assert(json_models(next@) =~= Seq::<JsonModel>::empty());
        while b < bounds.len()
            invariant
                rs == json_models(round@),
                g == pairs_view(bounds@),
                g == groups_from(rs, 0, self.dialect, language@),
                forall|k: int| 0 <= k < g.len() ==> 0 <= (#[trigger] g[k]).0 < g[k].1 <= rs.len(),
                b <= bounds@.len(),
                calls == log.len(),
                log.len() == merged_groups(g.take(b as int)).len(),
                forall|i: int|
                    0 <= i < log.len() ==> is_merge_request(
                        (#[trigger] log[i]).0,
                        rs.subrange(merged_groups(g)[i].0, merged_groups(g)[i].1),
                        self.dialect,
                        language@,
                    ),
                forall|i: int| 0 <= i < log.len() ==> is_json_answer((#[trigger] log[i]).1),
                answered_by(self.llm, log),
                json_models(next@) == next_round(rs, g.take(b as int), json_answers(log)),
            decreases bounds@.len() - b,
        {
            let (lo, hi) = bounds[b];
            assert(g[b as int] == (lo as int, hi as int));
            proof {
                assert(g.take(b + 1) =~= g.take(b as int).push(g[b as int]));
                g.take(b as int).lemma_filter_push(g[b as int], merged_pred());
                lemma_merged_prefix(g, b + 1);
            }
            assert(g.take(b + 1).drop_last() =~= g.take(b as int));
            assert(g.take(b + 1).last() == g[b as int]);
            if hi - lo == 1 {
                let ghost before = json_models(next@);
                next.push(round[lo].duplicate());
                assert(json_models(next@) =~= before.push(rs[lo as int]));
                assert(!merged_pred()(g[b as int]));
            } else {
                assert(merged_pred()(g[b as int]));
                let req = crate::notes::prompts::build_merge_section_prompt_range(
                    round.as_slice(),
                    lo,
                    hi,
                    self.dialect,
                    language,
                );
                assert(json_models(round@.subrange(lo as int, hi as int)) =~= rs.subrange(lo as int, hi as int));
                let ghost greq = req;
                let answer = self.llm.complete(req);
                let ghost call: Call = (greq, answer);
                let ghost before_log = log;
                proof {
                    log = log.push(call);
                    assert(merged_groups(g.take(b + 1)) == merged_groups(g.take(b as int)).push(g[b as int]));
                    assert(merged_groups(g.take(b + 1))[before_log.len() as int] == g[b as int]);
                    assert(merged_groups(g)[before_log.len() as int] == g[b as int]);
                    assert forall|i: int| 0 <= i < before_log.len() implies #[trigger] log[i] == before_log[i] by {}
                    assert forall|i: int| 0 <= i < log.len() implies self.llm.answers((#[trigger] log[i]).0, log[i].1) by {
                        if i < before_log.len() {
                            assert(log[i] == before_log[i]);
                        }
                    }
                }
                match answer {
                    Ok(LlmResponse::Json(v)) => {
                        let ghost before = json_models(next@);
                        next.push(v);
                        proof {
                            assert(json_answers(log) =~= json_answers(before_log).push(next@.last()@));
                            assert(json_answers(log).drop_last() =~= json_answers(before_log));
                            assert(json_models(next@) =~= before.push(next@.last()@));
                        }
                    },
                    Ok(LlmResponse::Text(_)) => {
                        let r = Err(MergeFailure { message: "LLM unavailable".to_owned(), llm_error: None });
                        proof {
                            lemma_merged_prefix(g, g.len() as int);
                            assert(g.take(g.len() as int) =~= g);
                        }
                        return (r, Ghost(log));
                    },
                    Err(e) => {
                        let r = Err(MergeFailure { message: "LLM unavailable".to_owned(), llm_error: Some(e.message()) });
                        proof {
                            lemma_merged_prefix(g, g.len() as int);
                            assert(g.take(g.len() as int) =~= g);
                        }
                        return (r, Ghost(log));
                    },
                }
                calls = calls + 1;
            }
            b = b + 1;
        }
        assert(g.take(b as int) =~= g);
        if calls == 0 {
            return (
                Err(
                    MergeFailure {
                        message: "merge LLM call failed: chunk summaries cannot be reduced within context threshold".to_owned(),
                        llm_error: None,
                    },
                ),
                Ghost(log),
            );
        }
        proof {
            lemma_next_round_len(rs, g, json_answers(log));
        }
        (Ok(next), Ghost(log))
    }

    /// Merges chunk summaries in rounds until one is left (see
    /// `merge_run`); a round that merges nothing cannot make progress and
    /// fails.
    fn merge_chunk_summaries(&self, summaries: Vec<JsonValue>, language: &str) -> (r: (
        Result<JsonValue, MergeFailure>,
        Ghost<Seq<Call>>,
    ))
        ensures
            answered_by(self.llm, r.1@),
            merge_run(json_models(summaries@), r.1@, merged_view(r.0), self.dialect, language@),
    {
        let ghost orig = json_models(summaries@);
        if summaries.len() == 0 {
            let r = Err(MergeFailure { message: "merge LLM call failed: no chunk summaries".to_owned(), llm_error: None });
            return (r, Ghost(Seq::empty()));
        }
        let mut round = summaries;
        let ghost mut log: Seq<Call> = Seq::empty();
        assert forall|rest: Seq<Call>, o: Result<JsonModel, MergeFail>|
            #[trigger] merge_run(json_models(round@), rest, o, self.dialect, language@) implies merge_run(
            orig,
            log + rest,
            o,
            self.dialect,
            language@,
        ) by {
            assert(log + rest =~= rest);
        }
        while round.len() > 1
            invariant
                round@.len() > 0,
                orig == json_models(summaries@),
                answered_by(self.llm, log),
                forall|rest: Seq<Call>, o: Result<JsonModel, MergeFail>|
                    #[trigger] merge_run(json_models(round@), rest, o, self.dialect, language@) ==> merge_run(
                        orig,
                        log + rest,
                        o,
                        self.dialect,
                        language@,
                    ),
            decreases round@.len(),
        {
            let ghost rs = json_models(round@);
            let (res, Ghost(lr)) = self.merge_round(&round, language);
            proof {
                lemma_answered_concat(self.llm, log, lr);
            }
            match res {
                Ok(next) => {
                    proof {
                        let nr = json_models(next@);
                        assert forall|rest: Seq<Call>, o: Result<JsonModel, MergeFail>|
                            #[trigger] merge_run(nr, rest, o, self.dialect, language@) implies merge_run(
                            orig,
                            (log + lr) + rest,
                            o,
                            self.dialect,
                            language@,
                        ) by {
                            let all = lr + rest;
                            assert(all.take(lr.len() as int) =~= lr);
                            assert(all.skip(lr.len() as int) =~= rest);
                            assert(merge_round_run(rs, all.take(lr.len() as int), Ok::<Seq<JsonModel>, MergeFail>(nr), self.dialect, language@));
                            assert(merge_run(rs, all, o, self.dialect, language@));
                            assert(log + all =~= (log + lr) + rest);
                        }
                        log = log + lr;
                    }
                    round = next;
                },
                Err(f) => {
                    proof {
                        let fv: MergeFail = (f.message@, crate::storage::opt_view(f.llm_error));
                        assert(lr.take(lr.len() as int) =~= lr);
                        assert(merge_round_run(rs, lr.take(lr.len() as int), Err::<Seq<JsonModel>, MergeFail>(fv), self.dialect, language@));
                        assert(merge_run(rs, lr, Err::<JsonModel, MergeFail>(fv), self.dialect, language@));
                        assert(merge_run(orig, log + lr, Err::<JsonModel, MergeFail>(fv), self.dialect, language@));
                        assert(merged_view(Err(f)) == Err::<JsonModel, MergeFail>(fv));
                    }
                    return (Err(f), Ghost(log + lr));
                },
            }
        }
        proof {
            assert(merge_run(json_models(round@), Seq::<Call>::empty(), Ok::<JsonModel, MergeFail>(json_models(round@)[0]), self.dialect, language@));
            assert(log + Seq::<Call>::empty() =~= log);
        }
        let v = round.remove(0);
        (Ok(v), Ghost(log))
    }
}

// ---- generation -----------------------------------------------------------

/// The version recorded in the notes' frontmatter.
pub const PANOPS_VERSION: &'static str = "0.1.0";

/// The topic segmentation the pipeline runs with: 8 s gap, 30 s minimum
/// section, 10 % share threshold.
pub open spec fn default_topic_config() -> TopicSegmentationConfig {
    TopicSegmentationConfig {
        topic_gap_ms: 8000,
        min_section_ms: 30_000,
        speaker_shift_threshold_ppm: 100_000,
    }
}

/// The speaker ids that occur in a transcript.
pub open spec fn transcript_speakers(segs: Seq<Segment>) -> Set<u32> {
    Set::new(|id: u32| exists|i: int| 0 <= i < segs.len() && #[trigger] segs[i].speaker_id == Some(id))
}

/// The segments at a section's indices, in order.
pub open spec fn section_segments(segs: Seq<Segment>, idx: Seq<usize>) -> Seq<Segment> {
    idx.map_values(|i: usize| segs[i as int])
}

/// A screenshot moved to the end of the meeting when it lies past it; left
/// as it is when the duration is unknown (zero).
pub open spec fn clamp_shot(s: Screenshot, duration_ms: u64) -> Screenshot {
    if duration_ms == 0 || s.ms_since_start <= duration_ms {
        s
    } else {
        Screenshot { ms_since_start: duration_ms, path: s.path, caption: s.caption }
    }
}

/// Every screenshot clamped to the meeting.
pub open spec fn clamped_shots(shots: Seq<Screenshot>, duration_ms: u64) -> Seq<Screenshot> {
    shots.map_values(|s: Screenshot| clamp_shot(s, duration_ms))
}

/// The time ranges of sections.
pub open spec fn model_ranges(secs: Seq<SectionModel>) -> Seq<(u64, u64)> {
    secs.map_values(|s: SectionModel| s.time_range_ms)
}

/// Anchoring the clamped screenshots is defined: a screenshot outside every
/// section goes by midpoints, which needs every range well formed.
pub open spec fn anchoring_defined(segs: Seq<Segment>, shots: Seq<Screenshot>, duration_ms: u64) -> bool {
    let ranges = model_ranges(topic_sections(segs, default_topic_config()));
    let c = clamped_shots(shots, duration_ms);
    forall|k: int|
        0 <= k < c.len() ==> first_containing(ranges, #[trigger] c[k].ms_since_start, ranges.len()) is None
            ==> ranges_well_formed(ranges)
}

/// The language of the notes: the hint, else the dominant detected one.
pub open spec fn meeting_language(segs: Seq<Segment>, hint: Option<String>) -> Seq<char> {
    match hint {
        Some(h) => h@,
        None => dominant_language_of(segs),
    }
}

/// Title and tags from a frontmatter JSON answer, or the defaults
/// (`Untitled meeting`, no tags) when there was none.
pub open spec fn frontmatter_from(title: Seq<char>, tags: Seq<Seq<char>>) -> bool {
    ||| title == "Untitled meeting"@ && tags == Seq::<Seq<char>>::empty()
    ||| exists|v: JsonModel|
        title == #[trigger] text_or(v, "title"@, "Untitled meeting"@) && tags == member_texts(v, "tags"@)
}

/// The number of section `k`, counted from one (`u32::MAX` past it).
pub open spec fn section_number(k: int) -> u32 {
    if k + 1 <= u32::MAX {
        (k + 1) as u32
    } else {
        u32::MAX
    }
}

/// The draft content of a finished section.
pub open spec fn section_as_draft(s: NotesSection) -> DraftModel {
    DraftModel {
        title: s.title@,
        narrative_md: s.narrative_md@,
        key_points: s.key_points@.map_values(|t: String| t@),
        action_items: s.action_items@.map_values(|a: ActionItem| action_view(a)),
        time_range_ms: s.time_range_ms,
    }
}

/// Section `k` of the notes against topic section `sec`.
pub open spec fn section_fits(
    s: NotesSection,
    k: int,
    sec: SectionModel,
    segs: Seq<Segment>,
    ranges: Seq<(u64, u64)>,
    shots: Seq<Screenshot>,
    dialect: MarkdownDialect,
) -> bool {
    &&& s.index == section_number(k)
    &&& s.time_range_ms == sec.time_range_ms
    &&& acceptable(
        section_as_draft(s),
        sec.time_range_ms,
        section_segments(segs, sec.segment_indices),
        dialect,
        transcript_speakers(segs),
    )
    &&& s.screenshots@ == shots_for_section(ranges, shots, k)
}

/// What generated notes hold for `input`: one section per topic section,
/// each an acceptable draft of that section's segments with the screenshots
/// anchored to it; the language, languages and speakers of the transcript;
/// the meeting facts; title and tags from the model or the defaults.
pub open spec fn notes_fit(notes: StructuredNotes, input: NotesInput, dialect: MarkdownDialect) -> bool {
    let t = input.transcript@;
    let md = input.meeting_metadata;
    let secs = topic_sections(t, default_topic_config());
    let shots = clamped_shots(input.screenshots@, md.duration_ms);
    let fm = notes.frontmatter;
    &&& notes.schema_version == StructuredNotes::SCHEMA_VERSION
    &&& notes.sections@.len() == secs.len()
    &&& forall|k: int|
        0 <= k < secs.len() ==> section_fits(
            #[trigger] notes.sections@[k],
            k,
            secs[k],
            t,
            model_ranges(secs),
            shots,
            dialect,
        )
    &&& notes.language@ == meeting_language(t, md.language_hint)
    &&& fm.languages@.map_values(|x: String| x@) == meeting_languages(t)
    &&& fm.speakers@.map_values(|x: String| x@) == speaker_labels(t)
    &&& frontmatter_from(fm.title@, fm.tags@.map_values(|x: String| x@))
    &&& fm.date == md.started_at.date
    &&& fm.started_at == md.started_at
    &&& fm.duration_ms == md.duration_ms
    &&& fm.template@ == "default"@
    &&& fm.dialect == dialect
    &&& fm.panops_version@ == PANOPS_VERSION@
    &&& fm.source_audio == md.source_path
    &&& crate::clock::is_timestamp_text(notes.generated_at@)
}

proof fn lemma_estimate_concat(a: Seq<Segment>, b: Seq<Segment>)
    ensures
        transcript_estimate(a + b) == transcript_estimate(a) + transcript_estimate(b),
    decreases b.len(),
{
    if b.len() == 0 {
        assert(a + b =~= a);
    } else {
        lemma_estimate_concat(a, b.drop_last());
        assert((a + b).drop_last() =~= a + b.drop_last());
        assert((a + b).last() == b.last());
    }
}

/// The segments of a contiguous index range are a slice of the transcript,
/// so their estimate is at most the transcript's.
proof fn lemma_range_segments(t: Seq<Segment>, a: int, b: int)
    requires
        0 <= a <= b <= t.len(),
        t.len() <= usize::MAX,
    ensures
        section_segments(t, index_range(a, b)) == t.subrange(a, b),
        transcript_estimate(t.subrange(a, b)) <= transcript_estimate(t),
{
    assert(section_segments(t, index_range(a, b)) =~= t.subrange(a, b));
    assert(t =~= t.subrange(0, a) + t.subrange(a, b) + t.subrange(b, t.len() as int));
    lemma_estimate_concat(t.subrange(0, a), t.subrange(a, b));
    lemma_estimate_concat(t.subrange(0, a) + t.subrange(a, b), t.subrange(b, t.len() as int));
}

/// `idx` is the indices `a, .., a + len - 1`, all below `n`.
pub open spec fn starts_at(idx: Seq<usize>, a: int, n: nat) -> bool {
    0 <= a && a + idx.len() <= n && idx == index_range(a, a + idx.len())
}

/// Where section `k`'s indices begin: the count of indices before it.
pub open spec fn section_start(secs: Seq<SectionModel>, k: int) -> int {
    flatten_indices(secs.take(k)).len() as int
}

/// Sections whose indices, concatenated, are `0..n` each hold a contiguous
/// range of indices below `n`.
proof fn lemma_sections_contiguous(secs: Seq<SectionModel>, n: nat)
    requires
        flatten_indices(secs) == index_range(0, n as int),
    ensures
        forall|k: int|
            0 <= k < secs.len() ==> #[trigger] starts_at(secs[k].segment_indices, section_start(secs, k), n),
    decreases secs.len(),
{
    if secs.len() > 0 {
        let d = secs.drop_last();
        let l = secs.last().segment_indices;
        let whole = index_range(0, n as int);
        assert(flatten_indices(secs) == flatten_indices(d) + l);
        let m = n - l.len();
        assert(m >= 0) by {
            assert(whole.len() == n);
        }
        assert(flatten_indices(d) =~= whole.subrange(0, m));
        assert(whole.subrange(0, m) =~= index_range(0, m));
        assert(l =~= whole.subrange(m, n as int));
        assert(l =~= index_range(m, m + l.len()));
        lemma_sections_contiguous(d, m as nat);
        assert forall|k: int| 0 <= k < secs.len() implies #[trigger] starts_at(
            secs[k].segment_indices,
            section_start(secs, k),
            n,
        ) by {
            assert(secs.take(k) =~= d.take(k)) by {
                if k < secs.len() - 1 {
                    assert(secs.take(k) =~= d.take(k));
                } else {
                    assert(secs.take(k) =~= d);
                    assert(d.take(k) =~= d);
                }
            }
            if k < secs.len() - 1 {
                assert(secs[k] == d[k]);
                assert(starts_at(d[k].segment_indices, section_start(d, k), m as nat));
            } else {
                assert(d.take(k) =~= d);
                assert(section_start(secs, k) == m);
            }
        }
    }
}

/// Every topic section's indices lie in the transcript, and its segments'
/// estimate is at most the transcript's.
proof fn lemma_sections_bounded(t: Seq<Segment>, cfg: TopicSegmentationConfig)
    requires
        t.len() <= usize::MAX,
    ensures
        forall|k: int|
            0 <= k < topic_sections(t, cfg).len() ==> {
                let idx = (#[trigger] topic_sections(t, cfg)[k]).segment_indices;
                &&& forall|j: int| 0 <= j < idx.len() ==> idx[j] < t.len()
                &&& transcript_estimate(section_segments(t, idx)) <= transcript_estimate(t)
            },
{
    let secs = topic_sections(t, cfg);
    lemma_topic_sections_partition(t, cfg);
    lemma_sections_contiguous(secs, t.len());
    assert forall|k: int| 0 <= k < secs.len() implies {
        let idx = (#[trigger] secs[k]).segment_indices;
        &&& forall|j: int| 0 <= j < idx.len() ==> idx[j] < t.len()
        &&& transcript_estimate(section_segments(t, idx)) <= transcript_estimate(t)
    } by {
        let idx = secs[k].segment_indices;
        let a = section_start(secs, k);
        assert(starts_at(secs[k].segment_indices, a, t.len()));
        lemma_range_segments(t, a, a + idx.len());
    }
}

/// The set of speaker ids in `segments`.
fn speaker_set(segments: &[Segment]) -> (r: HashSet<u32>)
    ensures
        r@ == transcript_speakers(segments@),
{
    broadcast use vstd::std_specs::hash::group_hash_axioms;

    let mut out: HashSet<u32> = HashSet::new();
    let mut i: usize = 0;
    while i < segments.len()
        invariant
            i <= segments@.len(),
            out@ == transcript_speakers(segments@.take(i as int)),
        decreases segments@.len() - i,
    {
        let ghost before = segments@.take(i as int);
        let ghost after = segments@.take(i + 1);
        match segments[i].speaker_id {
            Some(id) => {
                out.insert(id);
            },
            None => {},
        }
        assert forall|id: u32| #[trigger] transcript_speakers(after).contains(id) <==> (
        transcript_speakers(before).contains(id) || segments@[i as int].speaker_id == Some(id)) by {
            if transcript_speakers(after).contains(id) {
                let j = choose|j: int| 0 <= j < after.len() && #[trigger] after[j].speaker_id == Some(id);
                if j < i {
                    assert(before[j] == after[j]);
                }
            }
            if transcript_speakers(before).contains(id) {
                let j = choose|j: int| 0 <= j < before.len() && #[trigger] before[j].speaker_id == Some(id);
                assert(before[j] == after[j]);
            }
            if segments@[i as int].speaker_id == Some(id) {
                assert(after[i as int] == segments@[i as int]);
            }
        }
        assert(out@ =~= transcript_speakers(after));
        i = i + 1;
    }
    assert(segments@.take(i as int) =~= segments@);
    out
}

/// Every screenshot clamped to the meeting (see `clamp_shot`).
fn clamp_screenshots(shots: &[Screenshot], duration_ms: u64) -> (r: Vec<Screenshot>)
    ensures
        r@ == clamped_shots(shots@, duration_ms),
{
    let mut out: Vec<Screenshot> = Vec::new();
    let mut i: usize = 0;
    while i < shots.len()
        invariant
            i <= shots@.len(),
            out@ == clamped_shots(shots@.take(i as int), duration_ms),
        decreases shots@.len() - i,
    {
        let mut c = shots[i].duplicate();
        if duration_ms != 0 && c.ms_since_start > duration_ms {
            c.ms_since_start = duration_ms;
        }
        out.push(c);
        assert(shots@.take(i + 1) =~= shots@.take(i as int).push(shots@[i as int]));
        assert(out@ =~= clamped_shots(shots@.take(i + 1), duration_ms));
        i = i + 1;
    }
    assert(shots@.take(i as int) =~= shots@);
    out
}

/// The segments at `idx`, copied.
fn gather_segments(segments: &[Segment], idx: &Vec<usize>) -> (r: Vec<Segment>)
    requires
        forall|j: int| 0 <= j < idx@.len() ==> idx@[j] < segments@.len(),
    ensures
        r@ == section_segments(segments@, idx@),
{
    let mut out: Vec<Segment> = Vec::new();
    let mut j: usize = 0;
    while j < idx.len()
        invariant
            j <= idx@.len(),
            forall|q: int| 0 <= q < idx@.len() ==> idx@[q] < segments@.len(),
            out@ == section_segments(segments@, idx@.take(j as int)),
        decreases idx@.len() - j,
    {
        out.push(segments[idx[j]].duplicate());
        assert(idx@.take(j + 1) =~= idx@.take(j as int).push(idx@[j as int]));
        assert(out@ =~= section_segments(segments@, idx@.take(j + 1)));
        j = j + 1;
    }
    assert(idx@.take(j as int) =~= idx@);
    out
}

/// A copy of a list of texts.
fn copy_texts(v: &Vec<String>) -> (r: Vec<String>)
    ensures
        r@.map_values(|t: String| t@) == v@.map_values(|t: String| t@),
{
    let mut out: Vec<String> = Vec::new();
    let mut i: usize = 0;
    while i < v.len()
        invariant
            i <= v@.len(),
            out@.len() == i,
            forall|j: int| 0 <= j < i ==> (#[trigger] out@[j])@ == v@[j]@,
        decreases v@.len() - i,
    {
        out.push(v[i].clone());
        i = i + 1;
    }
    assert(out@.map_values(|t: String| t@) =~= v@.map_values(|t: String| t@));
    out
}

/// Title and key points of each draft, for the frontmatter call.
fn summaries_of(drafts: &Vec<SectionDraft>) -> (r: Vec<SectionSummary>)
    ensures
        r@.len() == drafts@.len(),
        forall|k: int|
            0 <= k < r@.len() ==> (#[trigger] r@[k]).title@ == drafts@[k].title@ && r@[k].key_points@.map_values(
                |t: String| t@,
            ) == drafts@[k].key_points@.map_values(|t: String| t@),
{
    let mut out: Vec<SectionSummary> = Vec::new();
    let mut i: usize = 0;
    while i < drafts.len()
        invariant
            i <= drafts@.len(),
            out@.len() == i,
            forall|k: int|
                0 <= k < i ==> (#[trigger] out@[k]).title@ == drafts@[k].title@ && out@[k].key_points@.map_values(
                    |t: String| t@,
                ) == drafts@[k].key_points@.map_values(|t: String| t@),
        decreases drafts@.len() - i,
    {
        let d = &drafts[i];
        out.push(SectionSummary { title: d.title.clone(), key_points: copy_texts(&d.key_points) });
        i = i + 1;
    }
    out
}

/// Title and tags from the frontmatter call's answer: those of a JSON
/// answer (see `extract_frontmatter`), else `Untitled meeting` and no tags.
pub fn frontmatter_outcome(answer: Result<LlmResponse, LlmError>) -> (r: (String, Vec<String>))
    ensures
        answer matches Ok(LlmResponse::Json(v)) ==> r.0@ == text_or(v@, "title"@, "Untitled meeting"@)
            && r.1@.map_values(|x: String| x@) == member_texts(v@, "tags"@),
        !(answer matches Ok(LlmResponse::Json(_))) ==> r.0@ == "Untitled meeting"@ && r.1@.len() == 0,
        frontmatter_from(r.0@, r.1@.map_values(|x: String| x@)),
{
    match answer {
        Ok(LlmResponse::Json(v)) => {
            let r = extract_frontmatter(&v);
            assert(r.0@ == text_or(v@, "title"@, "Untitled meeting"@));
            r
        },
        _ => {
            let tags: Vec<String> = Vec::new();
            assert(tags@.map_values(|x: String| x@) =~= Seq::<Seq<char>>::empty());
            ("Untitled meeting".to_owned(), tags)
        },
    }
}

/// Numbers the drafts and attaches each its screenshots.
fn assemble_sections(drafts: Vec<SectionDraft>, shots: Vec<Vec<Screenshot>>) -> (r: Vec<NotesSection>)
    requires
        shots@.len() == drafts@.len(),
    ensures
        r@.len() == drafts@.len(),
        forall|k: int|
            0 <= k < r@.len() ==> {
                &&& (#[trigger] r@[k]).index == section_number(k)
                &&& section_as_draft(r@[k]) == drafts@[k]@
                &&& r@[k].action_items@ == drafts@[k].action_items@
                &&& r@[k].screenshots@ == shots@[k]@
            },
{
    let ghost orig = shots@;
    let mut shots = shots;
    let mut out: Vec<NotesSection> = Vec::new();
    for d in it: drafts.into_iter()
        invariant
            it.seq() == drafts@,
            shots@.len() == drafts@.len(),
            orig.len() == drafts@.len(),
            out@.len() == it.index(),
            forall|k: int| it.index() <= k < shots@.len() ==> #[trigger] shots@[k] == orig[k],
            forall|k: int|
                0 <= k < out@.len() ==> {
                    &&& (#[trigger] out@[k]).index == section_number(k)
                    &&& section_as_draft(out@[k]) == drafts@[k]@
                    &&& out@[k].action_items@ == drafts@[k].action_items@
                    &&& out@[k].screenshots@ == orig[k]@
                },
    {
        let k = out.len();
        let mut mine: Vec<Screenshot> = Vec::new();
        std::mem::swap(&mut mine, &mut shots[k]);
        let index: u32 = if k < 4294967295 {
            (k + 1) as u32
        } else {
            4294967295
        };
        let s = NotesSection {
            index,
            title: d.title,
            time_range_ms: d.time_range_ms,
            narrative_md: d.narrative_md,
            key_points: d.key_points,
            action_items: d.action_items,
            screenshots: mine,
        };
        out.push(s);
        assert(section_as_draft(out@[k as int]) =~= drafts@[k as int]@);
    }
    out
}

/// Each section's outcome as values: its draft and its model error.
pub open spec fn outcomes_view(drafts: Seq<SectionDraft>, errors: Seq<Option<String>>) -> Seq<
    (DraftModel, Option<Seq<char>>),
> {
    Seq::new(drafts.len(), |k: int| (drafts[k]@, crate::storage::opt_view(errors[k])))
}

/// The sections of a generation ran as `section_run` says, section `k`
/// making the calls `logs[k]` with the outcome `outs[k]`.
pub open spec fn sections_ran(
    t: Seq<Segment>,
    language: Seq<char>,
    dialect: MarkdownDialect,
    logs: Seq<Seq<Call>>,
    outs: Seq<(DraftModel, Option<Seq<char>>)>,
) -> bool {
    let secs = topic_sections(t, default_topic_config());
    &&& logs.len() == secs.len()
    &&& outs.len() == secs.len()
    &&& forall|k: int|
        0 <= k < secs.len() ==> section_run(
            secs[k].time_range_ms,
            section_segments(t, secs[k].segment_indices),
            language,
            dialect,
            transcript_speakers(t),
            #[trigger] logs[k],
            outs[k],
        )
}

/// Every section's call failed with a model error.
pub open spec fn every_section_failed(outs: Seq<(DraftModel, Option<Seq<char>>)>) -> bool {
    outs.len() > 0 && forall|k: int| 0 <= k < outs.len() ==> (#[trigger] outs[k]).1 is Some
}

/// Title and tags from the frontmatter call's answer: those of a JSON
/// answer, else `Untitled meeting` and no tags.
pub open spec fn frontmatter_answer(a: Result<LlmResponse, LlmError>) -> (Seq<char>, Seq<Seq<char>>) {
    match a {
        Ok(LlmResponse::Json(v)) => (text_or(v@, "title"@, "Untitled meeting"@), member_texts(v@, "tags"@)),
        _ => ("Untitled meeting"@, Seq::empty()),
    }
}

/// Summaries holding the titles and key points of `drafts`.
pub open spec fn summaries_match(sums: Seq<SectionSummary>, drafts: Seq<DraftModel>) -> bool {
    &&& sums.len() == drafts.len()
    &&& forall|k: int|
        0 <= k < sums.len() ==> (#[trigger] sums[k]).title@ == drafts[k].title && sums[k].key_points@.map_values(
            |t: String| t@,
        ) == drafts[k].key_points
}

/// The frontmatter request over the titles and key points of `drafts`.
pub open spec fn is_frontmatter_request(r: LlmRequest, drafts: Seq<DraftModel>, language: Seq<char>, duration_ms: u64) -> bool {
    &&& r.system is Some
    &&& r.system->0@ == crate::notes::prompts::FRONTMATTER_SYSTEM@
    &&& exists|sums: Seq<SectionSummary>|
        #[trigger] summaries_match(sums, drafts) && r.user@ == crate::notes::prompts::frontmatter_user(
            sums,
            language,
            duration_ms,
        )
    &&& r.schema is Some
    &&& r.schema->0@ == crate::notes::prompts::FRONTMATTER_SCHEMA@
    &&& r.temperature_milli == crate::notes::prompts::FRONTMATTER_TEMPERATURE_MILLI
    &&& r.max_tokens == crate::notes::prompts::FRONTMATTER_MAX_TOKENS
}

/// The calls a generation makes and what it returns. An empty transcript
/// makes none and fails. Otherwise each topic section runs its calls
/// (`sections_ran`, `logs` in order); when every section failed with a
/// model error generation fails with `LlmUnavailable`, else one
/// frontmatter call (`fm`) follows and the notes hold each section's
/// outcome and the frontmatter answer's title and tags.
pub open spec fn generation_run<L: LlmProvider>(
    llm: &L,
    input: NotesInput,
    dialect: MarkdownDialect,
    logs: Seq<Seq<Call>>,
    fm: Seq<Call>,
    r: Result<StructuredNotes, NotesError>,
) -> bool {
    let t = input.transcript@;
    let md = input.meeting_metadata;
    let language = meeting_language(t, md.language_hint);
    &&& answered_by(llm, logs.flatten() + fm)
    &&& if t.len() == 0 {
        &&& logs.len() == 0
        &&& fm.len() == 0
        &&& r matches Err(NotesError::EmptyTranscript)
    } else {
        exists|outs: Seq<(DraftModel, Option<Seq<char>>)>|
            #[trigger] sections_ran(t, language, dialect, logs, outs) && if every_section_failed(outs) {
                &&& fm.len() == 0
                &&& r matches Err(NotesError::LlmUnavailable { failed, total, last_error })
                &&& failed == outs.len()
                &&& total == outs.len()
                &&& last_error@ == outs.last().1->0
            } else {
                &&& fm.len() == 1
                &&& is_frontmatter_request(
                    fm[0].0,
                    outs.map_values(|o: (DraftModel, Option<Seq<char>>)| o.0),
                    language,
                    md.duration_ms,
                )
                &&& r matches Ok(notes)
                &&& notes_fit(notes, input, dialect)
                &&& forall|k: int| 0 <= k < outs.len() ==> section_as_draft(notes.sections@[k]) == (#[trigger] outs[k]).0
                &&& (notes.frontmatter.title@, notes.frontmatter.tags@.map_values(|x: String| x@))
                    == frontmatter_answer(fm[0].1)
            }
    }
}


/// Every section request a generation sends fits the context threshold,
/// however long the section, where each segment of the transcript alone
/// fits it.
pub proof fn law_generation_requests_fit<L: LlmProvider>(
    llm: &L,
    input: NotesInput,
    dialect: MarkdownDialect,
    logs: Seq<Seq<Call>>,
    fm: Seq<Call>,
    r: Result<StructuredNotes, NotesError>,
)
    requires
        generation_run(llm, input, dialect, logs, fm, r),
        input.transcript@.len() <= usize::MAX,
        forall|s: Segment|
            #[trigger] input.transcript@.contains(s) ==> section_prompt_fits(
                seq![s],
                dialect,
                meeting_language(input.transcript@, input.meeting_metadata.language_hint),
            ),
    ensures
        forall|k: int, i: int|
            0 <= k < logs.len() && 0 <= i < logs[k].len() ==> capped(rendered_size((#[trigger] logs[k][i]).0))
                <= SECTION_CHUNK_THRESHOLD_CHARS,
{
    let t = input.transcript@;
    if t.len() > 0 {
        let language = meeting_language(t, input.meeting_metadata.language_hint);
        let outs = choose|outs: Seq<(DraftModel, Option<Seq<char>>)>|
            #[trigger] sections_ran(t, language, dialect, logs, outs) && if every_section_failed(outs) {
                &&& fm.len() == 0
                &&& r matches Err(NotesError::LlmUnavailable { failed, total, last_error })
                &&& failed == outs.len()
                &&& total == outs.len()
                &&& last_error@ == outs.last().1->0
            } else {
                &&& fm.len() == 1
                &&& is_frontmatter_request(
                    fm[0].0,
                    outs.map_values(|o: (DraftModel, Option<Seq<char>>)| o.0),
                    language,
                    input.meeting_metadata.duration_ms,
                )
                &&& r matches Ok(notes)
                &&& notes_fit(notes, input, dialect)
                &&& forall|k: int| 0 <= k < outs.len() ==> section_as_draft(notes.sections@[k]) == (#[trigger] outs[k]).0
                &&& (notes.frontmatter.title@, notes.frontmatter.tags@.map_values(|x: String| x@))
                    == frontmatter_answer(fm[0].1)
            };
        let secs = topic_sections(t, default_topic_config());
        lemma_sections_bounded(t, default_topic_config());
        assert forall|k: int, i: int| 0 <= k < logs.len() && 0 <= i < logs[k].len() implies capped(
            rendered_size((#[trigger] logs[k][i]).0),
        ) <= SECTION_CHUNK_THRESHOLD_CHARS by {
            let idx = secs[k].segment_indices;
            let segs = section_segments(t, idx);
            assert forall|s: Segment| #[trigger] segs.contains(s) implies section_prompt_fits(
                seq![s],
                dialect,
                language,
            ) by {
                let j = choose|j: int| 0 <= j < segs.len() && segs[j] == s;
                assert(segs[j] == t[idx[j] as int]);
                assert(t.contains(t[idx[j] as int]));
            }
            law_section_requests_fit(
                secs[k].time_range_ms,
                segs,
                language,
                dialect,
                transcript_speakers(t),
                logs[k],
                outs[k],
            );
        }
    }
}

/// The error a generation fails with: `LlmUnavailable` when the call of
/// every section failed with a model error (`errors[k]` is section `k`'s),
/// counting them all and carrying the last message; else none.
pub fn unavailable_error(errors: &Vec<Option<String>>) -> (r: Option<NotesError>)
    ensures
        r is Some <==> (errors@.len() > 0 && forall|k: int| 0 <= k < errors@.len() ==> (#[trigger] errors@[k]) is Some),
        r matches Some(e) ==> (e matches NotesError::LlmUnavailable { failed, total, last_error } && failed
            == errors@.len() && total == errors@.len() && last_error@ == errors@.last()->0@),
{
    let n = errors.len();
    let mut failed: usize = 0;
    let mut i: usize = 0;
    while i < n
        invariant
            n == errors@.len(),
            i <= n,
            failed <= i,
            failed == i <==> forall|k: int| 0 <= k < i ==> (#[trigger] errors@[k]) is Some,
        decreases n - i,
    {
        if errors[i].is_some() {
            failed = failed + 1;
        } else {
            assert(!(errors@[i as int] is Some));
        }
        i = i + 1;
    }
    if n > 0 && failed == n {
        match &errors[n - 1] {
            Some(m) => Some(NotesError::LlmUnavailable { failed, total: n, last_error: m.clone() }),
            None => None,
        }
    } else {
        None
    }
}

impl<'a, L: LlmProvider> NotesGenerator<'a, L> {
    /// The draft of every section, and the message of the model error that
    /// forced each section's fallback, if one did.
    fn draft_sections(
        &self,
        transcript: &[Segment],
        raw: &Vec<RawSection>,
        language: &str,
        allowed: &HashSet<u32>,
    ) -> (r: (Vec<SectionDraft>, Vec<Option<String>>, Ghost<Seq<Seq<Call>>>))
        requires
            sections_view(raw@) == topic_sections(transcript@, default_topic_config()),
            transcript_estimate(transcript@) <= usize::MAX,
            allowed@ == transcript_speakers(transcript@),
        ensures
            r.0@.len() == raw@.len(),
            r.1@.len() == raw@.len(),
            sections_ran(transcript@, language@, self.dialect, r.2@, outcomes_view(r.0@, r.1@)),
            answered_by(self.llm, r.2@.flatten()),
            forall|k: int|
                0 <= k < raw@.len() ==> acceptable_draft(
                    #[trigger] r.0@[k],
                    raw@[k].time_range_ms,
                    section_segments(transcript@, raw@[k].segment_indices@),
                    self.dialect,
                    allowed@,
                ),
    {
        let ghost secs = topic_sections(transcript@, default_topic_config());
        let _n = transcript.len();
        proof {
            lemma_sections_bounded(transcript@, default_topic_config());
            assert forall|k: int| 0 <= k < raw@.len() implies #[trigger] raw@[k]@ == secs[k] by {
                assert(sections_view(raw@)[k] == raw@[k]@);
            }
        }
        let mut drafts: Vec<SectionDraft> = Vec::new();
        let mut errors: Vec<Option<String>> = Vec::new();
        let ghost mut logs: Seq<Seq<Call>> = Seq::empty();
        let mut k: usize = 0;
        assert(logs.flatten() =~= Seq::<Call>::empty());
        while k < raw.len()
            invariant
                k <= raw@.len(),
                drafts@.len() == k,
                errors@.len() == k,
                logs.len() == k,
                secs == topic_sections(transcript@, default_topic_config()),
                secs.len() == raw@.len(),
                allowed@ == transcript_speakers(transcript@),
                transcript_estimate(transcript@) <= usize::MAX,
                forall|q: int| 0 <= q < raw@.len() ==> #[trigger] raw@[q]@ == secs[q],
                forall|q: int|
                    0 <= q < secs.len() ==> {
                        let idx = (#[trigger] secs[q]).segment_indices;
                        &&& forall|j: int| 0 <= j < idx.len() ==> idx[j] < transcript@.len()
                        &&& transcript_estimate(section_segments(transcript@, idx)) <= transcript_estimate(
                            transcript@,
                        )
                    },
                forall|q: int|
                    0 <= q < k ==> section_run(
                        secs[q].time_range_ms,
                        section_segments(transcript@, secs[q].segment_indices),
                        language@,
                        self.dialect,
                        transcript_speakers(transcript@),
                        #[trigger] logs[q],
                        (drafts@[q]@, crate::storage::opt_view(errors@[q])),
                    ),
                answered_by(self.llm, logs.flatten()),
                forall|q: int|
                    0 <= q < k ==> acceptable_draft(
                        #[trigger] drafts@[q],
                        raw@[q].time_range_ms,
                        section_segments(transcript@, raw@[q].segment_indices@),
                        self.dialect,
                        allowed@,
                    ),
            decreases raw@.len() - k,
        {
            let sec = &raw[k];
            assert(raw@[k as int]@ == secs[k as int]);
            assert(sec.segment_indices@ == secs[k as int].segment_indices);
            let segs = gather_segments(transcript, &sec.segment_indices);
            let (outcome, Ghost(l)) = self.process_section(sec.time_range_ms, segs.as_slice(), language, allowed);
            let ghost before = logs;
            proof {
                lemma_answered_concat(self.llm, logs.flatten(), l);
                logs.lemma_flatten_push(l);
                logs = logs.push(l);
                assert forall|q: int| 0 <= q < k implies #[trigger] logs[q] == before[q] by {}
            }
            errors.push(outcome.llm_error);
            drafts.push(outcome.draft);
            k = k + 1;
        }
        proof {
            let outs = outcomes_view(drafts@, errors@);
            assert forall|q: int| 0 <= q < secs.len() implies section_run(
                secs[q].time_range_ms,
                section_segments(transcript@, secs[q].segment_indices),
                language@,
                self.dialect,
                transcript_speakers(transcript@),
                #[trigger] logs[q],
                outs[q],
            ) by {
                assert(outs[q] == (drafts@[q]@, crate::storage::opt_view(errors@[q])));
            }
        }
        (drafts, errors, Ghost(logs))
    }

    /// Title and tags from one frontmatter call, or the defaults when the
    /// call fails or answers with text.
    fn frontmatter(&self, summaries: &[SectionSummary], language: &str, duration_ms: u64) -> (r: (
        (String, Vec<String>),
        Ghost<Call>,
    ))
        ensures
            self.llm.answers(r.1@.0, r.1@.1),
            r.1@.0.system is Some,
            r.1@.0.system->0@ == crate::notes::prompts::FRONTMATTER_SYSTEM@,
            r.1@.0.user@ == crate::notes::prompts::frontmatter_user(summaries@, language@, duration_ms),
            r.1@.0.schema is Some,
            r.1@.0.schema->0@ == crate::notes::prompts::FRONTMATTER_SCHEMA@,
            r.1@.0.temperature_milli == crate::notes::prompts::FRONTMATTER_TEMPERATURE_MILLI,
            r.1@.0.max_tokens == crate::notes::prompts::FRONTMATTER_MAX_TOKENS,
            (r.0.0@, r.0.1@.map_values(|x: String| x@)) == frontmatter_answer(r.1@.1),
            frontmatter_from(r.0.0@, r.0.1@.map_values(|x: String| x@)),
    {
        let req = build_frontmatter_prompt(summaries, language, duration_ms);
        let ghost greq = req;
        let answer = self.llm.complete(req);
        let ghost call: Call = (greq, answer);
        let r = frontmatter_outcome(answer);
        (r, Ghost(call))
    }

    /// Structured notes for `input`: topic sections, one narrative per
    /// section (chunked and merged when its prompt is too long), screenshots
    /// anchored to sections, and a title and tags from one frontmatter call.
    /// A failed call falls back and does not abort; only when the call of
    /// every section failed with a model error does generation fail (see
    /// `generation_run`).
    pub fn generate(&self, input: NotesInput) -> (r: Result<StructuredNotes, NotesError>)
        requires
            total_duration(input.transcript@) <= u64::MAX,
            transcript_estimate(input.transcript@) <= usize::MAX,
            anchoring_defined(input.transcript@, input.screenshots@, input.meeting_metadata.duration_ms),
        ensures
            exists|logs: Seq<Seq<Call>>, fm: Seq<Call>| #[trigger] generation_run(self.llm, input, self.dialect, logs, fm, r),
            input.transcript@.len() == 0 <==> r matches Err(NotesError::EmptyTranscript),
            r is Err ==> (r matches Err(NotesError::EmptyTranscript) || r matches Err(
                NotesError::LlmUnavailable { .. },
            )),
            r matches Ok(notes) ==> notes_fit(notes, input, self.dialect),
    {
        let ghost orig = input;
        if input.transcript.len() == 0 {
            let r = Err(NotesError::EmptyTranscript);
            proof {
                let logs = Seq::<Seq<Call>>::empty();
                let fm = Seq::<Call>::empty();
                assert(logs.flatten() + fm =~= Seq::<Call>::empty());
                assert(generation_run(self.llm, orig, self.dialect, logs, fm, r));
            }
            return r;
        }
        let language = match &input.meeting_metadata.language_hint {
            Some(h) => h.clone(),
            None => dominant_language(input.transcript.as_slice()),
        };
        let languages = unique_languages(input.transcript.as_slice());
        let cfg = TopicSegmentationConfig::default();
        let raw = segment_topics(input.transcript.as_slice(), &cfg);
        let allowed = speaker_set(input.transcript.as_slice());
        let (drafts, errors, Ghost(logs)) = self.draft_sections(
            input.transcript.as_slice(),
            &raw,
            language.as_str(),
            &allowed,
        );
        let ghost outs = outcomes_view(drafts@, errors@);
        proof {
            assert(every_section_failed(outs) <==> (errors@.len() > 0 && forall|k: int|
                0 <= k < errors@.len() ==> (#[trigger] errors@[k]) is Some)) by {
                if errors@.len() > 0 && forall|k: int| 0 <= k < errors@.len() ==> (#[trigger] errors@[k]) is Some {
                    assert forall|k: int| 0 <= k < outs.len() implies (#[trigger] outs[k]).1 is Some by {
                        assert(errors@[k] is Some);
                    }
                }
                if every_section_failed(outs) {
                    assert forall|k: int| 0 <= k < errors@.len() implies (#[trigger] errors@[k]) is Some by {
                        assert(outs[k].1 is Some);
                    }
                }
            }
        }
        match unavailable_error(&errors) {
            Some(e) => {
                let r = Err(e);
                proof {
                    let fm = Seq::<Call>::empty();
                    assert(logs.flatten() + fm =~= logs.flatten());
                    assert(outs.last() == outs[outs.len() - 1]);
                    assert(sections_ran(orig.transcript@, language@, self.dialect, logs, outs));
                    assert(answered_by(self.llm, logs.flatten() + fm));
                    assert(every_section_failed(outs));
                    assert(language@ == meeting_language(orig.transcript@, orig.meeting_metadata.language_hint));
                    assert(generation_run(self.llm, orig, self.dialect, logs, fm, r));
                }
                return r;
            },
            None => {},
        }
        let duration_ms = input.meeting_metadata.duration_ms;
        let clamped = clamp_screenshots(input.screenshots.as_slice(), duration_ms);
        proof {
            assert(ranges_of(raw@) =~= model_ranges(sections_view(raw@)));
        }
        let per_section = anchor_screenshots(raw.as_slice(), clamped.as_slice());
        let summaries = summaries_of(&drafts);
        let ((title, tags), Ghost(fcall)) = self.frontmatter(summaries.as_slice(), language.as_str(), duration_ms);
        let speakers = collect_speakers(input.transcript.as_slice());
        let ghost dviews = drafts@;
        let sections = assemble_sections(drafts, per_section);
        let started_at = input.meeting_metadata.started_at;
        let frontmatter = NotesFrontmatter {
            title,
            date: started_at.date_naive(),
            started_at,
            duration_ms,
            speakers,
            languages,
            tags,
            template: "default".to_owned(),
            dialect: self.dialect,
            panops_version: PANOPS_VERSION.to_owned(),
            source_audio: input.meeting_metadata.source_path,
        };
        let notes = StructuredNotes {
            schema_version: StructuredNotes::SCHEMA_VERSION,
            frontmatter,
            sections,
            language,
            generated_at: crate::clock::now_rfc3339(),
        };
        proof {
            let secs = topic_sections(orig.transcript@, default_topic_config());
            assert forall|k: int| 0 <= k < secs.len() implies section_fits(
                #[trigger] notes.sections@[k],
                k,
                secs[k],
                orig.transcript@,
                model_ranges(secs),
                clamped_shots(orig.screenshots@, duration_ms),
                self.dialect,
            ) by {
                assert(sections_view(raw@)[k] == raw@[k]@);
            }
            let fm = seq![fcall];
            let r = Ok::<StructuredNotes, NotesError>(notes);
            lemma_answered_concat(self.llm, logs.flatten(), fm);
            let dm = outs.map_values(|o: (DraftModel, Option<Seq<char>>)| o.0);
            assert(summaries_match(summaries@, dm)) by {
                assert forall|k: int| 0 <= k < summaries@.len() implies (#[trigger] summaries@[k]).title@ == dm[k].title
                    && summaries@[k].key_points@.map_values(|t: String| t@) == dm[k].key_points by {
                    assert(dm[k] == dviews[k]@);
                }
            }
            assert(is_frontmatter_request(fm[0].0, dm, language@, duration_ms));
            assert forall|k: int| 0 <= k < outs.len() implies section_as_draft(notes.sections@[k]) == (
            #[trigger] outs[k]).0 by {}
            assert(sections_ran(orig.transcript@, language@, self.dialect, logs, outs));
            assert(answered_by(self.llm, logs.flatten() + fm));
            assert(!every_section_failed(outs));
            assert(language@ == meeting_language(orig.transcript@, orig.meeting_metadata.language_hint));
            assert(notes_fit(notes, orig, self.dialect));
            assert((notes.frontmatter.title@, notes.frontmatter.tags@.map_values(|x: String| x@)) == frontmatter_answer(fm[0].1));
            assert(generation_run(self.llm, orig, self.dialect, logs, fm, r));
        }
        Ok(notes)
    }
}

} // verus!
