//! The conformance suite every `MeetingStore` adapter must pass: created
//! rows get generated ids, segment and screenshot listings are ordered by
//! time, speakers can be fetched and renamed, and an unknown speaker is
//! `SpeakerNotFound`.

use vstd::prelude::*;

use crate::meeting_store::{
    MeetingStore, MeetingStoreError, MeetingStoreErrorModel, ScreenshotDraft, ScreenshotModel, SegmentDraft,
    SegmentModel, SpeakerDraft, SpeakerModel, StoreAnswer, StoreCall, SegmentRow, ScreenshotRow, SpeakerRow,
    store_result, store_rows,
};

verus! {

fn fail<T>(check: &str) -> (r: Result<T, String>)
    ensures
        r is Err,
        r->Err_0@ == check@,
{
    Err(check.to_owned())
}

fn is_text(s: &String, t: &str) -> (r: bool)
    ensures
        r == (s@ == t@),
{
    *s == t.to_owned()
}

/// `0.9` as `f32` bits.
const CONFIDENCE_0_9: u32 = 0x3f66_6666;

/// `0.8` as `f32` bits.
const CONFIDENCE_0_8: u32 = 0x3f4c_cccd;

fn segment_draft(meeting_id: &str, start_ms: u64, end_ms: u64, text: &str, confidence_bits: u32) -> (r: SegmentDraft)
    ensures
        segment_drafted(r, meeting_id@, start_ms, end_ms, text@),
{
    SegmentDraft {
        meeting_id: meeting_id.to_owned(),
        start_ms,
        end_ms,
        text: text.to_owned(),
        language: Some("en".to_owned()),
        confidence_bits: Some(confidence_bits),
        speaker_id: None,
        source: "post_pass".to_owned(),
    }
}

fn screenshot_draft(meeting_id: &str, timestamp_ms: u64, path: &str) -> (r: ScreenshotDraft)
    ensures
        screenshot_drafted(r, meeting_id@, timestamp_ms, path@),
{
    ScreenshotDraft {
        meeting_id: meeting_id.to_owned(),
        timestamp_ms,
        path: path.to_owned(),
        feature_print: None,
        caption: None,
    }
}

fn speaker_draft(meeting_id: &str, label: &str) -> (r: SpeakerDraft)
    ensures
        speaker_drafted(r, meeting_id@, label@),
{
    SpeakerDraft { meeting_id: meeting_id.to_owned(), label: label.to_owned(), embedding: None }
}

// ---- what each check's passing run implies ---------------------------------

/// A segment draft for `meeting_id` over `[start_ms, end_ms)` saying `text`.
pub open spec fn segment_drafted(d: SegmentDraft, meeting_id: Seq<char>, start_ms: u64, end_ms: u64, text: Seq<char>) -> bool {
    d.meeting_id@ == meeting_id && d.start_ms == start_ms && d.end_ms == end_ms && d.text@ == text
}

/// A screenshot draft for `meeting_id` taken at `timestamp_ms`, at `path`.
pub open spec fn screenshot_drafted(d: ScreenshotDraft, meeting_id: Seq<char>, timestamp_ms: u64, path: Seq<char>) -> bool {
    d.meeting_id@ == meeting_id && d.timestamp_ms == timestamp_ms && d.path@ == path
}

/// A speaker draft for `meeting_id` labelled `label`.
pub open spec fn speaker_drafted(d: SpeakerDraft, meeting_id: Seq<char>, label: Seq<char>) -> bool {
    d.meeting_id@ == meeting_id && d.label@ == label
}

/// One recorded call: the adapter before, the call, the adapter after and
/// the answer.
pub type StoreStep<M> = (M, StoreCall, M, StoreAnswer);

/// A trace: the adapter it started from, and the steps since.
pub type StoreTrace<M> = (M, Seq<StoreStep<M>>);

/// The steps run from `start`, each one a `step` the adapter may make,
/// each starting where the one before ended, the last ending at `end`.
pub open spec fn store_ran<M: MeetingStore>(start: M, t: Seq<StoreStep<M>>, end: M) -> bool
    decreases t.len(),
{
    if t.len() == 0 {
        start == end
    } else {
        &&& store_ran(start, t.drop_last(), t.last().0)
        &&& t.last().0.step(t.last().1, t.last().2, t.last().3)
        &&& t.last().2 == end
    }
}

/// `later` continues `earlier`: same start, and the earlier steps first.
pub open spec fn store_extends<M>(earlier: StoreTrace<M>, later: StoreTrace<M>) -> bool {
    &&& later.0 == earlier.0
    &&& earlier.1.len() <= later.1.len()
    &&& forall|i: int| 0 <= i < earlier.1.len() ==> #[trigger] later.1[i] == earlier.1[i]
}

/// The steps `later` added to `earlier`.
pub open spec fn store_added<M>(earlier: StoreTrace<M>, later: StoreTrace<M>) -> Seq<StoreStep<M>> {
    later.1.skip(earlier.1.len() as int)
}

/// Records a step the adapter took at the end of the trace.
proof fn lemma_store_ran_push<M: MeetingStore>(t: StoreTrace<M>, mid: M, s: StoreStep<M>)
    requires
        store_ran(t.0, t.1, mid),
        s.0 == mid,
        mid.step(s.1, s.2, s.3),
    ensures
        store_ran(t.0, t.1.push(s), s.2),
{
    assert(t.1.push(s).drop_last() =~= t.1);
}

fn s_create_segment<M: MeetingStore>(adapter: &mut M, t: &mut Ghost<StoreTrace<M>>, draft: SegmentDraft) -> (r: Result<SegmentRow, MeetingStoreError>)
    requires
        store_ran(old(t)@.0, old(t)@.1, *old(adapter)),
    ensures
        final(t)@ == (old(t)@.0, old(t)@.1.push((*old(adapter), StoreCall::CreateSegment { draft }, *final(adapter), StoreAnswer::Segment(store_result(r))))),
        store_ran(final(t)@.0, final(t)@.1, *final(adapter)),
{
    let ghost before = *adapter;
    let ghost d = draft;
    let r = adapter.create_segment(draft);
    let ghost s: StoreStep<M> = (before, StoreCall::CreateSegment { draft: d }, *adapter, StoreAnswer::Segment(store_result(r)));
    proof { lemma_store_ran_push(t@, before, s); }
    *t = Ghost((t@.0, t@.1.push(s)));
    r
}

fn s_list_segments<M: MeetingStore>(adapter: &mut M, t: &mut Ghost<StoreTrace<M>>, meeting_id: &str) -> (r: Result<Vec<SegmentRow>, MeetingStoreError>)
    requires
        store_ran(old(t)@.0, old(t)@.1, *old(adapter)),
    ensures
        *final(adapter) == *old(adapter),
        final(t)@ == (old(t)@.0, old(t)@.1.push((*old(adapter), StoreCall::ListSegments { meeting_id: meeting_id@ }, *old(adapter), StoreAnswer::Segments(store_rows(r))))),
        store_ran(final(t)@.0, final(t)@.1, *final(adapter)),
{
    let ghost before = *adapter;
    let r = adapter.list_segments(meeting_id);
    let ghost s: StoreStep<M> = (before, StoreCall::ListSegments { meeting_id: meeting_id@ }, before, StoreAnswer::Segments(store_rows(r)));
    proof { lemma_store_ran_push(t@, before, s); }
    *t = Ghost((t@.0, t@.1.push(s)));
    r
}

fn s_create_screenshot<M: MeetingStore>(adapter: &mut M, t: &mut Ghost<StoreTrace<M>>, draft: ScreenshotDraft) -> (r: Result<ScreenshotRow, MeetingStoreError>)
    requires
        store_ran(old(t)@.0, old(t)@.1, *old(adapter)),
    ensures
        final(t)@ == (old(t)@.0, old(t)@.1.push((*old(adapter), StoreCall::CreateScreenshot { draft }, *final(adapter), StoreAnswer::Screenshot(store_result(r))))),
        store_ran(final(t)@.0, final(t)@.1, *final(adapter)),
{
    let ghost before = *adapter;
    let ghost d = draft;
    let r = adapter.create_screenshot(draft);
    let ghost s: StoreStep<M> = (before, StoreCall::CreateScreenshot { draft: d }, *adapter, StoreAnswer::Screenshot(store_result(r)));
    proof { lemma_store_ran_push(t@, before, s); }
    *t = Ghost((t@.0, t@.1.push(s)));
    r
}

fn s_list_screenshots<M: MeetingStore>(adapter: &mut M, t: &mut Ghost<StoreTrace<M>>, meeting_id: &str) -> (r: Result<Vec<ScreenshotRow>, MeetingStoreError>)
    requires
        store_ran(old(t)@.0, old(t)@.1, *old(adapter)),
    ensures
        *final(adapter) == *old(adapter),
        final(t)@ == (old(t)@.0, old(t)@.1.push((*old(adapter), StoreCall::ListScreenshots { meeting_id: meeting_id@ }, *old(adapter), StoreAnswer::Screenshots(store_rows(r))))),
        store_ran(final(t)@.0, final(t)@.1, *final(adapter)),
{
    let ghost before = *adapter;
    let r = adapter.list_screenshots(meeting_id);
    let ghost s: StoreStep<M> = (before, StoreCall::ListScreenshots { meeting_id: meeting_id@ }, before, StoreAnswer::Screenshots(store_rows(r)));
    proof { lemma_store_ran_push(t@, before, s); }
    *t = Ghost((t@.0, t@.1.push(s)));
    r
}

fn s_create_speaker<M: MeetingStore>(adapter: &mut M, t: &mut Ghost<StoreTrace<M>>, draft: SpeakerDraft) -> (r: Result<SpeakerRow, MeetingStoreError>)
    requires
        store_ran(old(t)@.0, old(t)@.1, *old(adapter)),
    ensures
        final(t)@ == (old(t)@.0, old(t)@.1.push((*old(adapter), StoreCall::CreateSpeaker { draft }, *final(adapter), StoreAnswer::Speaker(store_result(r))))),
        store_ran(final(t)@.0, final(t)@.1, *final(adapter)),
{
    let ghost before = *adapter;
    let ghost d = draft;
    let r = adapter.create_speaker(draft);
    let ghost s: StoreStep<M> = (before, StoreCall::CreateSpeaker { draft: d }, *adapter, StoreAnswer::Speaker(store_result(r)));
    proof { lemma_store_ran_push(t@, before, s); }
    *t = Ghost((t@.0, t@.1.push(s)));
    r
}

fn s_list_speakers<M: MeetingStore>(adapter: &mut M, t: &mut Ghost<StoreTrace<M>>, meeting_id: &str) -> (r: Result<Vec<SpeakerRow>, MeetingStoreError>)
    requires
        store_ran(old(t)@.0, old(t)@.1, *old(adapter)),
    ensures
        *final(adapter) == *old(adapter),
        final(t)@ == (old(t)@.0, old(t)@.1.push((*old(adapter), StoreCall::ListSpeakers { meeting_id: meeting_id@ }, *old(adapter), StoreAnswer::Speakers(store_rows(r))))),
        store_ran(final(t)@.0, final(t)@.1, *final(adapter)),
{
    let ghost before = *adapter;
    let r = adapter.list_speakers(meeting_id);
    let ghost s: StoreStep<M> = (before, StoreCall::ListSpeakers { meeting_id: meeting_id@ }, before, StoreAnswer::Speakers(store_rows(r)));
    proof { lemma_store_ran_push(t@, before, s); }
    *t = Ghost((t@.0, t@.1.push(s)));
    r
}

fn s_get_speaker<M: MeetingStore>(adapter: &mut M, t: &mut Ghost<StoreTrace<M>>, id: i64) -> (r: Result<SpeakerRow, MeetingStoreError>)
    requires
        store_ran(old(t)@.0, old(t)@.1, *old(adapter)),
    ensures
        *final(adapter) == *old(adapter),
        final(t)@ == (old(t)@.0, old(t)@.1.push((*old(adapter), StoreCall::GetSpeaker { id }, *old(adapter), StoreAnswer::Speaker(store_result(r))))),
        store_ran(final(t)@.0, final(t)@.1, *final(adapter)),
{
    let ghost before = *adapter;
    let r = adapter.get_speaker(id);
    let ghost s: StoreStep<M> = (before, StoreCall::GetSpeaker { id }, before, StoreAnswer::Speaker(store_result(r)));
    proof { lemma_store_ran_push(t@, before, s); }
    *t = Ghost((t@.0, t@.1.push(s)));
    r
}

fn s_update_speaker_label<M: MeetingStore>(adapter: &mut M, t: &mut Ghost<StoreTrace<M>>, id: i64, label: &str) -> (r: Result<SpeakerRow, MeetingStoreError>)
    requires
        store_ran(old(t)@.0, old(t)@.1, *old(adapter)),
    ensures
        final(t)@ == (old(t)@.0, old(t)@.1.push((*old(adapter), StoreCall::RelabelSpeaker { id, label: label@ }, *final(adapter), StoreAnswer::Speaker(store_result(r))))),
        store_ran(final(t)@.0, final(t)@.1, *final(adapter)),
{
    let ghost before = *adapter;
    let r = adapter.update_speaker_label(id, label);
    let ghost s: StoreStep<M> = (before, StoreCall::RelabelSpeaker { id, label: label@ }, *adapter, StoreAnswer::Speaker(store_result(r)));
    proof { lemma_store_ran_push(t@, before, s); }
    *t = Ghost((t@.0, t@.1.push(s)));
    r
}

/// The segment of a segment answer.
pub open spec fn segment_of_answer(a: StoreAnswer) -> SegmentModel {
    a->Segment_0->Ok_0
}

/// The screenshot of a screenshot answer.
pub open spec fn screenshot_of_answer(a: StoreAnswer) -> ScreenshotModel {
    a->Screenshot_0->Ok_0
}

/// The speaker of a speaker answer.
pub open spec fn speaker_of_answer(a: StoreAnswer) -> SpeakerModel {
    a->Speaker_0->Ok_0
}

/// The segments check passes on these steps: two segments created (the
/// first answered with a generated id, its meeting and text), then the
/// meeting's listing holds exactly those two, the earlier first.
pub open spec fn segments_pass<M>(s: Seq<StoreStep<M>>) -> bool {
    &&& s.len() == 3
    &&& s[0].1 matches StoreCall::CreateSegment { draft } && segment_drafted(draft, "test_meeting_001"@, 0, 1000, "hello world"@)
    &&& s[0].3 matches StoreAnswer::Segment(Ok(a1)) && a1.id > 0 && a1.meeting_id == "test_meeting_001"@ && a1.text
        == "hello world"@
    &&& s[1].1 matches StoreCall::CreateSegment { draft } && segment_drafted(draft, "test_meeting_001"@, 2000, 3000, "goodbye"@)
    &&& s[1].3 matches StoreAnswer::Segment(Ok(_))
    &&& s[2].1 == StoreCall::ListSegments { meeting_id: "test_meeting_001"@ }
    &&& s[2].3 matches StoreAnswer::Segments(Ok(ls)) && ls.len() == 2 && ls[0].id == segment_of_answer(s[0].3).id
        && ls[1].id == segment_of_answer(s[1].3).id
}

/// The screenshots check passes on these steps: two screenshots created
/// (the first answered with a generated id and its meeting), then the
/// meeting's listing holds exactly those two, the earlier first.
pub open spec fn screenshots_pass<M>(s: Seq<StoreStep<M>>) -> bool {
    &&& s.len() == 3
    &&& s[0].1 matches StoreCall::CreateScreenshot { draft } && screenshot_drafted(draft, "test_meeting_screenshots"@, 5000, "/tmp/screenshots/001.jpg"@)
    &&& s[0].3 matches StoreAnswer::Screenshot(Ok(a1)) && a1.id > 0 && a1.meeting_id == "test_meeting_screenshots"@
    &&& s[1].1 matches StoreCall::CreateScreenshot { draft } && screenshot_drafted(draft, "test_meeting_screenshots"@, 10_000, "/tmp/screenshots/002.jpg"@)
    &&& s[1].3 matches StoreAnswer::Screenshot(Ok(_))
    &&& s[2].1 == StoreCall::ListScreenshots { meeting_id: "test_meeting_screenshots"@ }
    &&& s[2].3 matches StoreAnswer::Screenshots(Ok(ls)) && ls.len() == 2 && ls[0].id == screenshot_of_answer(s[0].3).id
        && ls[1].id == screenshot_of_answer(s[1].3).id
}

/// The speakers check passes on these steps: two speakers created (the
/// first answered with a generated id, its meeting and label), then the
/// meeting's listing holds two speakers, both of them.
pub open spec fn speakers_pass<M>(s: Seq<StoreStep<M>>) -> bool {
    &&& s.len() == 3
    &&& s[0].1 matches StoreCall::CreateSpeaker { draft } && speaker_drafted(draft, "test_meeting_speakers"@, "Speaker A"@)
    &&& s[0].3 matches StoreAnswer::Speaker(Ok(a1)) && a1.id > 0 && a1.meeting_id == "test_meeting_speakers"@ && a1.label
        == "Speaker A"@
    &&& s[1].1 matches StoreCall::CreateSpeaker { draft } && speaker_drafted(draft, "test_meeting_speakers"@, "Speaker B"@)
    &&& s[1].3 matches StoreAnswer::Speaker(Ok(_))
    &&& s[2].1 == StoreCall::ListSpeakers { meeting_id: "test_meeting_speakers"@ }
    &&& s[2].3 matches StoreAnswer::Speakers(Ok(ls)) && ls.len() == 2
    &&& exists|i: int| 0 <= i < 2 && (#[trigger] s[2].3->Speakers_0->Ok_0[i]).id == speaker_of_answer(s[0].3).id
    &&& exists|j: int| 0 <= j < 2 && (#[trigger] s[2].3->Speakers_0->Ok_0[j]).id == speaker_of_answer(s[1].3).id
}

/// The fetch check passes on these steps: a speaker created, then fetched
/// by its id, with its id and label.
pub open spec fn fetch_pass<M>(s: Seq<StoreStep<M>>) -> bool {
    &&& s.len() == 2
    &&& s[0].1 matches StoreCall::CreateSpeaker { draft } && speaker_drafted(draft, "test_meeting_get_speaker"@, "Speaker X"@)
    &&& s[0].3 matches StoreAnswer::Speaker(Ok(_))
    &&& s[1].1 == StoreCall::GetSpeaker { id: speaker_of_answer(s[0].3).id }
    &&& s[1].3 matches StoreAnswer::Speaker(Ok(a2)) && a2.id == speaker_of_answer(s[0].3).id && a2.label == "Speaker X"@
}

/// The rename check passes on these steps: a speaker created, renamed
/// (answered with its id and the new label), then fetched with the new
/// label.
pub open spec fn relabel_pass<M>(s: Seq<StoreStep<M>>) -> bool {
    &&& s.len() == 3
    &&& s[0].1 matches StoreCall::CreateSpeaker { draft } && speaker_drafted(draft, "test_meeting_update_speaker"@, "Original Label"@)
    &&& s[0].3 matches StoreAnswer::Speaker(Ok(_))
    &&& s[1].1 == StoreCall::RelabelSpeaker { id: speaker_of_answer(s[0].3).id, label: "New Label"@ }
    &&& s[1].3 matches StoreAnswer::Speaker(Ok(a2)) && a2.id == speaker_of_answer(s[0].3).id && a2.label == "New Label"@
    &&& s[2].1 == StoreCall::GetSpeaker { id: speaker_of_answer(s[0].3).id }
    &&& s[2].3 matches StoreAnswer::Speaker(Ok(a3)) && a3.label == "New Label"@
}

/// The unknown-speaker check passes on this step: fetching id 999999
/// answers `SpeakerNotFound` carrying that id.
pub open spec fn unknown_speaker_pass<M>(s: Seq<StoreStep<M>>) -> bool {
    &&& s.len() == 1
    &&& s[0].1 == StoreCall::GetSpeaker { id: 999999 }
    &&& s[0].3 == StoreAnswer::Speaker(Err(MeetingStoreErrorModel::SpeakerNotFound { id: 999999 }))
}

/// The calls the segments check makes, whatever the answers: a segment
/// created; on a passing answer a second one; when that is created, the
/// meeting's listing; nothing more.
pub open spec fn segments_calls<M>(s: Seq<StoreStep<M>>) -> bool {
    &&& 1 <= s.len() <= 3
    &&& s[0].1 matches StoreCall::CreateSegment { draft } && segment_drafted(draft, "test_meeting_001"@, 0, 1000, "hello world"@)
    &&& s.len() >= 2 <==> (s[0].3 matches StoreAnswer::Segment(Ok(a1)) && a1.id > 0 && a1.meeting_id == "test_meeting_001"@ && a1.text == "hello world"@)
    &&& s.len() >= 2 ==> (s[1].1 matches StoreCall::CreateSegment { draft } && segment_drafted(draft, "test_meeting_001"@, 2000, 3000, "goodbye"@))
    &&& s.len() >= 3 <==> (s.len() >= 2 && (s[1].3 matches StoreAnswer::Segment(Ok(_))))
    &&& s.len() >= 3 ==> s[2].1 == StoreCall::ListSegments { meeting_id: "test_meeting_001"@ }
}

/// The calls the screenshots check makes, whatever the answers.
pub open spec fn screenshots_calls<M>(s: Seq<StoreStep<M>>) -> bool {
    &&& 1 <= s.len() <= 3
    &&& s[0].1 matches StoreCall::CreateScreenshot { draft } && screenshot_drafted(draft, "test_meeting_screenshots"@, 5000, "/tmp/screenshots/001.jpg"@)
    &&& s.len() >= 2 <==> (s[0].3 matches StoreAnswer::Screenshot(Ok(a1)) && a1.id > 0 && a1.meeting_id == "test_meeting_screenshots"@)
    &&& s.len() >= 2 ==> (s[1].1 matches StoreCall::CreateScreenshot { draft } && screenshot_drafted(draft, "test_meeting_screenshots"@, 10_000, "/tmp/screenshots/002.jpg"@))
    &&& s.len() >= 3 <==> (s.len() >= 2 && (s[1].3 matches StoreAnswer::Screenshot(Ok(_))))
    &&& s.len() >= 3 ==> s[2].1 == StoreCall::ListScreenshots { meeting_id: "test_meeting_screenshots"@ }
}

/// The calls the speakers check makes, whatever the answers.
pub open spec fn speakers_calls<M>(s: Seq<StoreStep<M>>) -> bool {
    &&& 1 <= s.len() <= 3
    &&& s[0].1 matches StoreCall::CreateSpeaker { draft } && speaker_drafted(draft, "test_meeting_speakers"@, "Speaker A"@)
    &&& s.len() >= 2 <==> (s[0].3 matches StoreAnswer::Speaker(Ok(a1)) && a1.id > 0 && a1.meeting_id == "test_meeting_speakers"@ && a1.label == "Speaker A"@)
    &&& s.len() >= 2 ==> (s[1].1 matches StoreCall::CreateSpeaker { draft } && speaker_drafted(draft, "test_meeting_speakers"@, "Speaker B"@))
    &&& s.len() >= 3 <==> (s.len() >= 2 && (s[1].3 matches StoreAnswer::Speaker(Ok(_))))
    &&& s.len() >= 3 ==> s[2].1 == StoreCall::ListSpeakers { meeting_id: "test_meeting_speakers"@ }
}

/// The calls the fetch check makes, whatever the answers: a speaker
/// created; when it is, a fetch of its id.
pub open spec fn fetch_calls<M>(s: Seq<StoreStep<M>>) -> bool {
    &&& 1 <= s.len() <= 2
    &&& s[0].1 matches StoreCall::CreateSpeaker { draft } && speaker_drafted(draft, "test_meeting_get_speaker"@, "Speaker X"@)
    &&& s.len() >= 2 <==> (s[0].3 matches StoreAnswer::Speaker(Ok(_)))
    &&& s.len() >= 2 ==> s[1].1 == StoreCall::GetSpeaker { id: speaker_of_answer(s[0].3).id }
}

/// The calls the rename check makes, whatever the answers: a speaker
/// created; when it is, renamed; on a passing answer, fetched.
pub open spec fn relabel_calls<M>(s: Seq<StoreStep<M>>) -> bool {
    &&& 1 <= s.len() <= 3
    &&& s[0].1 matches StoreCall::CreateSpeaker { draft } && speaker_drafted(draft, "test_meeting_update_speaker"@, "Original Label"@)
    &&& s.len() >= 2 <==> (s[0].3 matches StoreAnswer::Speaker(Ok(_)))
    &&& s.len() >= 2 ==> s[1].1 == StoreCall::RelabelSpeaker { id: speaker_of_answer(s[0].3).id, label: "New Label"@ }
    &&& s.len() >= 3 <==> (s.len() >= 2 && (s[1].3 matches StoreAnswer::Speaker(Ok(a2)) && a2.id == speaker_of_answer(s[0].3).id && a2.label == "New Label"@))
    &&& s.len() >= 3 ==> s[2].1 == StoreCall::GetSpeaker { id: speaker_of_answer(s[0].3).id }
}

/// The call the unknown-speaker check makes: a fetch of id 999999.
pub open spec fn unknown_speaker_calls<M>(s: Seq<StoreStep<M>>) -> bool {
    &&& s.len() == 1
    &&& s[0].1 == StoreCall::GetSpeaker { id: 999999 }
}

/// The calls check `k` of the suite makes, whatever the answers.
pub open spec fn store_check_calls<M>(k: int, s: Seq<StoreStep<M>>) -> bool {
    if k == 0 {
        segments_calls(s)
    } else if k == 1 {
        screenshots_calls(s)
    } else if k == 2 {
        speakers_calls(s)
    } else if k == 3 {
        fetch_calls(s)
    } else if k == 4 {
        relabel_calls(s)
    } else {
        unknown_speaker_calls(s)
    }
}

/// Check `k` of the suite passes on these steps.
pub open spec fn store_check_pass<M>(k: int, s: Seq<StoreStep<M>>) -> bool {
    if k == 0 {
        segments_pass(s)
    } else if k == 1 {
        screenshots_pass(s)
    } else if k == 2 {
        speakers_pass(s)
    } else if k == 3 {
        fetch_pass(s)
    } else if k == 4 {
        relabel_pass(s)
    } else {
        unknown_speaker_pass(s)
    }
}

/// What a run of the suite did, whatever the adapter answered: traces
/// `ts[0]` to `ts[n]`, each continuing the one before, the steps between
/// `ts[k - 1]` and `ts[k]` being those of check `k - 1` and making the
/// calls it makes (`store_check_calls`); every check but
/// the last that ran passed, the run passed exactly when that last check
/// passed, and it passed only when all six ran.
pub open spec fn store_suite_outcome<M>(ts: Seq<StoreTrace<M>>, passed: bool) -> bool {
    let n = ts.len() - 1;
    &&& 1 <= n <= 6
    &&& forall|k: int| 1 <= k <= n ==> store_extends(ts[k - 1], #[trigger] ts[k])
    &&& forall|k: int| 1 <= k <= n ==> store_check_calls(k - 1, store_added(ts[k - 1], #[trigger] ts[k]))
    &&& forall|k: int| 1 <= k < n ==> store_check_pass(k - 1, store_added(ts[k - 1], #[trigger] ts[k]))
    &&& passed <==> store_check_pass(n - 1, store_added(ts[n - 1], ts[n]))
    &&& passed ==> n == 6
}

/// A passing run of the suite passed every one of its six checks, each on
/// its own steps, each check's steps following the one before.
pub proof fn law_passing_store_suite_passes_every_check<M>(ts: Seq<StoreTrace<M>>, k: int)
    requires
        store_suite_outcome(ts, true),
        0 <= k < 6,
    ensures
        ts.len() == 7,
        store_extends(ts[k], ts[k + 1]),
        store_check_pass(k, store_added(ts[k], ts[k + 1])),
{
    let next = ts[k + 1];
    assert(store_extends(ts[k + 1 - 1], next));
}

fn create_and_list_segments<M: MeetingStore>(adapter: &mut M, t: &mut Ghost<StoreTrace<M>>) -> (r: Result<(), String>)
    requires
        store_ran(old(t)@.0, old(t)@.1, *old(adapter)),
    ensures
        store_ran(final(t)@.0, final(t)@.1, *final(adapter)),
        store_extends(old(t)@, final(t)@),
        segments_calls(store_added(old(t)@, final(t)@)),
        r is Ok <==> segments_pass(store_added(old(t)@, final(t)@)),
{
    let ghost t0 = t@;
    let meeting_id = "test_meeting_001";
    let s1 = match s_create_segment(adapter, t, segment_draft(meeting_id, 0, 1000, "hello world", CONFIDENCE_0_9)) {
        Ok(s) => s,
        Err(_) => {
            return fail("create_segment should succeed");
        },
    };
    let ghost a0 = t@.1.last();
    if !(s1.id > 0 && is_text(&s1.meeting_id, meeting_id) && is_text(&s1.text, "hello world")) {
        return fail("segment id should be generated and the row returned");
    }
    let s2 = match s_create_segment(adapter, t, segment_draft(meeting_id, 2000, 3000, "goodbye", CONFIDENCE_0_8)) {
        Ok(s) => s,
        Err(_) => {
            return fail("create_segment should succeed");
        },
    };
    let ghost a1 = t@.1.last();
    let listed = s_list_segments(adapter, t, meeting_id);
    proof {
        assert(store_added(t0, t@) =~= seq![a0, a1, t@.1.last()]);
    }
    match listed {
        Ok(segments) => {
            proof {
                let ls = segments@.map_values(|x: SegmentRow| x@);
                if segments@.len() > 0 { assert(ls[0] == segments@[0]@); }
                if segments@.len() > 1 { assert(ls[1] == segments@[1]@); }
            }
            if segments.len() == 2 && segments[0].id == s1.id && segments[1].id == s2.id {
                Ok(())
            } else {
                fail("list_segments should return both, ordered by start_ms")
            }
        },
        Err(_) => fail("list_segments should succeed"),
    }
}

fn create_and_list_screenshots<M: MeetingStore>(adapter: &mut M, t: &mut Ghost<StoreTrace<M>>) -> (r: Result<(), String>)
    requires
        store_ran(old(t)@.0, old(t)@.1, *old(adapter)),
    ensures
        store_ran(final(t)@.0, final(t)@.1, *final(adapter)),
        store_extends(old(t)@, final(t)@),
        screenshots_calls(store_added(old(t)@, final(t)@)),
        r is Ok <==> screenshots_pass(store_added(old(t)@, final(t)@)),
{
    let ghost t0 = t@;
    let meeting_id = "test_meeting_screenshots";
    let sc1 = match s_create_screenshot(adapter, t, screenshot_draft(meeting_id, 5000, "/tmp/screenshots/001.jpg")) {
        Ok(s) => s,
        Err(_) => {
            return fail("create_screenshot should succeed");
        },
    };
    let ghost a0 = t@.1.last();
    if !(sc1.id > 0 && is_text(&sc1.meeting_id, meeting_id)) {
        return fail("screenshot id should be generated");
    }
    let sc2 = match s_create_screenshot(adapter, t, screenshot_draft(meeting_id, 10_000, "/tmp/screenshots/002.jpg")) {
        Ok(s) => s,
        Err(_) => {
            return fail("create_screenshot should succeed");
        },
    };
    let ghost a1 = t@.1.last();
    let listed = s_list_screenshots(adapter, t, meeting_id);
    proof {
        assert(store_added(t0, t@) =~= seq![a0, a1, t@.1.last()]);
    }
    match listed {
        Ok(shots) => {
            proof {
                let ls = shots@.map_values(|x: ScreenshotRow| x@);
                if shots@.len() > 0 { assert(ls[0] == shots@[0]@); }
                if shots@.len() > 1 { assert(ls[1] == shots@[1]@); }
            }
            if shots.len() == 2 && shots[0].id == sc1.id && shots[1].id == sc2.id {
                Ok(())
            } else {
                fail("list_screenshots should return both, ordered by timestamp_ms")
            }
        },
        Err(_) => fail("list_screenshots should succeed"),
    }
}

/// Whether some speaker of `speakers` has id `id`.
fn lists_speaker(speakers: &Vec<SpeakerRow>, id: i64) -> (r: bool)
    ensures
        r == exists|i: int| 0 <= i < speakers@.len() && (#[trigger] speakers@[i]).id == id,
{
    let mut i: usize = 0;
    while i < speakers.len()
        invariant
            i <= speakers@.len(),
            forall|j: int| 0 <= j < i ==> (#[trigger] speakers@[j]).id != id,
        decreases speakers.len() - i,
    {
        if speakers[i].id == id {
            return true;
        }
        i = i + 1;
    }
    false
}

/// The speakers of a listing as values.
pub open spec fn speaker_models(v: Seq<SpeakerRow>) -> Seq<SpeakerModel> {
    v.map_values(|x: SpeakerRow| x@)
}

proof fn lemma_speaker_listed(v: Seq<SpeakerRow>, id: i64)
    ensures
        (exists|i: int| 0 <= i < v.len() && (#[trigger] v[i]).id == id) <==> (exists|k: int|
            0 <= k < speaker_models(v).len() && (#[trigger] speaker_models(v)[k]).id == id),
{
    let ls = speaker_models(v);
    if exists|i: int| 0 <= i < v.len() && (#[trigger] v[i]).id == id {
        let i = choose|i: int| 0 <= i < v.len() && (#[trigger] v[i]).id == id;
        assert(ls[i].id == id);
    }
    if exists|k: int| 0 <= k < ls.len() && (#[trigger] ls[k]).id == id {
        let k = choose|k: int| 0 <= k < ls.len() && (#[trigger] ls[k]).id == id;
        assert(v[k].id == id);
    }
}

fn create_and_list_speakers<M: MeetingStore>(adapter: &mut M, t: &mut Ghost<StoreTrace<M>>) -> (r: Result<(), String>)
    requires
        store_ran(old(t)@.0, old(t)@.1, *old(adapter)),
    ensures
        store_ran(final(t)@.0, final(t)@.1, *final(adapter)),
        store_extends(old(t)@, final(t)@),
        speakers_calls(store_added(old(t)@, final(t)@)),
        r is Ok <==> speakers_pass(store_added(old(t)@, final(t)@)),
{
    let ghost t0 = t@;
    let meeting_id = "test_meeting_speakers";
    let sp1 = match s_create_speaker(adapter, t, speaker_draft(meeting_id, "Speaker A")) {
        Ok(s) => s,
        Err(_) => {
            return fail("create_speaker should succeed");
        },
    };
    let ghost a0 = t@.1.last();
    if !(sp1.id > 0 && is_text(&sp1.meeting_id, meeting_id) && is_text(&sp1.label, "Speaker A")) {
        return fail("speaker id should be generated and the row returned");
    }
    let sp2 = match s_create_speaker(adapter, t, speaker_draft(meeting_id, "Speaker B")) {
        Ok(s) => s,
        Err(_) => {
            return fail("create_speaker should succeed");
        },
    };
    let ghost a1 = t@.1.last();
    let listed = s_list_speakers(adapter, t, meeting_id);
    proof {
        assert(store_added(t0, t@) =~= seq![a0, a1, t@.1.last()]);
    }
    match listed {
        Ok(speakers) => {
            proof {
                lemma_speaker_listed(speakers@, sp1.id);
                lemma_speaker_listed(speakers@, sp2.id);
                assert(t@.1.last().3 == StoreAnswer::Speakers(Ok(speaker_models(speakers@))));
            }
            if speakers.len() != 2 {
                return fail("list_speakers should return both");
            }
            if lists_speaker(&speakers, sp1.id) && lists_speaker(&speakers, sp2.id) {
                Ok(())
            } else {
                fail("list_speakers should hold both ids")
            }
        },
        Err(_) => fail("list_speakers should succeed"),
    }
}

fn get_speaker<M: MeetingStore>(adapter: &mut M, t: &mut Ghost<StoreTrace<M>>) -> (r: Result<(), String>)
    requires
        store_ran(old(t)@.0, old(t)@.1, *old(adapter)),
    ensures
        store_ran(final(t)@.0, final(t)@.1, *final(adapter)),
        store_extends(old(t)@, final(t)@),
        fetch_calls(store_added(old(t)@, final(t)@)),
        r is Ok <==> fetch_pass(store_added(old(t)@, final(t)@)),
{
    let ghost t0 = t@;
    let sp = match s_create_speaker(adapter, t, speaker_draft("test_meeting_get_speaker", "Speaker X")) {
        Ok(s) => s,
        Err(_) => {
            return fail("create_speaker should succeed");
        },
    };
    let ghost a0 = t@.1.last();
    let got = s_get_speaker(adapter, t, sp.id);
    proof {
        assert(store_added(t0, t@) =~= seq![a0, t@.1.last()]);
    }
    match got {
        Ok(fetched) => if fetched.id == sp.id && is_text(&fetched.label, "Speaker X") {
            Ok(())
        } else {
            fail("get_speaker should return the speaker")
        },
        Err(_) => fail("get_speaker should succeed"),
    }
}

fn update_speaker_label<M: MeetingStore>(adapter: &mut M, t: &mut Ghost<StoreTrace<M>>) -> (r: Result<(), String>)
    requires
        store_ran(old(t)@.0, old(t)@.1, *old(adapter)),
    ensures
        store_ran(final(t)@.0, final(t)@.1, *final(adapter)),
        store_extends(old(t)@, final(t)@),
        relabel_calls(store_added(old(t)@, final(t)@)),
        r is Ok <==> relabel_pass(store_added(old(t)@, final(t)@)),
{
    let ghost t0 = t@;
    let sp = match s_create_speaker(adapter, t, speaker_draft("test_meeting_update_speaker", "Original Label")) {
        Ok(s) => s,
        Err(_) => {
            return fail("create_speaker should succeed");
        },
    };
    let ghost a0 = t@.1.last();
    let updated = match s_update_speaker_label(adapter, t, sp.id, "New Label") {
        Ok(u) => u,
        Err(_) => {
            return fail("update_speaker_label should succeed");
        },
    };
    let ghost a1 = t@.1.last();
    if !(updated.id == sp.id && is_text(&updated.label, "New Label")) {
        return fail("update_speaker_label should return the renamed speaker");
    }
    let got = s_get_speaker(adapter, t, sp.id);
    proof {
        assert(store_added(t0, t@) =~= seq![a0, a1, t@.1.last()]);
    }
    match got {
        Ok(fetched) => if is_text(&fetched.label, "New Label") {
            Ok(())
        } else {
            fail("the new label should persist")
        },
        Err(_) => fail("get_speaker should succeed"),
    }
}

fn get_nonexistent_speaker<M: MeetingStore>(adapter: &mut M, t: &mut Ghost<StoreTrace<M>>) -> (r: Result<(), String>)
    requires
        store_ran(old(t)@.0, old(t)@.1, *old(adapter)),
    ensures
        store_ran(final(t)@.0, final(t)@.1, *final(adapter)),
        store_extends(old(t)@, final(t)@),
        unknown_speaker_calls(store_added(old(t)@, final(t)@)),
        r is Ok <==> unknown_speaker_pass(store_added(old(t)@, final(t)@)),
{
    let ghost t0 = t@;
    let got = s_get_speaker(adapter, t, 999999);
    proof {
        assert(store_added(t0, t@) =~= seq![t@.1.last()]);
    }
    match got {
        Ok(_) => fail("get_speaker of nonexistent id should fail"),
        Err(MeetingStoreError::SpeakerNotFound { id }) => if id == 999999 {
            Ok(())
        } else {
            fail("SpeakerNotFound should carry the id")
        },
        Err(_) => fail("expected SpeakerNotFound"),
    }
}

/// Runs the whole suite against `adapter`; `Err` names the first check that
/// failed. Whatever the adapter answers, the calls it took are recorded as
/// steps from the adapter it was given to the one it leaves, split by
/// check, and the run is `Ok` exactly when every check passed on its steps
/// (see `store_suite_outcome`).
pub fn run_suite<M: MeetingStore>(adapter: &mut M) -> (r: Result<(), String>)
    ensures
        exists|ts: Seq<StoreTrace<M>>|
            #[trigger] store_suite_outcome(ts, r is Ok) && ts[0] == (*old(adapter), Seq::<StoreStep<M>>::empty())
                && store_ran(ts.last().0, ts.last().1, *final(adapter)),
{
    let mut t: Ghost<StoreTrace<M>> = Ghost((*adapter, Seq::empty()));
    let ghost t0 = t@;
    let r = create_and_list_segments(adapter, &mut t);
    let ghost t1 = t@;
    if r.is_err() {
        assert(store_suite_outcome(seq![t0, t1], false));
        return r;
    }
    let r = create_and_list_screenshots(adapter, &mut t);
    let ghost t2 = t@;
    if r.is_err() {
        assert(store_suite_outcome(seq![t0, t1, t2], false));
        return r;
    }
    let r = create_and_list_speakers(adapter, &mut t);
    let ghost t3 = t@;
    if r.is_err() {
        assert(store_suite_outcome(seq![t0, t1, t2, t3], false));
        return r;
    }
    let r = get_speaker(adapter, &mut t);
    let ghost t4 = t@;
    if r.is_err() {
        assert(store_suite_outcome(seq![t0, t1, t2, t3, t4], false));
        return r;
    }
    let r = update_speaker_label(adapter, &mut t);
    let ghost t5 = t@;
    if r.is_err() {
        assert(store_suite_outcome(seq![t0, t1, t2, t3, t4, t5], false));
        return r;
    }
    let r = get_nonexistent_speaker(adapter, &mut t);
    assert(store_suite_outcome(seq![t0, t1, t2, t3, t4, t5, t@], r is Ok));
    r
}

} // verus!
