//! An in-process meeting store: rows in vectors, ids from a counter, each
//! operation's effect stated over `ContentModel`.

use vstd::prelude::*;

use crate::meeting_store::{opt_bytes, store_result, store_rows, StoreAnswer, StoreCall, MeetingStore, MeetingStoreError, MeetingStoreErrorModel, ScreenshotDraft, ScreenshotModel, ScreenshotRow, SegmentDraft, SegmentModel, SegmentRow, SpeakerDraft, SpeakerModel, SpeakerRow};
use crate::search::{first_where, found_at, lemma_first_where, lemma_first_where_none};
use crate::sorting::{insert_by_key, lemma_insert_by_key_at, sort_by_key};
use crate::storage::opt_view;

verus! {

/// A meeting's stored content, in insertion order, and the next id.
pub struct ContentModel {
    pub segments: Seq<SegmentModel>,
    pub screenshots: Seq<ScreenshotModel>,
    pub speakers: Seq<SpeakerModel>,
    pub next_id: i64,
}

pub open spec fn empty_content() -> ContentModel {
    ContentModel {
        segments: Seq::empty(),
        screenshots: Seq::empty(),
        speakers: Seq::empty(),
        next_id: 1,
    }
}

pub open spec fn counter_exhausted() -> MeetingStoreErrorModel {
    MeetingStoreErrorModel::Sql { message: "identifier counter exhausted"@ }
}

pub open spec fn segment_of(meeting_id: Seq<char>) -> spec_fn(SegmentModel) -> bool {
    |r: SegmentModel| r.meeting_id == meeting_id
}

pub open spec fn screenshot_of(meeting_id: Seq<char>) -> spec_fn(ScreenshotModel) -> bool {
    |r: ScreenshotModel| r.meeting_id == meeting_id
}

pub open spec fn speaker_of(meeting_id: Seq<char>) -> spec_fn(SpeakerModel) -> bool {
    |r: SpeakerModel| r.meeting_id == meeting_id
}

pub open spec fn speaker_is(id: i64) -> spec_fn(SpeakerModel) -> bool {
    |r: SpeakerModel| r.id == id
}

pub open spec fn start_key() -> spec_fn(SegmentModel) -> u64 {
    |r: SegmentModel| r.start_ms
}

pub open spec fn timestamp_key() -> spec_fn(ScreenshotModel) -> u64 {
    |r: ScreenshotModel| r.timestamp_ms
}

pub open spec fn drafted_segment(d: SegmentDraft, id: i64) -> SegmentModel {
    SegmentModel {
        id,
        meeting_id: d.meeting_id@,
        start_ms: d.start_ms,
        end_ms: d.end_ms,
        text: d.text@,
        language: opt_view(d.language),
        confidence_bits: d.confidence_bits,
        speaker_id: d.speaker_id,
        source: d.source@,
    }
}

pub open spec fn drafted_screenshot(d: ScreenshotDraft, id: i64) -> ScreenshotModel {
    ScreenshotModel {
        id,
        meeting_id: d.meeting_id@,
        timestamp_ms: d.timestamp_ms,
        path: d.path@,
        feature_print: opt_bytes(d.feature_print),
        caption: opt_view(d.caption),
    }
}

pub open spec fn drafted_speaker(d: SpeakerDraft, id: i64) -> SpeakerModel {
    SpeakerModel {
        id,
        meeting_id: d.meeting_id@,
        label: d.label@,
        embedding: opt_bytes(d.embedding),
    }
}

pub open spec fn spec_create_segment(st: ContentModel, d: SegmentDraft) -> Result<
    (ContentModel, SegmentModel),
    MeetingStoreErrorModel,
> {
    if st.next_id == i64::MAX {
        Err(counter_exhausted())
    } else {
        let r = drafted_segment(d, st.next_id);
        Ok(
            (
                ContentModel {
                    segments: st.segments.push(r),
                    next_id: (st.next_id + 1) as i64,
                    ..st
                },
                r,
            ),
        )
    }
}

pub open spec fn spec_create_screenshot(st: ContentModel, d: ScreenshotDraft) -> Result<
    (ContentModel, ScreenshotModel),
    MeetingStoreErrorModel,
> {
    if st.next_id == i64::MAX {
        Err(counter_exhausted())
    } else {
        let r = drafted_screenshot(d, st.next_id);
        Ok(
            (
                ContentModel {
                    screenshots: st.screenshots.push(r),
                    next_id: (st.next_id + 1) as i64,
                    ..st
                },
                r,
            ),
        )
    }
}

pub open spec fn spec_create_speaker(st: ContentModel, d: SpeakerDraft) -> Result<
    (ContentModel, SpeakerModel),
    MeetingStoreErrorModel,
> {
    if st.next_id == i64::MAX {
        Err(counter_exhausted())
    } else {
        let r = drafted_speaker(d, st.next_id);
        Ok(
            (
                ContentModel {
                    speakers: st.speakers.push(r),
                    next_id: (st.next_id + 1) as i64,
                    ..st
                },
                r,
            ),
        )
    }
}

/// The meeting's segments, stably ordered by `start_ms`.
pub open spec fn spec_list_segments(st: ContentModel, meeting_id: Seq<char>) -> Seq<SegmentModel> {
    sort_by_key(st.segments.filter(segment_of(meeting_id)), start_key())
}

/// The meeting's screenshots, stably ordered by `timestamp_ms`.
pub open spec fn spec_list_screenshots(st: ContentModel, meeting_id: Seq<char>) -> Seq<
    ScreenshotModel,
> {
    sort_by_key(st.screenshots.filter(screenshot_of(meeting_id)), timestamp_key())
}

/// The meeting's speakers, in creation order.
pub open spec fn spec_list_speakers(st: ContentModel, meeting_id: Seq<char>) -> Seq<SpeakerModel> {
    st.speakers.filter(speaker_of(meeting_id))
}

pub open spec fn spec_get_speaker(st: ContentModel, id: i64) -> Result<
    SpeakerModel,
    MeetingStoreErrorModel,
> {
    match first_where(st.speakers, speaker_is(id)) {
        Some(i) => Ok(st.speakers[i]),
        None => Err(MeetingStoreErrorModel::SpeakerNotFound { id }),
    }
}

pub open spec fn spec_update_speaker_label(st: ContentModel, id: i64, label: Seq<char>) -> Result<
    (ContentModel, SpeakerModel),
    MeetingStoreErrorModel,
> {
    match first_where(st.speakers, speaker_is(id)) {
        Some(i) => {
            let r = SpeakerModel { label, ..st.speakers[i] };
            Ok((ContentModel { speakers: st.speakers.update(i, r), ..st }, r))
        },
        None => Err(MeetingStoreErrorModel::SpeakerNotFound { id }),
    }
}

/// A call that went from `old` to `new` and returned `got` did what `want`
/// says: on success the new state and the value, on failure the error with
/// the state untouched.
pub open spec fn store_agrees<V>(
    old: ContentModel,
    new: ContentModel,
    got: Result<V, MeetingStoreErrorModel>,
    want: Result<(ContentModel, V), MeetingStoreErrorModel>,
) -> bool {
    match want {
        Ok((s, v)) => new == s && got == Ok::<V, MeetingStoreErrorModel>(v),
        Err(e) => new == old && got == Err::<V, MeetingStoreErrorModel>(e),
    }
}

/// An in-process `MeetingStore`.
pub struct InMemoryMeetingStore {
    segments: Vec<SegmentRow>,
    screenshots: Vec<ScreenshotRow>,
    speakers: Vec<SpeakerRow>,
    next_id: i64,
}

impl View for InMemoryMeetingStore {
    type V = ContentModel;

    closed spec fn view(&self) -> ContentModel {
        ContentModel {
            segments: self.segments@.map_values(|r: SegmentRow| r@),
            screenshots: self.screenshots@.map_values(|r: ScreenshotRow| r@),
            speakers: self.speakers@.map_values(|r: SpeakerRow| r@),
            next_id: self.next_id,
        }
    }
}

fn insert_segment(out: &mut Vec<SegmentRow>, x: SegmentRow)
    ensures
        final(out)@.map_values(|r: SegmentRow| r@) == insert_by_key(
            old(out)@.map_values(|r: SegmentRow| r@),
            x@,
            start_key(),
        ),
{
    let ghost s = out@.map_values(|r: SegmentRow| r@);
    let mut p: usize = out.len();
    while p > 0 && out[p - 1].start_ms > x.start_ms
        invariant
            0 <= p <= out.len(),
            s == out@.map_values(|r: SegmentRow| r@),
            forall|k: int| p <= k < s.len() ==> start_key()(#[trigger] s[k]) > start_key()(x@),
        decreases p,
    {
        p = p - 1;
    }
    proof {
        lemma_insert_by_key_at(s, x@, start_key(), p as int);
    }
    out.insert(p, x);
    assert(out@.map_values(|r: SegmentRow| r@) =~= s.subrange(0, p as int).push(x@) + s.subrange(
        p as int,
        s.len() as int,
    ));
}

fn insert_screenshot(out: &mut Vec<ScreenshotRow>, x: ScreenshotRow)
    ensures
        final(out)@.map_values(|r: ScreenshotRow| r@) == insert_by_key(
            old(out)@.map_values(|r: ScreenshotRow| r@),
            x@,
            timestamp_key(),
        ),
{
    let ghost s = out@.map_values(|r: ScreenshotRow| r@);
    let mut p: usize = out.len();
    while p > 0 && out[p - 1].timestamp_ms > x.timestamp_ms
        invariant
            0 <= p <= out.len(),
            s == out@.map_values(|r: ScreenshotRow| r@),
            forall|k: int|
                p <= k < s.len() ==> timestamp_key()(#[trigger] s[k]) > timestamp_key()(x@),
        decreases p,
    {
        p = p - 1;
    }
    proof {
        lemma_insert_by_key_at(s, x@, timestamp_key(), p as int);
    }
    out.insert(p, x);
    assert(out@.map_values(|r: ScreenshotRow| r@) =~= s.subrange(0, p as int).push(x@)
        + s.subrange(p as int, s.len() as int));
}

impl InMemoryMeetingStore {
    /// An empty store.
    pub fn new() -> (r: Self)
        ensures
            r@ == empty_content(),
    {
        let r = InMemoryMeetingStore {
            segments: Vec::new(),
            screenshots: Vec::new(),
            speakers: Vec::new(),
            next_id: 1,
        };
        assert(r@.segments =~= Seq::<SegmentModel>::empty());
        assert(r@.screenshots =~= Seq::<ScreenshotModel>::empty());
        assert(r@.speakers =~= Seq::<SpeakerModel>::empty());
        r
    }

    fn speaker_pos(&self, id: i64) -> (r: Option<usize>)
        ensures
            found_at(r, self@.speakers, speaker_is(id)),
    {
        let ghost s = self@.speakers;
        let mut i: usize = 0;
        while i < self.speakers.len()
            invariant
                i <= self.speakers.len(),
                s == self@.speakers,
                forall|j: int| 0 <= j < i ==> !speaker_is(id)(#[trigger] s[j]),
            decreases self.speakers.len() - i,
        {
            if self.speakers[i].id == id {
                proof {
                    lemma_first_where(s, speaker_is(id), i as int);
                }
                return Some(i);
            }
            i = i + 1;
        }
        proof {
            lemma_first_where_none(s, speaker_is(id));
        }
        None
    }
}

impl MeetingStore for InMemoryMeetingStore {
    /// Exactly what the content model (`spec_create_segment` and the rest)
    /// says of each call.
    open spec fn step(&self, call: StoreCall, next: Self, answer: StoreAnswer) -> bool {
        match call {
            StoreCall::CreateSegment { draft } => answer matches StoreAnswer::Segment(a)
                && store_agrees(self@, next@, a, spec_create_segment(self@, draft)),
            StoreCall::ListSegments { meeting_id } => next == *self && answer == StoreAnswer::Segments(
                Ok(spec_list_segments(self@, meeting_id)),
            ),
            StoreCall::CreateScreenshot { draft } => answer matches StoreAnswer::Screenshot(a)
                && store_agrees(self@, next@, a, spec_create_screenshot(self@, draft)),
            StoreCall::ListScreenshots { meeting_id } => next == *self && answer == StoreAnswer::Screenshots(
                Ok(spec_list_screenshots(self@, meeting_id)),
            ),
            StoreCall::CreateSpeaker { draft } => answer matches StoreAnswer::Speaker(a)
                && store_agrees(self@, next@, a, spec_create_speaker(self@, draft)),
            StoreCall::ListSpeakers { meeting_id } => next == *self && answer == StoreAnswer::Speakers(
                Ok(spec_list_speakers(self@, meeting_id)),
            ),
            StoreCall::GetSpeaker { id } => next == *self && answer == StoreAnswer::Speaker(spec_get_speaker(self@, id)),
            StoreCall::RelabelSpeaker { id, label } => answer matches StoreAnswer::Speaker(a)
                && store_agrees(self@, next@, a, spec_update_speaker_label(self@, id, label)),
        }
    }

    fn create_segment(&mut self, draft: SegmentDraft) -> (r: Result<SegmentRow, MeetingStoreError>)
        ensures
            store_agrees(
                old(self)@,
                final(self)@,
                store_result(r),
                spec_create_segment(old(self)@, draft),
            ),
    {
        if self.next_id == i64::MAX {
            return Err(MeetingStoreError::sql("identifier counter exhausted"));
        }
        let ghost d = draft;
        let row = SegmentRow {
            id: self.next_id,
            meeting_id: draft.meeting_id,
            start_ms: draft.start_ms,
            end_ms: draft.end_ms,
            text: draft.text,
            language: draft.language,
            confidence_bits: draft.confidence_bits,
            speaker_id: draft.speaker_id,
            source: draft.source,
        };
        assert(row@ == drafted_segment(d, old(self)@.next_id));
        let out = row.duplicate();
        let ghost before = self@;
        self.segments.push(row);
        self.next_id = self.next_id + 1;
        assert(self@.segments =~= before.segments.push(out@));
        Ok(out)
    }

    fn list_segments(&self, meeting_id: &str) -> (r: Result<Vec<SegmentRow>, MeetingStoreError>)
        ensures
            r is Ok,
            r->Ok_0@.map_values(|x: SegmentRow| x@) == spec_list_segments(self@, meeting_id@),
    {
        let key = meeting_id.to_owned();
        let ghost s = self@.segments;
        let ghost p = segment_of(meeting_id@);
        let mut out: Vec<SegmentRow> = Vec::new();
        let mut i: usize = 0;
        while i < self.segments.len()
            invariant
                i <= self.segments.len(),
                s == self@.segments,
                key@ == meeting_id@,
                p == segment_of(meeting_id@),
                out@.map_values(|x: SegmentRow| x@) == sort_by_key(
                    s.take(i as int).filter(p),
                    start_key(),
                ),
            decreases self.segments.len() - i,
        {
            assert(s.take(i + 1) =~= s.take(i as int).push(s[i as int]));
            proof {
                s.take(i as int).lemma_filter_push(s[i as int], p);
            }
            if self.segments[i].meeting_id == key {
                let ghost f = s.take(i as int).filter(p);
                assert(f.push(s[i as int]).drop_last() =~= f);
                insert_segment(&mut out, self.segments[i].duplicate());
            }
            i = i + 1;
        }
        assert(s.take(s.len() as int) =~= s);
        Ok(out)
    }

    fn create_screenshot(&mut self, draft: ScreenshotDraft) -> (r: Result<
        ScreenshotRow,
        MeetingStoreError,
    >)
        ensures
            store_agrees(
                old(self)@,
                final(self)@,
                store_result(r),
                spec_create_screenshot(old(self)@, draft),
            ),
    {
        if self.next_id == i64::MAX {
            return Err(MeetingStoreError::sql("identifier counter exhausted"));
        }
        let ghost d = draft;
        let row = ScreenshotRow {
            id: self.next_id,
            meeting_id: draft.meeting_id,
            timestamp_ms: draft.timestamp_ms,
            path: draft.path,
            feature_print: draft.feature_print,
            caption: draft.caption,
        };
        assert(row@ == drafted_screenshot(d, old(self)@.next_id));
        let out = row.duplicate();
        let ghost before = self@;
        self.screenshots.push(row);
        self.next_id = self.next_id + 1;
        assert(self@.screenshots =~= before.screenshots.push(out@));
        Ok(out)
    }

    fn list_screenshots(&self, meeting_id: &str) -> (r: Result<
        Vec<ScreenshotRow>,
        MeetingStoreError,
    >)
        ensures
            r is Ok,
            r->Ok_0@.map_values(|x: ScreenshotRow| x@) == spec_list_screenshots(
                self@,
                meeting_id@,
            ),
    {
        let key = meeting_id.to_owned();
        let ghost s = self@.screenshots;
        let ghost p = screenshot_of(meeting_id@);
        let mut out: Vec<ScreenshotRow> = Vec::new();
        let mut i: usize = 0;
        while i < self.screenshots.len()
            invariant
                i <= self.screenshots.len(),
                s == self@.screenshots,
                key@ == meeting_id@,
                p == screenshot_of(meeting_id@),
                out@.map_values(|x: ScreenshotRow| x@) == sort_by_key(
                    s.take(i as int).filter(p),
                    timestamp_key(),
                ),
            decreases self.screenshots.len() - i,
        {
            assert(s.take(i + 1) =~= s.take(i as int).push(s[i as int]));
            proof {
                s.take(i as int).lemma_filter_push(s[i as int], p);
            }
            if self.screenshots[i].meeting_id == key {
                let ghost f = s.take(i as int).filter(p);
                assert(f.push(s[i as int]).drop_last() =~= f);
                insert_screenshot(&mut out, self.screenshots[i].duplicate());
            }
            i = i + 1;
        }
        assert(s.take(s.len() as int) =~= s);
        Ok(out)
    }

    fn create_speaker(&mut self, draft: SpeakerDraft) -> (r: Result<SpeakerRow, MeetingStoreError>)
        ensures
            store_agrees(
                old(self)@,
                final(self)@,
                store_result(r),
                spec_create_speaker(old(self)@, draft),
            ),
    {
        if self.next_id == i64::MAX {
            return Err(MeetingStoreError::sql("identifier counter exhausted"));
        }
        let ghost d = draft;
        let row = SpeakerRow {
            id: self.next_id,
            meeting_id: draft.meeting_id,
            label: draft.label,
            embedding: draft.embedding,
        };
        assert(row@ == drafted_speaker(d, old(self)@.next_id));
        let out = row.duplicate();
        let ghost before = self@;
        self.speakers.push(row);
        self.next_id = self.next_id + 1;
        assert(self@.speakers =~= before.speakers.push(out@));
        Ok(out)
    }

    fn list_speakers(&self, meeting_id: &str) -> (r: Result<Vec<SpeakerRow>, MeetingStoreError>)
        ensures
            r is Ok,
            r->Ok_0@.map_values(|x: SpeakerRow| x@) == spec_list_speakers(self@, meeting_id@),
    {
        let key = meeting_id.to_owned();
        let ghost s = self@.speakers;
        let ghost p = speaker_of(meeting_id@);
        let mut out: Vec<SpeakerRow> = Vec::new();
        let mut i: usize = 0;
        while i < self.speakers.len()
            invariant
                i <= self.speakers.len(),
                s == self@.speakers,
                key@ == meeting_id@,
                p == speaker_of(meeting_id@),
                out@.map_values(|x: SpeakerRow| x@) == s.take(i as int).filter(p),
            decreases self.speakers.len() - i,
        {
            let ghost before = out@.map_values(|x: SpeakerRow| x@);
            assert(s.take(i + 1) =~= s.take(i as int).push(s[i as int]));
            proof {
                s.take(i as int).lemma_filter_push(s[i as int], p);
            }
            if self.speakers[i].meeting_id == key {
                out.push(self.speakers[i].duplicate());
                assert(out@.map_values(|x: SpeakerRow| x@) =~= before.push(s[i as int]));
            } else {
                assert(out@.map_values(|x: SpeakerRow| x@) =~= before);
            }
            i = i + 1;
        }
        assert(s.take(s.len() as int) =~= s);
        Ok(out)
    }

    fn get_speaker(&self, id: i64) -> (r: Result<SpeakerRow, MeetingStoreError>)
        ensures
            store_result(r) == spec_get_speaker(self@, id),
    {
        match self.speaker_pos(id) {
            Some(i) => Ok(self.speakers[i].duplicate()),
            None => Err(MeetingStoreError::SpeakerNotFound { id }),
        }
    }

    fn update_speaker_label(&mut self, id: i64, label: &str) -> (r: Result<
        SpeakerRow,
        MeetingStoreError,
    >)
        ensures
            store_agrees(
                old(self)@,
                final(self)@,
                store_result(r),
                spec_update_speaker_label(old(self)@, id, label@),
            ),
    {
        match self.speaker_pos(id) {
            None => Err(MeetingStoreError::SpeakerNotFound { id }),
            Some(i) => {
                let ghost before = self@;
                let mut row = self.speakers.remove(i);
                row.label = label.to_owned();
                let out = row.duplicate();
                self.speakers.insert(i, row);
                assert(self@.speakers =~= before.speakers.update(i as int, out@));
                Ok(out)
            },
        }
    }
}

} // verus!
