//! What the in-process meeting store promises across operations: listings
//! are ordered and hold exactly the meeting's rows, created rows show up in
//! them, ids come from a rising counter, and a relabelled speaker reads
//! back relabelled.

use vstd::prelude::*;

use crate::conformance::in_memory_meeting_store::{
    screenshot_of, segment_of, spec_create_segment, spec_create_speaker, spec_get_speaker,
    spec_list_screenshots, spec_list_segments, spec_list_speakers, spec_update_speaker_label,
    speaker_is, speaker_of, start_key, timestamp_key, ContentModel,
};
use crate::meeting_store::{SegmentDraft, SpeakerDraft, SpeakerModel, MeetingStoreErrorModel};
use crate::search::{is_first, lemma_first_where, lemma_first_where_some};
use crate::sorting::{lemma_sort_by_key, sorted_by_key};

verus! {

/// The segment listing is ordered by `start_ms` and holds exactly the
/// meeting's segments.
pub proof fn law_segments_listed_in_order(st: ContentModel, meeting_id: Seq<char>)
    ensures
        sorted_by_key(spec_list_segments(st, meeting_id), start_key()),
        spec_list_segments(st, meeting_id).to_multiset() == st.segments.filter(segment_of(meeting_id)).to_multiset(),
{
    lemma_sort_by_key(st.segments.filter(segment_of(meeting_id)), start_key());
}

/// The screenshot listing is ordered by `timestamp_ms` and holds exactly
/// the meeting's screenshots.
pub proof fn law_screenshots_listed_in_order(st: ContentModel, meeting_id: Seq<char>)
    ensures
        sorted_by_key(spec_list_screenshots(st, meeting_id), timestamp_key()),
        spec_list_screenshots(st, meeting_id).to_multiset() == st.screenshots.filter(
            screenshot_of(meeting_id),
        ).to_multiset(),
{
    lemma_sort_by_key(st.screenshots.filter(screenshot_of(meeting_id)), timestamp_key());
}

/// A created segment joins its meeting's listing, which otherwise stays as
/// it was; its id is the counter, which then moves past it.
pub proof fn law_created_segment_listed(st: ContentModel, d: SegmentDraft)
    requires
        spec_create_segment(st, d) is Ok,
    ensures
        ({
            let (st2, r) = spec_create_segment(st, d)->Ok_0;
            &&& r.id == st.next_id
            &&& st2.next_id > r.id
            &&& spec_list_segments(st2, r.meeting_id).to_multiset() == spec_list_segments(
                st,
                r.meeting_id,
            ).to_multiset().insert(r)
        }),
{
    let (st2, r) = spec_create_segment(st, d)->Ok_0;
    st.segments.lemma_filter_push(r, segment_of(r.meeting_id));
    lemma_sort_by_key(st2.segments.filter(segment_of(r.meeting_id)), start_key());
    lemma_sort_by_key(st.segments.filter(segment_of(r.meeting_id)), start_key());
    st.segments.filter(segment_of(r.meeting_id)).to_multiset_ensures();
}

/// A created speaker is listed last among its meeting's speakers.
pub proof fn law_created_speaker_listed(st: ContentModel, d: SpeakerDraft)
    requires
        spec_create_speaker(st, d) is Ok,
    ensures
        ({
            let (st2, r) = spec_create_speaker(st, d)->Ok_0;
            &&& r.id == st.next_id
            &&& st2.next_id > r.id
            &&& spec_list_speakers(st2, r.meeting_id) == spec_list_speakers(st, r.meeting_id).push(r)
        }),
{
    let (st2, r) = spec_create_speaker(st, d)->Ok_0;
    st.speakers.lemma_filter_push(r, speaker_of(r.meeting_id));
}

/// A relabelled speaker reads back with the new label.
pub proof fn law_relabel_then_get(st: ContentModel, id: i64, label: Seq<char>)
    requires
        spec_update_speaker_label(st, id, label) is Ok,
    ensures
        spec_get_speaker(spec_update_speaker_label(st, id, label)->Ok_0.0, id) == Ok::<
            SpeakerModel,
            MeetingStoreErrorModel,
        >(spec_update_speaker_label(st, id, label)->Ok_0.1),
        spec_update_speaker_label(st, id, label)->Ok_0.1.label == label,
        spec_update_speaker_label(st, id, label)->Ok_0.1.id == id,
{
    let i = crate::search::first_where(st.speakers, speaker_is(id))->0;
    let (st2, r) = spec_update_speaker_label(st, id, label)->Ok_0;
    crate::search::lemma_first_where_some(st.speakers, speaker_is(id));
    assert(is_first(st2.speakers, speaker_is(id), i)) by {
        assert forall|j: int| 0 <= j < i implies !speaker_is(id)(#[trigger] st2.speakers[j]) by {
            assert(st2.speakers[j] == st.speakers[j]);
        }
    }
    lemma_first_where(st2.speakers, speaker_is(id), i);
}

} // verus!
