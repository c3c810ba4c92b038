//! The in-process meeting store passes the meeting-store conformance
//! suite: from a fresh store, every run of the suite is a passing one.

use vstd::prelude::*;

use crate::conformance::in_memory_meeting_store::{
    spec_create_segment, spec_create_screenshot, spec_create_speaker, spec_get_speaker, spec_update_speaker_label,
    speaker_is, empty_content, ContentModel, InMemoryMeetingStore,
};
use crate::conformance::meeting_store::{
    fetch_calls, fetch_pass, relabel_calls, relabel_pass, screenshots_calls, screenshots_pass, segments_calls,
    segments_pass, speakers_calls, speakers_pass, store_added, store_check_calls, store_extends,
    run_suite, store_ran, store_suite_outcome, unknown_speaker_calls, unknown_speaker_pass, StoreStep, StoreTrace,
};
use crate::meeting_store::{MeetingStore, MeetingStoreErrorModel, ScreenshotModel, SegmentModel, SpeakerModel};
use crate::search::{any_where, is_first, lemma_first_where, lemma_first_where_none, lemma_first_where_push};
use crate::sorting::{insert_by_key, sort_by_key};

verus! {

/// The adapter after the first `j` steps of `t` run from `start`.
pub open spec fn state_at<M>(start: M, t: Seq<StoreStep<M>>, j: int) -> M {
    if j == 0 {
        start
    } else {
        t[j - 1].2
    }
}

/// What a run says step by step: each step is one the adapter may take,
/// the first from `start`, each from where the one before ended, the last
/// ending at `end`.
proof fn lemma_store_ran_steps<M: MeetingStore>(start: M, t: Seq<StoreStep<M>>, end: M)
    requires
        store_ran(start, t, end),
    ensures
        t.len() == 0 ==> start == end,
        t.len() > 0 ==> t[0].0 == start && t[t.len() - 1].2 == end,
        forall|i: int| 0 <= i < t.len() ==> (#[trigger] t[i]).0.step(t[i].1, t[i].2, t[i].3),
        forall|i: int| 0 < i < t.len() ==> (#[trigger] t[i]).0 == t[i - 1].2,
    decreases t.len(),
{
    if t.len() > 0 {
        let d = t.drop_last();
        lemma_store_ran_steps(start, d, t.last().0);
        assert forall|i: int| 0 <= i < t.len() implies (#[trigger] t[i]).0.step(t[i].1, t[i].2, t[i].3) by {
            if i < d.len() {
                assert(t[i] == d[i]);
            }
        }
        assert forall|i: int| 0 < i < t.len() implies (#[trigger] t[i]).0 == t[i - 1].2 by {
            if i < d.len() {
                assert(t[i] == d[i] && t[i - 1] == d[i - 1]);
            }
        }
    }
}

/// A run splits at any step into the run up to it and the run after it.
proof fn lemma_store_ran_split<M: MeetingStore>(start: M, t: Seq<StoreStep<M>>, end: M, j: int)
    requires
        store_ran(start, t, end),
        0 <= j <= t.len(),
    ensures
        store_ran(start, t.take(j), state_at(start, t, j)),
        store_ran(state_at(start, t, j), t.skip(j), end),
    decreases t.len(),
{
    if j == t.len() {
        assert(t.take(j) =~= t);
        assert(t.skip(j) =~= Seq::<StoreStep<M>>::empty());
        lemma_store_ran_steps(start, t, end);
    } else {
        let d = t.drop_last();
        lemma_store_ran_split(start, d, t.last().0, j);
        assert(t.take(j) =~= d.take(j));
        assert(state_at(start, t, j) == state_at(start, d, j));
        assert(t.skip(j).drop_last() =~= d.skip(j));
        assert(t.skip(j).last() == t.last());
    }
}

/// In a chain of traces each continuing the one before, every trace is a
/// prefix of the last one, from the same start.
proof fn lemma_chain_prefix<M>(ts: Seq<StoreTrace<M>>, k: int)
    requires
        ts.len() >= 1,
        forall|i: int| 1 <= i < ts.len() ==> store_extends(ts[i - 1], #[trigger] ts[i]),
        0 <= k < ts.len(),
    ensures
        ts[k].0 == ts[ts.len() - 1].0,
        ts[k].1.len() <= ts[ts.len() - 1].1.len(),
        ts[k].1 == ts[ts.len() - 1].1.take(ts[k].1.len() as int),
    decreases ts.len() - k,
{
    if k < ts.len() - 1 {
        let next = ts[k + 1];
        assert(store_extends(ts[k + 1 - 1], next));
        lemma_chain_prefix(ts, k + 1);
        assert(ts[k].1 =~= ts[ts.len() - 1].1.take(ts[k].1.len() as int));
    } else {
        assert(ts[k].1 =~= ts[k].1.take(ts[k].1.len() as int));
    }
}

/// The steps of check `k - 1` run from where the steps before it ended to
/// where they end.
proof fn lemma_check_run<M: MeetingStore>(ts: Seq<StoreTrace<M>>, end: M, k: int)
    requires
        ts.len() >= 2,
        forall|i: int| 1 <= i < ts.len() ==> store_extends(ts[i - 1], #[trigger] ts[i]),
        store_ran(ts[ts.len() - 1].0, ts[ts.len() - 1].1, end),
        1 <= k < ts.len(),
    ensures
        store_ran(
            state_at(ts[0].0, ts[ts.len() - 1].1, ts[k - 1].1.len() as int),
            store_added(ts[k - 1], ts[k]),
            state_at(ts[0].0, ts[ts.len() - 1].1, ts[k].1.len() as int),
        ),
{
    let t = ts[ts.len() - 1].1;
    let start = ts[ts.len() - 1].0;
    lemma_chain_prefix(ts, k - 1);
    lemma_chain_prefix(ts, k);
    lemma_chain_prefix(ts, 0);
    let a = ts[k - 1].1.len() as int;
    let b = ts[k].1.len() as int;
    let next = ts[k];
    assert(store_extends(ts[k - 1], next));
    lemma_store_ran_split(start, t, end, b);
    let tb = t.take(b);
    lemma_store_ran_split(start, tb, state_at(start, t, b), a);
    assert(state_at(start, tb, a) == state_at(start, t, a));
    assert(tb.skip(a) =~= store_added(ts[k - 1], ts[k]));
}

/// The store's speakers all have ids below its counter, which is small.
pub open spec fn ids_below(st: ContentModel) -> bool {
    &&& 1 <= st.next_id <= 100
    &&& forall|i: int| 0 <= i < st.speakers.len() ==> 0 < (#[trigger] st.speakers[i]).id < st.next_id
}

proof fn lemma_segments_check(st: InMemoryMeetingStore, s: Seq<StoreStep<InMemoryMeetingStore>>, end: InMemoryMeetingStore)
    requires
        st@.segments.len() == 0,
        st@.next_id == 1,
        store_ran(st, s, end),
        segments_calls(s),
    ensures
        segments_pass(s),
        end@.screenshots == st@.screenshots,
        end@.speakers == st@.speakers,
        end@.next_id == 3,
{
    lemma_store_ran_steps(st, s, end);
    let d1 = s[0].1->CreateSegment_draft;
    let (st1, a1) = spec_create_segment(st@, d1)->Ok_0;
    assert(s[0].2@ == st1);
    assert(s.len() >= 2);
    let d2 = s[1].1->CreateSegment_draft;
    let (st2, a2) = spec_create_segment(st1, d2)->Ok_0;
    assert(s[1].2@ == st2);
    assert(s.len() == 3);
    assert(st2.segments =~= seq![a1, a2]);
    let p = crate::conformance::in_memory_meeting_store::segment_of("test_meeting_001"@);
    assert(st2.segments.filter(p) =~= seq![a1, a2]) by {
        Seq::<SegmentModel>::empty().lemma_filter_push(a1, p);
        seq![a1].lemma_filter_push(a2, p);
        assert(Seq::<SegmentModel>::empty().push(a1) =~= seq![a1]);
        assert(seq![a1].push(a2) =~= seq![a1, a2]);
        assert(Seq::<SegmentModel>::empty().filter(p) =~= Seq::empty());
    }
    let key = crate::conformance::in_memory_meeting_store::start_key();
    assert(sort_by_key(seq![a1, a2], key) =~= seq![a1, a2]) by {
        assert(seq![a1, a2].drop_last() =~= seq![a1]);
        assert(seq![a1].drop_last() =~= Seq::<SegmentModel>::empty());
        assert(sort_by_key(seq![a1], key) =~= seq![a1]) by {
            assert(sort_by_key(Seq::<SegmentModel>::empty(), key) =~= Seq::empty());
            assert(seq![a1].last() == a1);
            assert(insert_by_key(Seq::<SegmentModel>::empty(), a1, key) =~= seq![a1]);
        }
        assert(a1.start_ms == 0 && a2.start_ms == 2000);
        assert(seq![a1].last() == a1);
        assert(seq![a1].push(a2) =~= seq![a1, a2]);
        assert(insert_by_key(seq![a1], a2, key) == seq![a1].push(a2));
    }
}

proof fn lemma_screenshots_check(st: InMemoryMeetingStore, s: Seq<StoreStep<InMemoryMeetingStore>>, end: InMemoryMeetingStore)
    requires
        st@.screenshots.len() == 0,
        st@.next_id == 3,
        store_ran(st, s, end),
        screenshots_calls(s),
    ensures
        screenshots_pass(s),
        end@.speakers == st@.speakers,
        end@.next_id == 5,
{
    lemma_store_ran_steps(st, s, end);
    let d1 = s[0].1->CreateScreenshot_draft;
    let (st1, a1) = spec_create_screenshot(st@, d1)->Ok_0;
    assert(s[0].2@ == st1);
    assert(s.len() >= 2);
    let d2 = s[1].1->CreateScreenshot_draft;
    let (st2, a2) = spec_create_screenshot(st1, d2)->Ok_0;
    assert(s[1].2@ == st2);
    assert(s.len() == 3);
    assert(st2.screenshots =~= seq![a1, a2]);
    let p = crate::conformance::in_memory_meeting_store::screenshot_of("test_meeting_screenshots"@);
    assert(st2.screenshots.filter(p) =~= seq![a1, a2]) by {
        Seq::<ScreenshotModel>::empty().lemma_filter_push(a1, p);
        seq![a1].lemma_filter_push(a2, p);
        assert(Seq::<ScreenshotModel>::empty().push(a1) =~= seq![a1]);
        assert(seq![a1].push(a2) =~= seq![a1, a2]);
        assert(Seq::<ScreenshotModel>::empty().filter(p) =~= Seq::empty());
    }
    let key = crate::conformance::in_memory_meeting_store::timestamp_key();
    assert(sort_by_key(seq![a1, a2], key) =~= seq![a1, a2]) by {
        assert(seq![a1, a2].drop_last() =~= seq![a1]);
        assert(seq![a1].drop_last() =~= Seq::<ScreenshotModel>::empty());
        assert(sort_by_key(seq![a1], key) =~= seq![a1]) by {
            assert(sort_by_key(Seq::<ScreenshotModel>::empty(), key) =~= Seq::empty());
            assert(seq![a1].last() == a1);
            assert(insert_by_key(Seq::<ScreenshotModel>::empty(), a1, key) =~= seq![a1]);
        }
        assert(a1.timestamp_ms == 5000 && a2.timestamp_ms == 10_000);
        assert(seq![a1].last() == a1);
        assert(seq![a1].push(a2) =~= seq![a1, a2]);
        assert(insert_by_key(seq![a1], a2, key) == seq![a1].push(a2));
    }
}

proof fn lemma_speakers_check(st: InMemoryMeetingStore, s: Seq<StoreStep<InMemoryMeetingStore>>, end: InMemoryMeetingStore)
    requires
        st@.speakers.len() == 0,
        st@.next_id == 5,
        store_ran(st, s, end),
        speakers_calls(s),
    ensures
        speakers_pass(s),
        ids_below(end@),
        end@.next_id == 7,
{
    lemma_store_ran_steps(st, s, end);
    let d1 = s[0].1->CreateSpeaker_draft;
    let (st1, a1) = spec_create_speaker(st@, d1)->Ok_0;
    assert(s[0].2@ == st1);
    assert(s.len() >= 2);
    let d2 = s[1].1->CreateSpeaker_draft;
    let (st2, a2) = spec_create_speaker(st1, d2)->Ok_0;
    assert(s[1].2@ == st2);
    assert(s.len() == 3);
    assert(st2.speakers =~= seq![a1, a2]);
    let p = crate::conformance::in_memory_meeting_store::speaker_of("test_meeting_speakers"@);
    assert(st2.speakers.filter(p) =~= seq![a1, a2]) by {
        Seq::<SpeakerModel>::empty().lemma_filter_push(a1, p);
        seq![a1].lemma_filter_push(a2, p);
        assert(Seq::<SpeakerModel>::empty().push(a1) =~= seq![a1]);
        assert(seq![a1].push(a2) =~= seq![a1, a2]);
        assert(Seq::<SpeakerModel>::empty().filter(p) =~= Seq::empty());
    }
    let ls = s[2].3->Speakers_0->Ok_0;
    assert(ls[0].id == a1.id && ls[1].id == a2.id);
}

proof fn lemma_fetch_check(st: InMemoryMeetingStore, s: Seq<StoreStep<InMemoryMeetingStore>>, end: InMemoryMeetingStore)
    requires
        ids_below(st@),
        st@.next_id <= 90,
        store_ran(st, s, end),
        fetch_calls(s),
    ensures
        fetch_pass(s),
        ids_below(end@),
        end@.next_id == st@.next_id + 1,
{
    lemma_store_ran_steps(st, s, end);
    let d = s[0].1->CreateSpeaker_draft;
    let (st1, a1) = spec_create_speaker(st@, d)->Ok_0;
    assert(s[0].2@ == st1);
    assert(s.len() == 2);
    assert(!any_where(st@.speakers, speaker_is(a1.id))) by {
        if any_where(st@.speakers, speaker_is(a1.id)) {
            let i = choose|i: int| 0 <= i < st@.speakers.len() && speaker_is(a1.id)(#[trigger] st@.speakers[i]);
        }
    }
    lemma_first_where_push(st@.speakers, a1, speaker_is(a1.id));
    assert(st1.speakers[st@.speakers.len() as int] == a1);
    assert(spec_get_speaker(st1, a1.id) == Ok::<SpeakerModel, MeetingStoreErrorModel>(a1));
    assert forall|i: int| 0 <= i < st1.speakers.len() implies 0 < (#[trigger] st1.speakers[i]).id < st1.next_id by {
        if i < st@.speakers.len() {
            assert(st1.speakers[i] == st@.speakers[i]);
        }
    }
}

proof fn lemma_relabel_check(st: InMemoryMeetingStore, s: Seq<StoreStep<InMemoryMeetingStore>>, end: InMemoryMeetingStore)
    requires
        ids_below(st@),
        st@.next_id <= 90,
        store_ran(st, s, end),
        relabel_calls(s),
    ensures
        relabel_pass(s),
        ids_below(end@),
        end@.next_id == st@.next_id + 1,
{
    lemma_store_ran_steps(st, s, end);
    let d = s[0].1->CreateSpeaker_draft;
    let (st1, a1) = spec_create_speaker(st@, d)->Ok_0;
    assert(s[0].2@ == st1);
    assert(s.len() >= 2);
    let n = st@.speakers.len() as int;
    assert(!any_where(st@.speakers, speaker_is(a1.id))) by {
        if any_where(st@.speakers, speaker_is(a1.id)) {
            let i = choose|i: int| 0 <= i < st@.speakers.len() && speaker_is(a1.id)(#[trigger] st@.speakers[i]);
        }
    }
    lemma_first_where_push(st@.speakers, a1, speaker_is(a1.id));
    assert(st1.speakers[n] == a1);
    let (st2, a2) = spec_update_speaker_label(st1, a1.id, "New Label"@)->Ok_0;
    assert(s[1].2@ == st2);
    assert(a2.id == a1.id && a2.label == "New Label"@);
    assert(s.len() == 3);
    assert(st2.speakers == st1.speakers.update(n, a2));
    assert(is_first(st2.speakers, speaker_is(a1.id), n)) by {
        assert forall|j: int| 0 <= j < n implies !speaker_is(a1.id)(#[trigger] st2.speakers[j]) by {
            assert(st2.speakers[j] == st@.speakers[j]);
        }
    }
    lemma_first_where(st2.speakers, speaker_is(a1.id), n);
    assert forall|i: int| 0 <= i < st2.speakers.len() implies 0 < (#[trigger] st2.speakers[i]).id < st2.next_id by {
        if i < n {
            assert(st2.speakers[i] == st@.speakers[i]);
        }
    }
}

proof fn lemma_unknown_speaker_check(st: InMemoryMeetingStore, s: Seq<StoreStep<InMemoryMeetingStore>>, end: InMemoryMeetingStore)
    requires
        ids_below(st@),
        store_ran(st, s, end),
        unknown_speaker_calls(s),
    ensures
        unknown_speaker_pass(s),
{
    lemma_store_ran_steps(st, s, end);
    assert(!any_where(st@.speakers, speaker_is(999999))) by {
        if any_where(st@.speakers, speaker_is(999999)) {
            let i = choose|i: int| 0 <= i < st@.speakers.len() && speaker_is(999999)(#[trigger] st@.speakers[i]);
        }
    }
    lemma_first_where_none(st@.speakers, speaker_is(999999));
}

/// From a fresh in-process store, every run of the meeting-store
/// conformance suite passes: whatever trace `run_suite` reports for it
/// (`store_suite_outcome`), its result is `Ok`.
pub proof fn law_fresh_store_passes_suite(
    ts: Seq<StoreTrace<InMemoryMeetingStore>>,
    passed: bool,
    end: InMemoryMeetingStore,
)
    requires
        store_suite_outcome(ts, passed),
        ts[0].1.len() == 0,
        ts[0].0@ == empty_content(),
        store_ran(ts[ts.len() - 1].0, ts[ts.len() - 1].1, end),
    ensures
        passed,
{
    let n = ts.len() - 1;
    let t = ts[n].1;
    lemma_chain_prefix(ts, 0);
    let start = ts[0].0;
    let x1 = ts[1];
    assert(store_check_calls(0, store_added(ts[0], x1)));
    lemma_check_run(ts, end, 1);
    let st1 = state_at(start, t, ts[1].1.len() as int);
    lemma_segments_check(start, store_added(ts[0], ts[1]), st1);
    if n == 1 {
        return;
    }
    let x2 = ts[2];
    assert(store_check_calls(1, store_added(ts[1], x2)));
    lemma_check_run(ts, end, 2);
    let st2 = state_at(start, t, ts[2].1.len() as int);
    lemma_screenshots_check(st1, store_added(ts[1], ts[2]), st2);
    if n == 2 {
        return;
    }
    let x3 = ts[3];
    assert(store_check_calls(2, store_added(ts[2], x3)));
    lemma_check_run(ts, end, 3);
    let st3 = state_at(start, t, ts[3].1.len() as int);
    lemma_speakers_check(st2, store_added(ts[2], ts[3]), st3);
    if n == 3 {
        return;
    }
    let x4 = ts[4];
    assert(store_check_calls(3, store_added(ts[3], x4)));
    lemma_check_run(ts, end, 4);
    let st4 = state_at(start, t, ts[4].1.len() as int);
    lemma_fetch_check(st3, store_added(ts[3], ts[4]), st4);
    if n == 4 {
        return;
    }
    let x5 = ts[5];
    assert(store_check_calls(4, store_added(ts[4], x5)));
    lemma_check_run(ts, end, 5);
    let st5 = state_at(start, t, ts[5].1.len() as int);
    lemma_relabel_check(st4, store_added(ts[4], ts[5]), st5);
    if n == 5 {
        return;
    }
    let x6 = ts[6];
    assert(store_check_calls(5, store_added(ts[5], x6)));
    lemma_check_run(ts, end, 6);
    let st6 = state_at(start, t, ts[6].1.len() as int);
    lemma_unknown_speaker_check(st5, store_added(ts[5], ts[6]), st6);
}

/// Runs the meeting-store conformance suite on a fresh in-process store,
/// which passes it.
pub fn fresh_store_passes_suite() -> (r: Result<(), String>)
    ensures
        r is Ok,
{
    let mut store = InMemoryMeetingStore::new();
    let ghost fresh = store;
    let r = run_suite(&mut store);
    proof {
        let ts = choose|ts: Seq<StoreTrace<InMemoryMeetingStore>>|
            #[trigger] store_suite_outcome(ts, r is Ok) && ts[0] == (fresh, Seq::<StoreStep<InMemoryMeetingStore>>::empty())
                && store_ran(ts.last().0, ts.last().1, store);
        law_fresh_store_passes_suite(ts, r is Ok, store);
    }
    r
}

} // verus!
