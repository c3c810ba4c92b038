//! Assigning diarized speakers to transcript segments, and combining the
//! microphone and system tracks into one ordered, diarized transcript.

use vstd::prelude::*;

use crate::diar::SpeakerTurn;
use crate::segment::{Segment, with_speaker};

verus! {

pub open spec fn max_u64(a: u64, b: u64) -> u64 {
    if a >= b { a } else { b }
}

pub open spec fn min_u64(a: u64, b: u64) -> u64 {
    if a <= b { a } else { b }
}

/// Whether turn `t` overlaps `[start, end)` for a positive duration.
pub open spec fn overlaps(start: u64, end: u64, t: SpeakerTurn) -> bool {
    min_u64(end, t.end_ms) > max_u64(start, t.start_ms)
}

/// Duration (ms) for which turn `t` overlaps `[start, end)`; zero when none.
pub open spec fn overlap_ms(start: u64, end: u64, t: SpeakerTurn) -> nat {
    if overlaps(start, end, t) {
        (min_u64(end, t.end_ms) - max_u64(start, t.start_ms)) as nat
    } else {
        0
    }
}

/// Scanning `turns` in order, the best `(speaker, overlap)` so far: a later
/// turn replaces the best only with a strictly longer overlap.
pub open spec fn best_turn(start: u64, end: u64, turns: Seq<SpeakerTurn>) -> Option<(u32, nat)>
    decreases turns.len(),
{
    if turns.len() == 0 {
        None
    } else {
        let b = best_turn(start, end, turns.drop_last());
        let t = turns.last();
        if !overlaps(start, end, t) {
            b
        } else {
            let ov = overlap_ms(start, end, t);
            match b {
                Some((_, bo)) => if ov <= bo { b } else { Some((t.speaker_id, ov)) },
                None => Some((t.speaker_id, ov)),
            }
        }
    }
}

/// The speaker whose turn overlaps `[start, end)` the most (the earliest such
/// turn on a tie), or `None` when no turn overlaps.
pub open spec fn dominant_speaker_of(start: u64, end: u64, turns: Seq<SpeakerTurn>) -> Option<u32> {
    match best_turn(start, end, turns) {
        Some((id, _)) => Some(id),
        None => None,
    }
}

/// What `best_turn` picks: `None` exactly when nothing overlaps; otherwise a
/// turn index whose overlap is maximal and earliest among the maximal ones.
pub proof fn lemma_best_turn(start: u64, end: u64, turns: Seq<SpeakerTurn>)
    ensures
        best_turn(start, end, turns) is None <==> (forall|k: int|
            0 <= k < turns.len() ==> !overlaps(start, end, #[trigger] turns[k])),
        best_turn(start, end, turns) matches Some((id, ov)) ==> exists|k: int|
            {
                &&& 0 <= k < turns.len()
                &&& overlaps(start, end, turns[k])
                &&& #[trigger] turns[k].speaker_id == id
                &&& overlap_ms(start, end, turns[k]) == ov
                &&& forall|j: int|
                    0 <= j < turns.len() ==> overlap_ms(start, end, #[trigger] turns[j]) <= ov
                &&& forall|j: int|
                    0 <= j < k ==> overlap_ms(start, end, #[trigger] turns[j]) < ov
            },
    decreases turns.len(),
{
    if turns.len() > 0 {
        let prefix = turns.drop_last();
        lemma_best_turn(start, end, prefix);
        let t = turns.last();
        let n = turns.len() - 1;
        assert(turns[n] == t);
        assert forall|k: int| 0 <= k < prefix.len() implies prefix[k] == turns[k] by {}
        match best_turn(start, end, prefix) {
            Some((pid, pov)) => {
                let k = choose|k: int|
                    {
                        &&& 0 <= k < prefix.len()
                        &&& overlaps(start, end, prefix[k])
                        &&& #[trigger] prefix[k].speaker_id == pid
                        &&& overlap_ms(start, end, prefix[k]) == pov
                        &&& forall|j: int|
                            0 <= j < prefix.len() ==> overlap_ms(start, end, #[trigger] prefix[j])
                                <= pov
                        &&& forall|j: int|
                            0 <= j < k ==> overlap_ms(start, end, #[trigger] prefix[j]) < pov
                    };
                if overlaps(start, end, t) && overlap_ms(start, end, t) > pov {
                    let ov = overlap_ms(start, end, t);
                    assert(turns[n].speaker_id == t.speaker_id);
                    assert forall|j: int| 0 <= j < turns.len() implies overlap_ms(
                        start,
                        end,
                        #[trigger] turns[j],
                    ) <= ov by {
                        if j < n {
                            assert(prefix[j] == turns[j]);
                        }
                    }
                    assert forall|j: int| 0 <= j < n implies overlap_ms(
                        start,
                        end,
                        #[trigger] turns[j],
                    ) < ov by {
                        assert(prefix[j] == turns[j]);
                    }
                } else {
                    assert(turns[k] == prefix[k]);
                    assert forall|j: int| 0 <= j < turns.len() implies overlap_ms(
                        start,
                        end,
                        #[trigger] turns[j],
                    ) <= pov by {
                        if j < n {
                            assert(prefix[j] == turns[j]);
                        }
                    }
                    assert forall|j: int| 0 <= j < k implies overlap_ms(
                        start,
                        end,
                        #[trigger] turns[j],
                    ) < pov by {
                        assert(prefix[j] == turns[j]);
                    }
                }
            },
            None => {
                if overlaps(start, end, t) {
                    let ov = overlap_ms(start, end, t);
                    assert forall|j: int| 0 <= j < turns.len() implies overlap_ms(
                        start,
                        end,
                        #[trigger] turns[j],
                    ) <= ov by {
                        if j < n {
                            assert(prefix[j] == turns[j]);
                            assert(!overlaps(start, end, prefix[j]));
                        }
                    }
                    assert forall|j: int| 0 <= j < n implies overlap_ms(
                        start,
                        end,
                        #[trigger] turns[j],
                    ) < ov by {
                        assert(prefix[j] == turns[j]);
                        assert(!overlaps(start, end, prefix[j]));
                    }
                } else {
                    assert forall|k: int| 0 <= k < turns.len() implies !overlaps(
                        start,
                        end,
                        #[trigger] turns[k],
                    ) by {
                        if k < n {
                            assert(prefix[k] == turns[k]);
                        }
                    }
                }
            },
        }
        if best_turn(start, end, turns) is None {
            assert forall|k: int| 0 <= k < turns.len() implies !overlaps(
                start,
                end,
                #[trigger] turns[k],
            ) by {
                if k < n {
                    assert(prefix[k] == turns[k]);
                }
            }
        }
    }
}

/// The dominant speaker of `[start_ms, end_ms)` among `turns`.
fn dominant_speaker(start_ms: u64, end_ms: u64, turns: &[SpeakerTurn]) -> (r: Option<u32>)
    ensures
        r == dominant_speaker_of(start_ms, end_ms, turns@),
{
    let mut best: Option<(u32, u64)> = None;
    let mut i: usize = 0;
    while i < turns.len()
        invariant
            0 <= i <= turns.len(),
            match best_turn(start_ms, end_ms, turns@.subrange(0, i as int)) {
                Some((id, ov)) => best matches Some((bid, bov)) && bid == id && bov as nat == ov,
                None => best is None,
            },
        decreases turns.len() - i,
    {
        let t = turns[i];
        let lo = if start_ms >= t.start_ms { start_ms } else { t.start_ms };
        let hi = if end_ms <= t.end_ms { end_ms } else { t.end_ms };
        assert(turns@.subrange(0, i + 1 as int).drop_last() == turns@.subrange(0, i as int));
        assert(turns@.subrange(0, i + 1 as int).last() == t);
        if hi > lo {
            let overlap = hi - lo;
            match best {
                Some((_, b)) => {
                    if overlap > b {
                        best = Some((t.speaker_id, overlap));
                    }
                },
                None => {
                    best = Some((t.speaker_id, overlap));
                },
            }
        }
        i = i + 1;
    }
    assert(turns@.subrange(0, turns.len() as int) == turns@);
    match best {
        Some((id, _)) => Some(id),
        None => None,
    }
}

/// Each segment of `segments`, in order, with its speaker set to the
/// dominant speaker of its time range.
pub open spec fn assign_speakers(segments: Seq<Segment>, turns: Seq<SpeakerTurn>) -> Seq<Segment> {
    segments.map_values(
        |s: Segment| with_speaker(s, dominant_speaker_of(s.start_ms, s.end_ms, turns)),
    )
}

/// Merge speaker turns into segments by overlap. Each segment gets the
/// `speaker_id` of the turn that overlaps it the most; segments with no
/// overlapping turn get `None`.
pub fn merge_speaker_turns(segments: Vec<Segment>, turns: &[SpeakerTurn]) -> (r: Vec<Segment>)
    ensures
        r@ == assign_speakers(segments@, turns@),
{
    let ghost input = segments@;
    let mut out: Vec<Segment> = Vec::new();
    for seg in it: segments.into_iter()
        invariant
            it.seq() == input,
            out@ == assign_speakers(input.take(it.index() as int), turns@),
    {
        let mut s = seg;
        let sp = dominant_speaker(s.start_ms, s.end_ms, turns);
        s.speaker_id = sp;
        let ghost k = it.index();
        assert(input.take(k + 1) == input.take(k as int).push(input[k as int]));
        out.push(s);
        assert(out@ =~= assign_speakers(input.take(k + 1), turns@));
    }
    assert(input.take(input.len() as int) == input);
    out
}

/// `t` moved past the reserved local speaker id 0.
pub open spec fn offset_turn(t: SpeakerTurn) -> SpeakerTurn {
    SpeakerTurn { speaker_id: (t.speaker_id + 1) as u32, ..t }
}

/// Inserts `x` after every element whose start is `<= x.start_ms`, scanning
/// from the end: an element with an equal start keeps its place before `x`.
pub open spec fn insert_by_start(s: Seq<Segment>, x: Segment) -> Seq<Segment>
    decreases s.len(),
{
    if s.len() == 0 || s.last().start_ms <= x.start_ms {
        s.push(x)
    } else {
        insert_by_start(s.drop_last(), x).push(s.last())
    }
}

/// Stable sort by `start_ms` (insertion sort, elements taken in order).
pub open spec fn sort_by_start(s: Seq<Segment>) -> Seq<Segment>
    decreases s.len(),
{
    if s.len() == 0 {
        s
    } else {
        insert_by_start(sort_by_start(s.drop_last()), s.last())
    }
}

/// Ordered by `start_ms`, non-decreasing.
pub open spec fn sorted_by_start(s: Seq<Segment>) -> bool {
    forall|i: int, j: int| 0 <= i <= j < s.len() ==> s[i].start_ms <= s[j].start_ms
}

/// What the mic and system tracks become before ordering: mic segments
/// pinned to speaker 0, then system segments assigned from offset turns.
pub open spec fn two_track_unsorted(
    mic: Seq<Segment>,
    system: Seq<Segment>,
    turns: Seq<SpeakerTurn>,
) -> Seq<Segment> {
    mic.map_values(|s: Segment| with_speaker(s, Some(0u32))) + assign_speakers(
        system,
        turns.map_values(|t: SpeakerTurn| offset_turn(t)),
    )
}

proof fn lemma_insert_at(s: Seq<Segment>, x: Segment, p: int)
    requires
        0 <= p <= s.len(),
        p == 0 || s[p - 1].start_ms <= x.start_ms,
        forall|k: int| p <= k < s.len() ==> #[trigger] s[k].start_ms > x.start_ms,
    ensures
        insert_by_start(s, x) == s.subrange(0, p).push(x) + s.subrange(p, s.len() as int),
    decreases s.len() - p,
{
    if p == s.len() {
        assert(s.subrange(0, p) == s);
        assert(s.subrange(p, s.len() as int) =~= Seq::<Segment>::empty());
        assert(s.push(x) =~= s.subrange(0, p).push(x) + s.subrange(p, s.len() as int));
    } else {
        let d = s.drop_last();
        assert(s[s.len() - 1].start_ms > x.start_ms);
        assert forall|k: int| p <= k < d.len() implies #[trigger] d[k].start_ms > x.start_ms by {
            assert(d[k] == s[k]);
        }
        if p > 0 {
            assert(d[p - 1] == s[p - 1]);
        }
        lemma_insert_at(d, x, p);
        assert(d.subrange(0, p) == s.subrange(0, p));
        assert(s.subrange(0, p).push(x) + s.subrange(p, s.len() as int) =~= (d.subrange(0, p).push(
            x,
        ) + d.subrange(p, d.len() as int)).push(s.last()));
    }
}

proof fn lemma_insert_sorted(s: Seq<Segment>, x: Segment)
    requires
        sorted_by_start(s),
    ensures
        sorted_by_start(insert_by_start(s, x)),
        insert_by_start(s, x).len() == s.len() + 1,
        insert_by_start(s, x).to_multiset() == s.to_multiset().insert(x),
    decreases s.len(),
{
    broadcast use vstd::seq_lib::group_to_multiset_ensures;

    if s.len() == 0 || s.last().start_ms <= x.start_ms {
        let r = s.push(x);
        assert forall|i: int, j: int| 0 <= i <= j < r.len() implies r[i].start_ms
            <= r[j].start_ms by {
            if j == s.len() && i < j {
                assert(s[i].start_ms <= s.last().start_ms);
            }
        }
    } else {
        let d = s.drop_last();
        assert forall|i: int, j: int| 0 <= i <= j < d.len() implies d[i].start_ms
            <= d[j].start_ms by {
            assert(d[i] == s[i] && d[j] == s[j]);
        }
        lemma_insert_sorted(d, x);
        let m = insert_by_start(d, x);
        let r = m.push(s.last());
        assert forall|k: int| 0 <= k < m.len() implies #[trigger] m[k].start_ms
            <= s.last().start_ms by {
            assert(m.to_multiset().count(m[k]) > 0);
            assert(d.to_multiset().insert(x).count(m[k]) > 0);
            if m[k] != x {
                assert(d.to_multiset().count(m[k]) > 0);
                assert(d.contains(m[k]));
                let i = choose|i: int| 0 <= i < d.len() && d[i] == m[k];
                assert(s[i] == d[i]);
            }
        }
        assert forall|i: int, j: int| 0 <= i <= j < r.len() implies r[i].start_ms
            <= r[j].start_ms by {
            if j == m.len() && i < j {
                assert(r[i] == m[i]);
            }
        }
        assert(s =~= d.push(s.last()));
        assert(s.to_multiset() == d.to_multiset().insert(s.last()));
        assert(r.to_multiset() =~= s.to_multiset().insert(x));
    }
}

/// `sort_by_start` orders by start time and keeps exactly the same elements.
pub proof fn lemma_sort_by_start(s: Seq<Segment>)
    ensures
        sorted_by_start(sort_by_start(s)),
        sort_by_start(s).len() == s.len(),
        sort_by_start(s).to_multiset() == s.to_multiset(),
    decreases s.len(),
{
    broadcast use vstd::seq_lib::group_to_multiset_ensures;

    if s.len() > 0 {
        lemma_sort_by_start(s.drop_last());
        lemma_insert_sorted(sort_by_start(s.drop_last()), s.last());
        assert(s =~= s.drop_last().push(s.last()));
    }
}

fn insert_segment_by_start(out: &mut Vec<Segment>, x: Segment)
    ensures
        final(out)@ == insert_by_start(old(out)@, x),
{
    let mut p: usize = out.len();
    while p > 0 && out[p - 1].start_ms > x.start_ms
        invariant
            0 <= p <= out.len(),
            forall|k: int| p <= k < out.len() ==> #[trigger] out[k].start_ms > x.start_ms,
        decreases p,
    {
        p = p - 1;
    }
    proof {
        lemma_insert_at(out@, x, p as int);
    }
    let ghost before = out@;
    out.insert(p, x);
    assert(out@ =~= before.subrange(0, p as int).push(x) + before.subrange(
        p as int,
        before.len() as int,
    ));
}

/// The segment starts at `ms`.
pub open spec fn starts_at_ms(ms: u64) -> spec_fn(Segment) -> bool {
    |s: Segment| s.start_ms == ms
}

proof fn lemma_insert_keeps_ties(s: Seq<Segment>, x: Segment, ms: u64)
    ensures
        insert_by_start(s, x).filter(starts_at_ms(ms)) == if x.start_ms == ms {
            s.filter(starts_at_ms(ms)).push(x)
        } else {
            s.filter(starts_at_ms(ms))
        },
    decreases s.len(),
{
    let p = starts_at_ms(ms);
    if s.len() == 0 || s.last().start_ms <= x.start_ms {
        s.lemma_filter_push(x, p);
    } else {
        let d = s.drop_last();
        let l = s.last();
        lemma_insert_keeps_ties(d, x, ms);
        insert_by_start(d, x).lemma_filter_push(l, p);
        assert(s == d.push(l));
        d.lemma_filter_push(l, p);
    }
}

/// Sorting by start keeps the order of segments that start at the same
/// time: the segments starting at any given moment come out in the order
/// they went in (so on merging, a mic segment stays ahead of a system one
/// that starts with it).
pub proof fn law_sort_by_start_stable(s: Seq<Segment>, ms: u64)
    ensures
        sort_by_start(s).filter(starts_at_ms(ms)) == s.filter(starts_at_ms(ms)),
    decreases s.len(),
{
    if s.len() > 0 {
        let d = s.drop_last();
        law_sort_by_start_stable(d, ms);
        lemma_insert_keeps_ties(sort_by_start(d), s.last(), ms);
        assert(s == d.push(s.last()));
        d.lemma_filter_push(s.last(), starts_at_ms(ms));
    }
}

/// Stable sort of `v` by `start_ms`.
pub fn sort_segments_by_start(v: Vec<Segment>) -> (r: Vec<Segment>)
    ensures
        r@ == sort_by_start(v@),
{
    let ghost input = v@;
    let mut out: Vec<Segment> = Vec::new();
    for seg in it: v.into_iter()
        invariant
            it.seq() == input,
            out@ == sort_by_start(input.take(it.index() as int)),
    {
        let ghost k = it.index();
        assert(input.take(k + 1).drop_last() == input.take(k as int));
        assert(input.take(k + 1).last() == seg);
        insert_segment_by_start(&mut out, seg);
    }
    assert(input.take(input.len() as int) == input);
    out
}

/// Combine the two capture tracks into one diarized segment list.
///
/// Mic-track segments are the local user, pinned to `speaker_id 0`.
/// System-track segments are remote participants: each turn's id is offset
/// by `+1` (past the reserved local id) and assigned by overlap. The two
/// lists are concatenated and stably sorted by `start_ms`, so on equal
/// starts a mic segment stays before a system segment.
pub fn merge_two_track(
    mic_segments: Vec<Segment>,
    system_segments: Vec<Segment>,
    system_turns: &[SpeakerTurn],
) -> (r: Vec<Segment>)
    requires
        forall|k: int| 0 <= k < system_turns@.len() ==> #[trigger] system_turns@[k].speaker_id < u32::MAX,
    ensures
        r@ == sort_by_start(two_track_unsorted(mic_segments@, system_segments@, system_turns@)),
        sorted_by_start(r@),
        r@.to_multiset() == two_track_unsorted(
            mic_segments@,
            system_segments@,
            system_turns@,
        ).to_multiset(),
{
    let ghost mic_in = mic_segments@;
    let mut all: Vec<Segment> = Vec::new();
    for seg in it: mic_segments.into_iter()
        invariant
            it.seq() == mic_in,
            all@ == mic_in.take(it.index() as int).map_values(
                |s: Segment| with_speaker(s, Some(0u32)),
            ),
    {
        let mut s = seg;
        s.speaker_id = Some(0);
        let ghost k = it.index();
        assert(mic_in.take(k + 1) == mic_in.take(k as int).push(mic_in[k as int]));
        all.push(s);
        assert(all@ =~= mic_in.take(k + 1).map_values(|s: Segment| with_speaker(s, Some(0u32))));
    }
    assert(mic_in.take(mic_in.len() as int) == mic_in);

    let mut offset_turns: Vec<SpeakerTurn> = Vec::new();
    let mut i: usize = 0;
    while i < system_turns.len()
        invariant
            0 <= i <= system_turns.len(),
            forall|k: int| 0 <= k < system_turns@.len() ==> #[trigger] system_turns@[k].speaker_id < u32::MAX,
            offset_turns@ == system_turns@.subrange(0, i as int).map_values(
                |t: SpeakerTurn| offset_turn(t),
            ),
        decreases system_turns.len() - i,
    {
        let t = system_turns[i];
        offset_turns.push(SpeakerTurn { start_ms: t.start_ms, end_ms: t.end_ms, speaker_id: t.speaker_id + 1 });
        i = i + 1;
        assert(offset_turns@ =~= system_turns@.subrange(0, i as int).map_values(
            |t: SpeakerTurn| offset_turn(t),
        ));
    }
    assert(system_turns@.subrange(0, system_turns.len() as int) == system_turns@);

    let system = merge_speaker_turns(system_segments, offset_turns.as_slice());
    let ghost mic_part = all@;
    let mut sys = system;
    all.append(&mut sys);
    assert(all@ =~= two_track_unsorted(mic_segments@, system_segments@, system_turns@));
    let r = sort_segments_by_start(all);
    proof {
        lemma_sort_by_start(two_track_unsorted(mic_segments@, system_segments@, system_turns@));
    }
    r
}

/// The milliseconds `[start, end)` and turn `t` share.
pub open spec fn shared_ms(start: u64, end: u64, t: SpeakerTurn) -> Set<int> {
    Set::new(|x: int| start <= x < end && t.start_ms <= x < t.end_ms)
}

/// `overlap_ms` counts exactly the milliseconds a segment and a turn share.
proof fn lemma_overlap_is_shared_time(start: u64, end: u64, t: SpeakerTurn)
    ensures
        shared_ms(start, end, t).finite(),
        overlap_ms(start, end, t) == shared_ms(start, end, t).len(),
{
    let lo: int = if start >= t.start_ms { start as int } else { t.start_ms as int };
    let hi: int = if end <= t.end_ms { end as int } else { t.end_ms as int };
    if lo < hi {
        assert(shared_ms(start, end, t) =~= vstd::set_lib::set_int_range(lo, hi));
        vstd::set_lib::lemma_int_range(lo, hi);
    } else {
        assert(shared_ms(start, end, t) =~= Set::<int>::empty());
    }
}

/// Each segment of the merged transcript, in order, is the input segment
/// with the speaker of a turn that shares the most milliseconds with it
/// (the earliest such turn on a tie), or with no speaker when no turn shares
/// any.
pub proof fn law_speaker_shares_most_time(segments: Seq<Segment>, turns: Seq<SpeakerTurn>, i: int)
    requires
        0 <= i < segments.len(),
    ensures
        ({
            let seg = segments[i];
            let out = assign_speakers(segments, turns)[i];
            &&& assign_speakers(segments, turns).len() == segments.len()
            &&& out == with_speaker(seg, out.speaker_id)
            &&& out.speaker_id is None <==> forall|k: int|
                0 <= k < turns.len() ==> shared_ms(seg.start_ms, seg.end_ms, #[trigger] turns[k]).len() == 0
            &&& out.speaker_id matches Some(id) ==> exists|k: int|
                {
                    &&& 0 <= k < turns.len()
                    &&& #[trigger] turns[k].speaker_id == id
                    &&& shared_ms(seg.start_ms, seg.end_ms, turns[k]).len() > 0
                    &&& forall|j: int| 0 <= j < turns.len() ==> shared_ms(seg.start_ms, seg.end_ms, #[trigger] turns[j]).len()
                        <= shared_ms(seg.start_ms, seg.end_ms, turns[k]).len()
                    &&& forall|j: int| 0 <= j < k ==> shared_ms(seg.start_ms, seg.end_ms, #[trigger] turns[j]).len()
                        < shared_ms(seg.start_ms, seg.end_ms, turns[k]).len()
                }
        }),
{
    let seg = segments[i];
    let (a, b) = (seg.start_ms, seg.end_ms);
    lemma_best_turn(a, b, turns);
    assert forall|k: int| 0 <= k < turns.len() implies overlap_ms(a, b, #[trigger] turns[k]) == shared_ms(a, b, turns[k]).len()
        && (overlaps(a, b, turns[k]) <==> shared_ms(a, b, turns[k]).len() > 0) by {
        lemma_overlap_is_shared_time(a, b, turns[k]);
    }
}

} // verus!
