//! Deterministic rule-based topic segmentation.
//!
//! Opens a new section on either:
//!   - a silence gap above `topic_gap_ms`, OR
//!   - a speaker shift: the dominant speaker of the in-progress section is
//!     *not* the new segment's speaker, AND the new speaker has spoken less
//!     than `speaker_shift_threshold_ppm` (parts per million) of the
//!     section's speakered duration so far.
//!
//! Segments without a speaker never trigger a speaker-shift break and do not
//! count on either side of the share. After segmentation, sections shorter
//! than `min_section_ms` are merged into the previous one.

use vstd::prelude::*;

use crate::segment::Segment;

verus! {

/// Tuning of the segmentation rules. The share threshold is exact: parts per
/// million of the section's speakered duration (`0.10` is `100_000`).
#[derive(Debug, Clone, Copy, PartialEq, Eq)]
pub struct TopicSegmentationConfig {
    pub topic_gap_ms: u64,
    pub min_section_ms: u64,
    pub speaker_shift_threshold_ppm: u32,
}

impl Default for TopicSegmentationConfig {
    /// 8 s gap, 30 s minimum section, 10 % share threshold.
    fn default() -> (r: Self)
        ensures
            r.topic_gap_ms == 8000,
            r.min_section_ms == 30_000,
            r.speaker_shift_threshold_ppm == 100_000,
    {
        TopicSegmentationConfig {
            topic_gap_ms: 8000,
            min_section_ms: 30_000,
            speaker_shift_threshold_ppm: 100_000,
        }
    }
}

/// A contiguous range of segments that share a topic.
#[derive(Debug, PartialEq, Eq)]
pub struct RawSection {
    pub time_range_ms: (u64, u64),
    pub segment_indices: Vec<usize>,
}

/// The mathematical value of a section.
pub struct SectionModel {
    pub time_range_ms: (u64, u64),
    pub segment_indices: Seq<usize>,
}

impl View for RawSection {
    type V = SectionModel;

    open spec fn view(&self) -> SectionModel {
        SectionModel { time_range_ms: self.time_range_ms, segment_indices: self.segment_indices@ }
    }
}

pub open spec fn sections_view(v: Seq<RawSection>) -> Seq<SectionModel> {
    v.map_values(|s: RawSection| s@)
}

/// `a - b`, or zero when `b > a`.
pub open spec fn sat_sub(a: u64, b: u64) -> nat {
    if a >= b { (a - b) as nat } else { 0 }
}

/// A segment's duration (zero for an inverted range).
pub open spec fn seg_dur(s: Segment) -> nat {
    sat_sub(s.end_ms, s.start_ms)
}

/// Sum of the durations of `segs[0..n]`.
pub open spec fn dur_prefix(segs: Seq<Segment>, n: nat) -> nat
    decreases n,
{
    if n == 0 { 0 } else { dur_prefix(segs, (n - 1) as nat) + seg_dur(segs[n - 1]) }
}

/// Sum of all segment durations.
pub open spec fn total_duration(segs: Seq<Segment>) -> nat {
    dur_prefix(segs, segs.len())
}

/// Duration spoken by `who` over the segments at `idx`.
pub open spec fn speaker_total(segs: Seq<Segment>, idx: Seq<usize>, who: u32) -> nat
    decreases idx.len(),
{
    if idx.len() == 0 {
        0
    } else {
        speaker_total(segs, idx.drop_last(), who) + if segs[idx.last() as int].speaker_id == Some(
            who,
        ) {
            seg_dur(segs[idx.last() as int])
        } else {
            0
        }
    }
}

/// Duration of the segments at `idx` that carry a speaker.
pub open spec fn speakered_total(segs: Seq<Segment>, idx: Seq<usize>) -> nat
    decreases idx.len(),
{
    if idx.len() == 0 {
        0
    } else {
        speakered_total(segs, idx.drop_last()) + if segs[idx.last() as int].speaker_id is Some {
            seg_dur(segs[idx.last() as int])
        } else {
            0
        }
    }
}

/// The speakers of the segments at `idx`, in order of first appearance.
pub open spec fn first_seen(segs: Seq<Segment>, idx: Seq<usize>) -> Seq<u32>
    decreases idx.len(),
{
    if idx.len() == 0 {
        Seq::empty()
    } else {
        let f = first_seen(segs, idx.drop_last());
        match segs[idx.last() as int].speaker_id {
            Some(id) => if f.contains(id) { f } else { f.push(id) },
            None => f,
        }
    }
}

/// The first of `ids` with the largest total over `idx`.
pub open spec fn argmax_speaker(segs: Seq<Segment>, idx: Seq<usize>, ids: Seq<u32>) -> Option<u32>
    decreases ids.len(),
{
    if ids.len() == 0 {
        None
    } else {
        let c = ids.last();
        match argmax_speaker(segs, idx, ids.drop_last()) {
            Some(b) => if speaker_total(segs, idx, c) > speaker_total(segs, idx, b) {
                Some(c)
            } else {
                Some(b)
            },
            None => Some(c),
        }
    }
}

/// The dominant speaker of the segments at `idx` by summed duration; among
/// equal totals the one that spoke first. `None` when no segment has a speaker.
pub open spec fn dominant_in(segs: Seq<Segment>, idx: Seq<usize>) -> Option<u32> {
    argmax_speaker(segs, idx, first_seen(segs, idx))
}

/// `who / total < ppm / 1_000_000`, where an empty total counts as share 0.
pub open spec fn share_below(who: nat, total: nat, ppm: nat) -> bool {
    if total == 0 { 0 < ppm } else { who * 1_000_000 < ppm * total }
}

/// The speaker-shift rule for adding a segment by `new_speaker` to the
/// section made of the segments at `idx`.
pub open spec fn speaker_shift_break(
    segs: Seq<Segment>,
    idx: Seq<usize>,
    new_speaker: Option<u32>,
    ppm: u32,
) -> bool {
    match new_speaker {
        None => false,
        Some(n) => match dominant_in(segs, idx) {
            None => false,
            Some(d) => d != n && share_below(
                speaker_total(segs, idx, n),
                speakered_total(segs, idx),
                ppm as nat,
            ),
        },
    }
}

/// The speaker-shift rule never fires for a segment without a speaker, nor
/// with a zero threshold.
pub proof fn law_speaker_shift_needs_speaker_and_threshold(
    segs: Seq<Segment>,
    idx: Seq<usize>,
    new_speaker: Option<u32>,
    ppm: u32,
)
    ensures
        new_speaker is None ==> !speaker_shift_break(segs, idx, new_speaker, ppm),
        ppm == 0 ==> !speaker_shift_break(segs, idx, new_speaker, ppm),
{
}

/// Whether segment `i` (i >= 1) opens a new section after `cur`.
pub open spec fn opens_section(
    segs: Seq<Segment>,
    cfg: TopicSegmentationConfig,
    cur: SectionModel,
    i: int,
) -> bool {
    sat_sub(segs[i].start_ms, segs[i - 1].end_ms) > cfg.topic_gap_ms || speaker_shift_break(
        segs,
        cur.segment_indices,
        segs[i].speaker_id,
        cfg.speaker_shift_threshold_ppm,
    )
}

/// Sections closed so far and the one in progress after `segs[0..n]`, n >= 1.
pub open spec fn build_sections(segs: Seq<Segment>, cfg: TopicSegmentationConfig, n: nat) -> (
    Seq<SectionModel>,
    SectionModel,
)
    decreases n,
{
    if n <= 1 {
        (
            Seq::empty(),
            SectionModel {
                time_range_ms: (segs[0].start_ms, segs[0].end_ms),
                segment_indices: seq![0usize],
            },
        )
    } else {
        let prev = build_sections(segs, cfg, (n - 1) as nat);
        let i = n - 1;
        let s = segs[i];
        if opens_section(segs, cfg, prev.1, i) {
            (
                prev.0.push(prev.1),
                SectionModel { time_range_ms: (s.start_ms, s.end_ms), segment_indices: seq![i as usize] },
            )
        } else {
            (
                prev.0,
                SectionModel {
                    time_range_ms: (prev.1.time_range_ms.0, s.end_ms),
                    segment_indices: prev.1.segment_indices.push(i as usize),
                },
            )
        }
    }
}

/// A prefix of a section has no more speakered time than the section.
proof fn lemma_speakered_prefix(segs: Seq<Segment>, idx: Seq<usize>, k: int)
    requires
        0 <= k <= idx.len(),
    ensures
        speakered_total(segs, idx.take(k)) <= speakered_total(segs, idx),
    decreases idx.len() - k,
{
    if k < idx.len() {
        assert(idx.drop_last().take(k) =~= idx.take(k));
        lemma_speakered_prefix(segs, idx.drop_last(), k);
    } else {
        assert(idx.take(k) =~= idx);
    }
}

/// The running totals of the section made of the segments at `indices`.
fn totals_over(segments: &[Segment], indices: &[usize]) -> (r: (Vec<(u32, u64)>, u64))
    requires
        forall|k: int| 0 <= k < indices@.len() ==> indices@[k] < segments@.len(),
        speakered_total(segments@, indices@) <= u64::MAX,
    ensures
        totals_ok(segments@, indices@, r.0@, r.1),
{
    let mut totals: Vec<(u32, u64)> = Vec::new();
    let mut spk: u64 = 0;
    let mut k: usize = 0;
    proof {
        assert(indices@.take(0) =~= Seq::<usize>::empty());
    }
    while k < indices.len()
        invariant
            k <= indices@.len(),
            forall|q: int| 0 <= q < indices@.len() ==> indices@[q] < segments@.len(),
            speakered_total(segments@, indices@) <= u64::MAX,
            totals_ok(segments@, indices@.take(k as int), totals@, spk),
        decreases indices@.len() - k,
    {
        proof {
            assert(indices@.take(k as int).push(indices@[k as int]) =~= indices@.take(k + 1));
            lemma_speakered_prefix(segments@, indices@, k + 1);
        }
        add_to_totals(
            &mut totals,
            &mut spk,
            &segments[indices[k]],
            Ghost(segments@),
            Ghost(indices@.take(k as int)),
            Ghost(indices@[k as int]),
        );
        k = k + 1;
    }
    assert(indices@.take(k as int) =~= indices@);
    (totals, spk)
}

/// The speaker-shift rule for adding a segment by `new_speaker` to the
/// section made of the segments at `indices` (see `speaker_shift_break`).
pub fn is_speaker_shift_break(
    segments: &[Segment],
    indices: &[usize],
    new_speaker: Option<u32>,
    ppm: u32,
) -> (r: bool)
    requires
        forall|k: int| 0 <= k < indices@.len() ==> indices@[k] < segments@.len(),
        speakered_total(segments@, indices@) <= u64::MAX,
    ensures
        r == speaker_shift_break(segments@, indices@, new_speaker, ppm),
{
    let (totals, spk) = totals_over(segments, indices);
    shift_break_from_totals(&totals, spk, new_speaker, ppm, Ghost(segments@), Ghost(indices@))
}

/// The share of `who` in the section made of the segments at `indices`, as
/// its speaking time and the section's speakered time.
pub fn speaker_share(segments: &[Segment], indices: &[usize], who: u32) -> (r: (u64, u64))
    requires
        forall|k: int| 0 <= k < indices@.len() ==> indices@[k] < segments@.len(),
        speakered_total(segments@, indices@) <= u64::MAX,
    ensures
        r.0 == speaker_total(segments@, indices@, who),
        r.1 == speakered_total(segments@, indices@),
{
    let (totals, spk) = totals_over(segments, indices);
    let who_total = lookup_total(&totals, who, Ghost(segments@), Ghost(indices@), Ghost(spk));
    (who_total, spk)
}

/// Folds every section shorter than `min_ms` into the previous one.
pub open spec fn merge_short(secs: Seq<SectionModel>, min_ms: u64) -> Seq<SectionModel>
    decreases secs.len(),
{
    if secs.len() == 0 {
        Seq::empty()
    } else {
        let out = merge_short(secs.drop_last(), min_ms);
        let s = secs.last();
        if sat_sub(s.time_range_ms.1, s.time_range_ms.0) < min_ms && out.len() > 0 {
            out.drop_last().push(
                SectionModel {
                    time_range_ms: (out.last().time_range_ms.0, s.time_range_ms.1),
                    segment_indices: out.last().segment_indices + s.segment_indices,
                },
            )
        } else {
            out.push(s)
        }
    }
}

/// The sections `segment_topics` returns.
pub open spec fn topic_sections(segs: Seq<Segment>, cfg: TopicSegmentationConfig) -> Seq<
    SectionModel,
> {
    if segs.len() == 0 {
        Seq::empty()
    } else {
        let b = build_sections(segs, cfg, segs.len());
        merge_short(b.0.push(b.1), cfg.min_section_ms)
    }
}

/// The indices `a, a+1, .., b-1`.
pub open spec fn index_range(a: int, b: int) -> Seq<usize> {
    Seq::new((b - a) as nat, |k: int| (a + k) as usize)
}

/// All section indices, concatenated in order.
pub open spec fn flatten_indices(secs: Seq<SectionModel>) -> Seq<usize>
    decreases secs.len(),
{
    if secs.len() == 0 {
        Seq::empty()
    } else {
        flatten_indices(secs.drop_last()) + secs.last().segment_indices
    }
}

// ---------------------------------------------------------------------------
// Lemmas about the per-speaker totals.

proof fn lemma_push_unfold(idx: Seq<usize>, x: usize)
    ensures
        idx.push(x).drop_last() == idx,
        idx.push(x).last() == x,
{
    assert(idx.push(x).drop_last() =~= idx);
}

proof fn lemma_first_seen_props(segs: Seq<Segment>, idx: Seq<usize>)
    ensures
        first_seen(segs, idx).no_duplicates(),
        forall|w: u32| !first_seen(segs, idx).contains(w) ==> speaker_total(segs, idx, w) == 0,
    decreases idx.len(),
{
    if idx.len() > 0 {
        let d = idx.drop_last();
        lemma_first_seen_props(segs, d);
        let f = first_seen(segs, d);
        let nf = first_seen(segs, idx);
        let sp = segs[idx.last() as int].speaker_id;
        assert forall|k: int| 0 <= k < f.len() implies nf.contains(#[trigger] f[k]) by {
            match sp {
                Some(id) => {
                    if !f.contains(id) {
                        assert(nf[k] == f[k]);
                    }
                },
                None => {},
            }
        }
        match sp {
            Some(id) => {
                if !f.contains(id) {
                    assert(nf[f.len() as int] == id);
                    assert forall|i: int, j: int|
                        0 <= i < nf.len() && 0 <= j < nf.len() && i != j implies nf[i]
                        != nf[j] by {
                        if i == f.len() {
                            assert(nf[j] == f[j]);
                        } else if j == f.len() {
                            assert(nf[i] == f[i]);
                        }
                    }
                }
                assert(nf.contains(id));
            },
            None => {},
        }
        assert forall|w: u32| !nf.contains(w) implies speaker_total(segs, idx, w) == 0 by {
            if f.contains(w) {
                let k = choose|k: int| 0 <= k < f.len() && f[k] == w;
                assert(nf.contains(f[k]));
            }
            assert(speaker_total(segs, d, w) == 0);
            assert(sp != Some(w));
        }
    }
}

proof fn lemma_speaker_le_speakered(segs: Seq<Segment>, idx: Seq<usize>, w: u32)
    ensures
        speaker_total(segs, idx, w) <= speakered_total(segs, idx),
    decreases idx.len(),
{
    if idx.len() > 0 {
        lemma_speaker_le_speakered(segs, idx.drop_last(), w);
    }
}

proof fn lemma_dur_prefix_mono(segs: Seq<Segment>, a: nat, b: nat)
    requires
        a <= b,
    ensures
        dur_prefix(segs, a) <= dur_prefix(segs, b),
    decreases b,
{
    if b > a {
        lemma_dur_prefix_mono(segs, a, (b - 1) as nat);
    }
}

proof fn lemma_range_speakered(segs: Seq<Segment>, a: int, b: int)
    requires
        0 <= a <= b <= usize::MAX,
    ensures
        speakered_total(segs, index_range(a, b)) + dur_prefix(segs, a as nat) <= dur_prefix(
            segs,
            b as nat,
        ),
    decreases b - a,
{
    if b > a {
        assert(index_range(a, b).drop_last() =~= index_range(a, b - 1));
        assert(index_range(a, b)[b - a - 1] == (b - 1) as usize);
        assert(index_range(a, b).last() == (b - 1) as usize);
        lemma_range_speakered(segs, a, b - 1);
    } else {
        assert(index_range(a, b) =~= Seq::<usize>::empty());
    }
}

/// Per-speaker running totals agree with the specification.
pub open spec fn totals_ok(
    segs: Seq<Segment>,
    idx: Seq<usize>,
    totals: Seq<(u32, u64)>,
    spk: u64,
) -> bool {
    &&& totals.len() == first_seen(segs, idx).len()
    &&& forall|k: int|
        0 <= k < totals.len() ==> (#[trigger] totals[k]).0 == first_seen(segs, idx)[k] && totals[k].1
            == speaker_total(segs, idx, first_seen(segs, idx)[k])
    &&& spk == speakered_total(segs, idx)
}

fn segment_duration(s: &Segment) -> (d: u64)
    ensures
        d == seg_dur(*s),
{
    if s.end_ms >= s.start_ms {
        s.end_ms - s.start_ms
    } else {
        0
    }
}

/// Adds segment `i` to the running totals of the section `idx`.
fn add_to_totals(
    totals: &mut Vec<(u32, u64)>,
    spk: &mut u64,
    s: &Segment,
    Ghost(segs): Ghost<Seq<Segment>>,
    Ghost(idx): Ghost<Seq<usize>>,
    Ghost(i): Ghost<usize>,
)
    requires
        0 <= i < segs.len(),
        segs[i as int] == *s,
        totals_ok(segs, idx, old(totals)@, *old(spk)),
        speakered_total(segs, idx.push(i)) <= u64::MAX,
    ensures
        totals_ok(segs, idx.push(i), final(totals)@, *final(spk)),
{
    proof {
        lemma_push_unfold(idx, i);
        lemma_first_seen_props(segs, idx);
    }
    let ghost nidx = idx.push(i);
    let ghost f = first_seen(segs, idx);
    let d = segment_duration(s);
    match s.speaker_id {
        None => {
            assert(first_seen(segs, nidx) == f);
            assert forall|k: int| 0 <= k < totals@.len() implies (#[trigger] totals@[k]).0
                == first_seen(segs, nidx)[k] && totals@[k].1 == speaker_total(
                segs,
                nidx,
                first_seen(segs, nidx)[k],
            ) by {}
        },
        Some(id) => {
            *spk = *spk + d;
            let mut k: usize = 0;
            while k < totals.len() && totals[k].0 != id
                invariant
                    0 <= k <= totals@.len(),
                    totals_ok(segs, idx, totals@, (*spk - d) as u64),
                    forall|j: int| 0 <= j < k ==> (#[trigger] totals@[j]).0 != id,
                decreases totals@.len() - k,
            {
                k = k + 1;
            }
            if k < totals.len() {
                assert(f[k as int] == id);
                assert(f.contains(id));
                assert(first_seen(segs, nidx) == f);
                proof {
                    lemma_speaker_le_speakered(segs, nidx, id);
                }
                let t = totals[k].1;
                let ghost old_totals = totals@;
                totals.set(k, (id, t + d));
                assert forall|j: int| 0 <= j < totals@.len() implies (#[trigger] totals@[j]).0
                    == first_seen(segs, nidx)[j] && totals@[j].1 == speaker_total(
                    segs,
                    nidx,
                    first_seen(segs, nidx)[j],
                ) by {
                    if j != k {
                        assert(old_totals[j] == totals@[j]);
                        assert(f[j] != f[k as int]);
                    }
                }
            } else {
                assert(!f.contains(id)) by {
                    if f.contains(id) {
                        let j = choose|j: int| 0 <= j < f.len() && f[j] == id;
                        assert(totals@[j].0 == id);
                    }
                }
                assert(first_seen(segs, nidx) == f.push(id));
                assert(speaker_total(segs, idx, id) == 0);
                proof {
                    lemma_speaker_le_speakered(segs, nidx, id);
                }
                let ghost old_totals = totals@;
                totals.push((id, d));
                assert forall|j: int| 0 <= j < totals@.len() implies (#[trigger] totals@[j]).0
                    == first_seen(segs, nidx)[j] && totals@[j].1 == speaker_total(
                    segs,
                    nidx,
                    first_seen(segs, nidx)[j],
                ) by {
                    if j < old_totals.len() {
                        assert(old_totals[j] == totals@[j]);
                        assert(f[j] != id);
                    }
                }
            }
        },
    }
}

/// The running total for `who`, zero when `who` has not spoken yet.
fn lookup_total(
    totals: &Vec<(u32, u64)>,
    who: u32,
    Ghost(segs): Ghost<Seq<Segment>>,
    Ghost(idx): Ghost<Seq<usize>>,
    Ghost(spk): Ghost<u64>,
) -> (r: u64)
    requires
        totals_ok(segs, idx, totals@, spk),
    ensures
        r == speaker_total(segs, idx, who),
{
    proof {
        lemma_first_seen_props(segs, idx);
    }
    let mut k: usize = 0;
    while k < totals.len()
        invariant
            0 <= k <= totals@.len(),
            totals_ok(segs, idx, totals@, spk),
            forall|j: int| 0 <= j < k ==> (#[trigger] totals@[j]).0 != who,
        decreases totals@.len() - k,
    {
        if totals[k].0 == who {
            return totals[k].1;
        }
        k = k + 1;
    }
    let ghost f = first_seen(segs, idx);
    assert(!f.contains(who)) by {
        if f.contains(who) {
            let j = choose|j: int| 0 <= j < f.len() && f[j] == who;
            assert(totals@[j].0 == who);
        }
    }
    0
}

/// Dominant speaker of the running section.
fn dominant_of_totals(
    totals: &Vec<(u32, u64)>,
    Ghost(segs): Ghost<Seq<Segment>>,
    Ghost(idx): Ghost<Seq<usize>>,
    Ghost(spk): Ghost<u64>,
) -> (r: Option<u32>)
    requires
        totals_ok(segs, idx, totals@, spk),
    ensures
        r == dominant_in(segs, idx),
{
    let ghost f = first_seen(segs, idx);
    let mut best: Option<(u32, u64)> = None;
    let mut k: usize = 0;
    while k < totals.len()
        invariant
            0 <= k <= totals@.len(),
            totals_ok(segs, idx, totals@, spk),
            f == first_seen(segs, idx),
            match argmax_speaker(segs, idx, f.subrange(0, k as int)) {
                Some(b) => best matches Some((bid, bt)) && bid == b && bt == speaker_total(
                    segs,
                    idx,
                    b,
                ),
                None => best is None,
            },
        decreases totals@.len() - k,
    {
        let (id, t) = totals[k];
        assert(f.subrange(0, k + 1 as int).drop_last() == f.subrange(0, k as int));
        assert(f.subrange(0, k + 1 as int).last() == id);
        match best {
            Some((_, bt)) => {
                if t > bt {
                    best = Some((id, t));
                }
            },
            None => {
                best = Some((id, t));
            },
        }
        k = k + 1;
    }
    assert(f.subrange(0, totals@.len() as int) == f);
    match best {
        Some((id, _)) => Some(id),
        None => None,
    }
}

/// The speaker-shift rule over the running totals.
fn shift_break_from_totals(
    totals: &Vec<(u32, u64)>,
    spk: u64,
    new_speaker: Option<u32>,
    ppm: u32,
    Ghost(segs): Ghost<Seq<Segment>>,
    Ghost(idx): Ghost<Seq<usize>>,
) -> (r: bool)
    requires
        totals_ok(segs, idx, totals@, spk),
    ensures
        r == speaker_shift_break(segs, idx, new_speaker, ppm),
{
    match new_speaker {
        None => false,
        Some(n) => match dominant_of_totals(totals, Ghost(segs), Ghost(idx), Ghost(spk)) {
            None => false,
            Some(d) => {
                if d == n {
                    false
                } else {
                    let who = lookup_total(totals, n, Ghost(segs), Ghost(idx), Ghost(spk));
                    if spk == 0 {
                        0 < ppm
                    } else {
                        assert((who as u128) * 1_000_000 <= 0x1_0000_0000_0000_0000u128 * 1_000_000)
                            by (nonlinear_arith)
                            requires
                                who <= u64::MAX,
                        ;
                        assert((ppm as u128) * (spk as u128) <= 0x1_0000_0000u128
                            * 0x1_0000_0000_0000_0000u128) by (nonlinear_arith)
                            requires
                                ppm <= u32::MAX,
                                spk <= u64::MAX,
                        ;
                        (who as u128) * 1_000_000 < (ppm as u128) * (spk as u128)
                    }
                }
            },
        },
    }
}

/// Folds every section shorter than `min_ms` into the previous one.
fn merge_short_sections(sections: Vec<RawSection>, min_ms: u64) -> (r: Vec<RawSection>)
    ensures
        sections_view(r@) == merge_short(sections_view(sections@), min_ms),
{
    let ghost input = sections@;
    let mut out: Vec<RawSection> = Vec::new();
    for s in it: sections.into_iter()
        invariant
            it.seq() == input,
            sections_view(out@) == merge_short(sections_view(input.take(it.index() as int)), min_ms),
    {
        let ghost k = it.index();
        assert(sections_view(input.take(k + 1)).drop_last() =~= sections_view(input.take(k as int)));
        assert(sections_view(input.take(k + 1)).last() == s@);
        let len = if s.time_range_ms.1 >= s.time_range_ms.0 {
            s.time_range_ms.1 - s.time_range_ms.0
        } else {
            0
        };
        if len < min_ms && out.len() > 0 {
            let ghost before = sections_view(out@);
            let mut prev = out.pop().unwrap();
            assert(before.last() == prev@);
            assert(sections_view(out@) =~= before.drop_last());
            let RawSection { time_range_ms, segment_indices } = s;
            let mut more = segment_indices;
            prev.time_range_ms = (prev.time_range_ms.0, time_range_ms.1);
            prev.segment_indices.append(&mut more);
            out.push(prev);
            assert(sections_view(out@) =~= merge_short(
                sections_view(input.take(k + 1)),
                min_ms,
            ));
        } else {
            out.push(s);
            assert(sections_view(out@) =~= merge_short(
                sections_view(input.take(k + 1)),
                min_ms,
            ));
        }
    }
    assert(input.take(input.len() as int) == input);
    out
}

/// The invariant of the segmentation loop after `n` segments.
pub open spec fn build_state_ok(
    segs: Seq<Segment>,
    cfg: TopicSegmentationConfig,
    n: nat,
    closed: Seq<SectionModel>,
    cur: SectionModel,
    start: int,
) -> bool {
    &&& build_sections(segs, cfg, n) == (closed, cur)
    &&& 0 <= start < n
    &&& cur.segment_indices == index_range(start, n as int)
    &&& flatten_indices(closed) + cur.segment_indices == index_range(0, n as int)
}

proof fn lemma_build_step(segs: Seq<Segment>, cfg: TopicSegmentationConfig, n: nat, start: int)
    requires
        1 <= n < segs.len(),
        build_state_ok(
            segs,
            cfg,
            n,
            build_sections(segs, cfg, n).0,
            build_sections(segs, cfg, n).1,
            start,
        ),
    ensures
        ({
            let b = build_sections(segs, cfg, n);
            if opens_section(segs, cfg, b.1, n as int) {
                build_state_ok(
                    segs,
                    cfg,
                    n + 1,
                    build_sections(segs, cfg, n + 1).0,
                    build_sections(segs, cfg, n + 1).1,
                    n as int,
                )
            } else {
                build_state_ok(
                    segs,
                    cfg,
                    n + 1,
                    build_sections(segs, cfg, n + 1).0,
                    build_sections(segs, cfg, n + 1).1,
                    start,
                )
            }
        }),
{
    let b = build_sections(segs, cfg, n);
    let nb = build_sections(segs, cfg, n + 1);
    if opens_section(segs, cfg, b.1, n as int) {
        assert(flatten_indices(nb.0) == flatten_indices(b.0) + b.1.segment_indices) by {
            assert(nb.0 == b.0.push(b.1));
            assert(nb.0.drop_last() == b.0);
            assert(nb.0.last() == b.1);
        }
        assert(flatten_indices(nb.0) == index_range(0, n as int));
        assert(index_range(0, n as int) + index_range(n as int, n + 1 as int) =~= index_range(
            0,
            n + 1 as int,
        ));
        assert(nb.1.segment_indices =~= index_range(n as int, n + 1 as int));
        assert(flatten_indices(nb.0) + nb.1.segment_indices =~= index_range(0, n + 1 as int));
    } else {
        assert(nb.0 == b.0);
        assert(nb.1.segment_indices == b.1.segment_indices.push(n as usize));
        assert(index_range(0, n as int).push(n as usize) =~= index_range(0, n + 1 as int));
        assert(flatten_indices(b.0) + b.1.segment_indices.push(n as usize) =~= (flatten_indices(b.0)
            + b.1.segment_indices).push(n as usize));
        assert(nb.1.segment_indices =~= index_range(start, n + 1 as int));
        assert(flatten_indices(nb.0) + nb.1.segment_indices =~= index_range(0, n + 1 as int));
    }
}

/// Segment `segments` into topic sections per `cfg`.
pub fn segment_topics(segments: &[Segment], cfg: &TopicSegmentationConfig) -> (r: Vec<RawSection>)
    requires
        total_duration(segments@) <= u64::MAX,
    ensures
        sections_view(r@) == topic_sections(segments@, *cfg),
{
    let ghost segs = segments@;
    let n = segments.len();
    if n == 0 {
        return Vec::new();
    }
    let mut closed: Vec<RawSection> = Vec::new();
    let mut cur_range: (u64, u64) = (segments[0].start_ms, segments[0].end_ms);
    let mut cur_idx: Vec<usize> = Vec::new();
    cur_idx.push(0);
    let mut totals: Vec<(u32, u64)> = Vec::new();
    let mut spk: u64 = 0;
    let mut start: usize = 0;
    proof {
        assert(Seq::<usize>::empty().push(0usize) == seq![0usize]);
        lemma_range_speakered(segs, 0, 1);
        lemma_dur_prefix_mono(segs, 1, segs.len() as nat);
        assert(index_range(0, 1) =~= seq![0usize]);
        assert(first_seen(segs, Seq::<usize>::empty()).len() == 0);
    }
    add_to_totals(&mut totals, &mut spk, &segments[0], Ghost(segs), Ghost(Seq::empty()), Ghost(0));
    assert(flatten_indices(Seq::<SectionModel>::empty()) =~= Seq::<usize>::empty());
    assert(sections_view(closed@) =~= Seq::<SectionModel>::empty());
    assert(cur_idx@ == seq![0usize]);
    assert(build_sections(segs, *cfg, 1).1.segment_indices == seq![0usize]);
    assert(flatten_indices(sections_view(closed@)) + cur_idx@ =~= index_range(0, 1));
    let mut i: usize = 1;
    while i < n
        invariant
            1 <= i <= n,
            n == segs.len(),
            segs == segments@,
            total_duration(segs) <= u64::MAX,
            build_state_ok(
                segs,
                *cfg,
                i as nat,
                sections_view(closed@),
                SectionModel { time_range_ms: cur_range, segment_indices: cur_idx@ },
                start as int,
            ),
            totals_ok(segs, cur_idx@, totals@, spk),
        decreases n - i,
    {
        let s = &segments[i];
        let prev_end = segments[i - 1].end_ms;
        let gap = if s.start_ms >= prev_end {
            s.start_ms - prev_end
        } else {
            0
        };
        let ghost cur_model = SectionModel { time_range_ms: cur_range, segment_indices: cur_idx@ };
        let brk = shift_break_from_totals(
            &totals,
            spk,
            s.speaker_id,
            cfg.speaker_shift_threshold_ppm,
            Ghost(segs),
            Ghost(cur_idx@),
        );
        proof {
            lemma_build_step(segs, *cfg, i as nat, start as int);
        }
        if gap > cfg.topic_gap_ms || brk {
            let done = RawSection { time_range_ms: cur_range, segment_indices: cur_idx };
            let ghost before = sections_view(closed@);
            closed.push(done);
            assert(sections_view(closed@) =~= before.push(cur_model));
            cur_range = (s.start_ms, s.end_ms);
            cur_idx = Vec::new();
            cur_idx.push(i);
            totals = Vec::new();
            spk = 0;
            start = i;
            proof {
                assert(Seq::<usize>::empty().push(i) == seq![i]);
                lemma_range_speakered(segs, i as int, i + 1);
                lemma_dur_prefix_mono(segs, (i + 1) as nat, segs.len() as nat);
                assert(index_range(i as int, i + 1) =~= seq![i]);
                assert(first_seen(segs, Seq::<usize>::empty()).len() == 0);
            }
            add_to_totals(&mut totals, &mut spk, s, Ghost(segs), Ghost(Seq::empty()), Ghost(i));
        } else {
            let ghost old_idx = cur_idx@;
            cur_range = (cur_range.0, s.end_ms);
            cur_idx.push(i);
            proof {
                lemma_range_speakered(segs, start as int, i + 1);
                lemma_dur_prefix_mono(segs, (i + 1) as nat, segs.len() as nat);
            }
            add_to_totals(&mut totals, &mut spk, s, Ghost(segs), Ghost(old_idx), Ghost(i));
        }
        i = i + 1;
    }
    let last = RawSection { time_range_ms: cur_range, segment_indices: cur_idx };
    let ghost before = sections_view(closed@);
    closed.push(last);
    assert(sections_view(closed@) =~= before.push(
        build_sections(segs, *cfg, segs.len() as nat).1,
    ));
    merge_short_sections(closed, cfg.min_section_ms)
}

/// Merging short sections keeps every index, in order.
pub proof fn lemma_merge_short_flatten(secs: Seq<SectionModel>, min_ms: u64)
    ensures
        flatten_indices(merge_short(secs, min_ms)) == flatten_indices(secs),
    decreases secs.len(),
{
    if secs.len() > 0 {
        lemma_merge_short_flatten(secs.drop_last(), min_ms);
        let out = merge_short(secs.drop_last(), min_ms);
        let s = secs.last();
        if sat_sub(s.time_range_ms.1, s.time_range_ms.0) < min_ms && out.len() > 0 {
            let m = SectionModel {
                time_range_ms: (out.last().time_range_ms.0, s.time_range_ms.1),
                segment_indices: out.last().segment_indices + s.segment_indices,
            };
            assert(out.drop_last().push(m).drop_last() == out.drop_last());
            assert(out == out.drop_last().push(out.last()));
            assert(flatten_indices(out) == flatten_indices(out.drop_last())
                + out.last().segment_indices);
            assert(flatten_indices(out.drop_last().push(m)) =~= flatten_indices(out)
                + s.segment_indices);
        } else {
            assert(out.push(s).drop_last() == out);
        }
    }
}

/// Every segment lands in exactly one section, and reading the sections in
/// order reads the segments in order: the sections' indices, concatenated,
/// are `0, 1, .., n-1`.
pub proof fn lemma_topic_sections_partition(segs: Seq<Segment>, cfg: TopicSegmentationConfig)
    ensures
        flatten_indices(topic_sections(segs, cfg)) == index_range(0, segs.len() as int),
{
    if segs.len() == 0 {
        assert(index_range(0, 0) =~= Seq::<usize>::empty());
    } else {
        lemma_build_invariant(segs, cfg, segs.len() as nat);
        let b = build_sections(segs, cfg, segs.len() as nat);
        lemma_merge_short_flatten(b.0.push(b.1), cfg.min_section_ms);
        assert(b.0.push(b.1).drop_last() == b.0);
    }
}

proof fn lemma_build_invariant(segs: Seq<Segment>, cfg: TopicSegmentationConfig, n: nat)
    requires
        1 <= n <= segs.len(),
    ensures
        exists|start: int|
            #[trigger] build_state_ok(
                segs,
                cfg,
                n,
                build_sections(segs, cfg, n).0,
                build_sections(segs, cfg, n).1,
                start,
            ),
    decreases n,
{
    if n == 1 {
        assert(index_range(0, 1) =~= seq![0usize]);
        assert(flatten_indices(Seq::<SectionModel>::empty()) =~= Seq::<usize>::empty());
        assert(build_state_ok(
            segs,
            cfg,
            1,
            build_sections(segs, cfg, 1).0,
            build_sections(segs, cfg, 1).1,
            0,
        ));
    } else {
        lemma_build_invariant(segs, cfg, (n - 1) as nat);
        let start = choose|start: int|
            #[trigger] build_state_ok(
                segs,
                cfg,
                (n - 1) as nat,
                build_sections(segs, cfg, (n - 1) as nat).0,
                build_sections(segs, cfg, (n - 1) as nat).1,
                start,
            );
        lemma_build_step(segs, cfg, (n - 1) as nat, start);
    }
}

/// Section ends never go back: each ends no earlier than those before it.
pub open spec fn ends_ordered(secs: Seq<SectionModel>) -> bool {
    forall|i: int, j: int| 0 <= i < j < secs.len() ==> (#[trigger] secs[i]).time_range_ms.1 <= (#[trigger] secs[j]).time_range_ms.1
}

/// A section has segments, and its range runs from its first segment's
/// start to its last segment's end.
pub open spec fn spans_its_segments(segs: Seq<Segment>, sec: SectionModel) -> bool {
    &&& sec.segment_indices.len() > 0
    &&& sec.time_range_ms.0 == segs[sec.segment_indices[0] as int].start_ms
    &&& sec.time_range_ms.1 == segs[sec.segment_indices.last() as int].end_ms
}

/// Segment ends never go back.
pub open spec fn segment_ends_ordered(segs: Seq<Segment>) -> bool {
    forall|i: int, j: int| 0 <= i <= j < segs.len() ==> (#[trigger] segs[i]).end_ms <= (#[trigger] segs[j]).end_ms
}

proof fn lemma_build_shape(segs: Seq<Segment>, cfg: TopicSegmentationConfig, n: nat)
    requires
        1 <= n <= segs.len(),
        segs.len() <= usize::MAX,
        segment_ends_ordered(segs),
    ensures
        ({
            let b = build_sections(segs, cfg, n);
            let all = b.0.push(b.1);
            &&& ends_ordered(all)
            &&& b.1.time_range_ms.1 == segs[n - 1].end_ms
            &&& b.1.segment_indices.last() == n - 1
            &&& forall|k: int| 0 <= k < all.len() ==> spans_its_segments(segs, #[trigger] all[k])
        }),
    decreases n,
{
    if n > 1 {
        lemma_build_shape(segs, cfg, (n - 1) as nat);
        let prev = build_sections(segs, cfg, (n - 1) as nat);
        let pall = prev.0.push(prev.1);
        let b = build_sections(segs, cfg, n);
        let all = b.0.push(b.1);
        let i = n - 1;
        assert(segs[i - 1].end_ms <= segs[i].end_ms);
        if opens_section(segs, cfg, prev.1, i) {
            assert(b.0 == pall);
            assert forall|x: int, y: int| 0 <= x < y < all.len() implies (#[trigger] all[x]).time_range_ms.1 <= (#[trigger] all[y]).time_range_ms.1 by {
                if y == all.len() - 1 {
                    assert(all[x] == pall[x]);
                    if x < pall.len() - 1 {
                        assert(pall[x].time_range_ms.1 <= pall[pall.len() - 1].time_range_ms.1);
                    }
                } else {
                    assert(all[x] == pall[x] && all[y] == pall[y]);
                }
            }
            assert(b.1.segment_indices == seq![i as usize]);
            assert(b.1.segment_indices[0] == i as usize && b.1.segment_indices.last() == i as usize);
            assert forall|k: int| 0 <= k < all.len() implies spans_its_segments(segs, #[trigger] all[k]) by {
                if k < pall.len() {
                    assert(all[k] == pall[k]);
                }
            }
        } else {
            assert(b.0 == prev.0);
            assert(b.1.segment_indices == prev.1.segment_indices.push(i as usize));
            assert forall|x: int, y: int| 0 <= x < y < all.len() implies (#[trigger] all[x]).time_range_ms.1 <= (#[trigger] all[y]).time_range_ms.1 by {
                assert(all[x] == pall[x]);
                if y == all.len() - 1 {
                    assert(pall[x].time_range_ms.1 <= pall[pall.len() - 1].time_range_ms.1);
                } else {
                    assert(all[y] == pall[y]);
                }
            }
            assert forall|k: int| 0 <= k < all.len() implies spans_its_segments(segs, #[trigger] all[k]) by {
                if k < all.len() - 1 {
                    assert(all[k] == pall[k]);
                } else {
                    assert(pall[pall.len() - 1] == prev.1);
                    assert(spans_its_segments(segs, prev.1));
                    assert(b.1.segment_indices[0] == prev.1.segment_indices[0]);
                    assert(b.1.segment_indices.last() == i as usize);
                }
            }
        }
    } else {
        let b = build_sections(segs, cfg, n);
        assert(b.0.push(b.1) =~= seq![b.1]);
    }
}

proof fn lemma_merge_short_shape(segs: Seq<Segment>, secs: Seq<SectionModel>, min_ms: u64)
    requires
        ends_ordered(secs),
        forall|k: int| 0 <= k < secs.len() ==> spans_its_segments(segs, #[trigger] secs[k]),
    ensures
        ({
            let out = merge_short(secs, min_ms);
            &&& forall|k: int| 1 <= k < out.len() ==> sat_sub((#[trigger] out[k]).time_range_ms.1, out[k].time_range_ms.0) >= min_ms
            &&& forall|k: int| 0 <= k < out.len() ==> spans_its_segments(segs, #[trigger] out[k])
            &&& secs.len() > 0 ==> out.len() > 0 && out.last().time_range_ms.1 == secs.last().time_range_ms.1
        }),
    decreases secs.len(),
{
    if secs.len() > 0 {
        let d = secs.drop_last();
        assert forall|x: int, y: int| 0 <= x < y < d.len() implies (#[trigger] d[x]).time_range_ms.1 <= (#[trigger] d[y]).time_range_ms.1 by {
            assert(d[x] == secs[x] && d[y] == secs[y]);
        }
        assert forall|k: int| 0 <= k < d.len() implies spans_its_segments(segs, #[trigger] d[k]) by {
            assert(d[k] == secs[k]);
        }
        lemma_merge_short_shape(segs, d, min_ms);
        let out = merge_short(d, min_ms);
        let s = secs.last();
        assert(spans_its_segments(segs, secs[secs.len() - 1]));
        if sat_sub(s.time_range_ms.1, s.time_range_ms.0) < min_ms && out.len() > 0 {
            let m = SectionModel {
                time_range_ms: (out.last().time_range_ms.0, s.time_range_ms.1),
                segment_indices: out.last().segment_indices + s.segment_indices,
            };
            let r = out.drop_last().push(m);
            assert(d.len() > 0);
            assert(out.last().time_range_ms.1 == d.last().time_range_ms.1);
            assert(d.last().time_range_ms.1 <= s.time_range_ms.1) by {
                assert(d.last() == secs[secs.len() - 2]);
            }
            assert(spans_its_segments(segs, out[out.len() - 1]));
            assert(spans_its_segments(segs, m)) by {
                assert(m.segment_indices[0] == out.last().segment_indices[0]);
                assert(m.segment_indices.last() == s.segment_indices.last());
            }
            assert forall|k: int| 1 <= k < r.len() implies sat_sub((#[trigger] r[k]).time_range_ms.1, r[k].time_range_ms.0) >= min_ms by {
                if k < r.len() - 1 {
                    assert(r[k] == out[k]);
                } else {
                    assert(sat_sub(out[k].time_range_ms.1, out[k].time_range_ms.0) >= min_ms);
                }
            }
            assert forall|k: int| 0 <= k < r.len() implies spans_its_segments(segs, #[trigger] r[k]) by {
                if k < r.len() - 1 {
                    assert(r[k] == out[k]);
                }
            }
        } else {
            let r = out.push(s);
            assert forall|k: int| 1 <= k < r.len() implies sat_sub((#[trigger] r[k]).time_range_ms.1, r[k].time_range_ms.0) >= min_ms by {
                if k < r.len() - 1 {
                    assert(r[k] == out[k]);
                }
            }
            assert forall|k: int| 0 <= k < r.len() implies spans_its_segments(segs, #[trigger] r[k]) by {
                if k < r.len() - 1 {
                    assert(r[k] == out[k]);
                }
            }
        }
    }
}

/// For segments whose ends never go back, every section after the first
/// lasts at least `min_section_ms`, and every section runs from its first
/// segment's start to its last segment's end.
pub proof fn law_sections_meet_minimum(segs: Seq<Segment>, cfg: TopicSegmentationConfig)
    requires
        segs.len() <= usize::MAX,
        segment_ends_ordered(segs),
    ensures
        ({
            let r = topic_sections(segs, cfg);
            &&& forall|k: int| 1 <= k < r.len() ==> sat_sub((#[trigger] r[k]).time_range_ms.1, r[k].time_range_ms.0)
                >= cfg.min_section_ms
            &&& forall|k: int| 0 <= k < r.len() ==> spans_its_segments(segs, #[trigger] r[k])
        }),
{
    if segs.len() > 0 {
        lemma_build_shape(segs, cfg, segs.len() as nat);
        let b = build_sections(segs, cfg, segs.len() as nat);
        lemma_merge_short_shape(segs, b.0.push(b.1), cfg.min_section_ms);
    }
}

/// How many of `secs` last at least `min_ms`, the first one counted
/// whatever its length.
pub open spec fn long_section_count(secs: Seq<SectionModel>, min_ms: u64) -> nat
    decreases secs.len(),
{
    if secs.len() == 0 {
        0
    } else {
        long_section_count(secs.drop_last(), min_ms) + if secs.len() == 1 || sat_sub(
            secs.last().time_range_ms.1,
            secs.last().time_range_ms.0,
        ) >= min_ms {
            1nat
        } else {
            0nat
        }
    }
}

/// Folding short sections keeps exactly one section per section that lasts
/// at least `min_ms` (and the first one): no section that long is folded
/// away, and every shorter one after the first is.
pub proof fn law_merge_short_keeps_long_sections(secs: Seq<SectionModel>, min_ms: u64)
    ensures
        merge_short(secs, min_ms).len() == long_section_count(secs, min_ms),
    decreases secs.len(),
{
    if secs.len() > 0 {
        law_merge_short_keeps_long_sections(secs.drop_last(), min_ms);
        if secs.len() == 1 {
            assert(merge_short(secs.drop_last(), min_ms).len() == 0);
        } else {
            assert(long_section_count(secs.drop_last(), min_ms) > 0) by {
                lemma_long_count_positive(secs.drop_last(), min_ms);
            }
        }
    }
}

proof fn lemma_long_count_positive(secs: Seq<SectionModel>, min_ms: u64)
    requires
        secs.len() > 0,
    ensures
        long_section_count(secs, min_ms) > 0,
    decreases secs.len(),
{
    if secs.len() > 1 {
        lemma_long_count_positive(secs.drop_last(), min_ms);
    }
}

} // verus!
