//! Maps screenshot timestamps to sections produced by topic segmentation.
//!
//! Half-open intervals (`time_range_ms.0 <= ms < time_range_ms.1`).
//! Out-of-range screenshots attach to the section whose midpoint is nearest.

use vstd::prelude::*;

use super::ir::Screenshot;
use super::topic_segmentation::RawSection;

verus! {

/// Whether `ms` falls in the half-open range `r`.
pub open spec fn in_range(r: (u64, u64), ms: u64) -> bool {
    r.0 <= ms && ms < r.1
}

/// Midpoint of a well-formed range.
pub open spec fn midpoint(r: (u64, u64)) -> int {
    r.0 + (r.1 - r.0) / 2
}

pub open spec fn abs_diff(a: int, b: int) -> int {
    if a >= b { a - b } else { b - a }
}

/// The first of `ranges[0..n]` that contains `ms`.
pub open spec fn first_containing(ranges: Seq<(u64, u64)>, ms: u64, n: nat) -> Option<int>
    decreases n,
{
    if n == 0 {
        None
    } else {
        match first_containing(ranges, ms, (n - 1) as nat) {
            Some(i) => Some(i),
            None => if in_range(ranges[n - 1], ms) { Some(n - 1) } else { None },
        }
    }
}

/// Among `ranges[0..n]` (n >= 1), the first one whose midpoint is nearest `ms`.
pub open spec fn nearest_midpoint(ranges: Seq<(u64, u64)>, ms: u64, n: nat) -> int
    decreases n,
{
    if n <= 1 {
        0
    } else {
        let b = nearest_midpoint(ranges, ms, (n - 1) as nat);
        if abs_diff(midpoint(ranges[n - 1]), ms as int) < abs_diff(midpoint(ranges[b]), ms as int) {
            n - 1
        } else {
            b
        }
    }
}

/// The section a screenshot at `ms` belongs to.
pub open spec fn section_index_for(ranges: Seq<(u64, u64)>, ms: u64) -> int {
    match first_containing(ranges, ms, ranges.len()) {
        Some(i) => i,
        None => nearest_midpoint(ranges, ms, ranges.len()),
    }
}

pub open spec fn ranges_of(sections: Seq<RawSection>) -> Seq<(u64, u64)> {
    sections.map_values(|s: RawSection| s.time_range_ms)
}

/// Every range has `start <= end`.
pub open spec fn ranges_well_formed(ranges: Seq<(u64, u64)>) -> bool {
    forall|i: int| 0 <= i < ranges.len() ==> #[trigger] ranges[i].0 <= ranges[i].1
}

/// The screenshots of `shots`, in order, that land in section `i`.
pub open spec fn shots_for_section(
    ranges: Seq<(u64, u64)>,
    shots: Seq<Screenshot>,
    i: int,
) -> Seq<Screenshot> {
    shots.filter(|s: Screenshot| section_index_for(ranges, s.ms_since_start) == i)
}

/// `first_containing` finds the first containing range, and nothing else.
pub proof fn lemma_first_containing(ranges: Seq<(u64, u64)>, ms: u64, n: nat)
    requires
        n <= ranges.len(),
    ensures
        first_containing(ranges, ms, n) matches Some(i) ==> 0 <= i < n && in_range(ranges[i], ms)
            && forall|j: int| 0 <= j < i ==> !in_range(#[trigger] ranges[j], ms),
        first_containing(ranges, ms, n) is None ==> forall|j: int|
            0 <= j < n ==> !in_range(#[trigger] ranges[j], ms),
    decreases n,
{
    if n > 0 {
        lemma_first_containing(ranges, ms, (n - 1) as nat);
    }
}

/// `nearest_midpoint` is an index whose midpoint distance is minimal, and the
/// first such index.
pub proof fn lemma_nearest_midpoint(ranges: Seq<(u64, u64)>, ms: u64, n: nat)
    requires
        1 <= n <= ranges.len(),
    ensures
        0 <= nearest_midpoint(ranges, ms, n) < n,
        forall|j: int|
            0 <= j < n ==> abs_diff(midpoint(ranges[nearest_midpoint(ranges, ms, n)]), ms as int)
                <= abs_diff(midpoint(#[trigger] ranges[j]), ms as int),
        forall|j: int|
            0 <= j < nearest_midpoint(ranges, ms, n) ==> abs_diff(
                midpoint(ranges[nearest_midpoint(ranges, ms, n)]),
                ms as int,
            ) < abs_diff(midpoint(#[trigger] ranges[j]), ms as int),
    decreases n,
{
    if n > 1 {
        lemma_nearest_midpoint(ranges, ms, (n - 1) as nat);
    }
}

fn section_for_timestamp(sections: &[RawSection], ms: u64) -> (r: usize)
    requires
        sections@.len() > 0,
        first_containing(ranges_of(sections@), ms, sections@.len()) is None ==> ranges_well_formed(
            ranges_of(sections@),
        ),
    ensures
        r as int == section_index_for(ranges_of(sections@), ms),
        r < sections@.len(),
{
    let ghost ranges = ranges_of(sections@);
    let mut i: usize = 0;
    while i < sections.len()
        invariant
            0 <= i <= sections.len(),
            ranges == ranges_of(sections@),
            first_containing(ranges, ms, i as nat) is None,
        decreases sections.len() - i,
    {
        let r = sections[i].time_range_ms;
        assert(ranges[i as int] == r);
        if ms >= r.0 && ms < r.1 {
            assert(first_containing(ranges, ms, (i + 1) as nat) == Some(i as int));
            proof {
                lemma_first_containing(ranges, ms, sections@.len() as nat);
                lemma_first_containing(ranges, ms, (i + 1) as nat);
                if first_containing(ranges, ms, sections@.len() as nat) != Some(i as int) {
                    lemma_prefix_containing(ranges, ms, (i + 1) as nat, sections@.len() as nat);
                }
            }
            return i;
        }
        i = i + 1;
    }
    assert(ranges_well_formed(ranges));
    let mut best: usize = 0;
    let mut best_dist: u64 = u64::MAX;
    let mut j: usize = 0;
    while j < sections.len()
        invariant
            0 <= j <= sections.len(),
            sections@.len() > 0,
            ranges == ranges_of(sections@),
            ranges_well_formed(ranges),
            best < sections@.len(),
            j > 0 ==> best < j,
            j == 0 ==> best == 0 && best_dist == u64::MAX,
            j > 0 ==> best as int == nearest_midpoint(ranges, ms, j as nat) && best_dist as int
                == abs_diff(midpoint(ranges[best as int]), ms as int),
        decreases sections.len() - j,
    {
        let r = sections[j].time_range_ms;
        assert(ranges[j as int] == r);
        let mid = r.0 + (r.1 - r.0) / 2;
        let dist = if mid >= ms { mid - ms } else { ms - mid };
        if dist < best_dist {
            best_dist = dist;
            best = j;
        }
        proof {
            if j > 0 {
                assert(nearest_midpoint(ranges, ms, (j + 1) as nat) == if abs_diff(
                    midpoint(ranges[j as int]),
                    ms as int,
                ) < abs_diff(midpoint(ranges[nearest_midpoint(ranges, ms, j as nat)]), ms as int) {
                    j as int
                } else {
                    nearest_midpoint(ranges, ms, j as nat)
                });
            }
        }
        j = j + 1;
    }
    best
}

proof fn lemma_prefix_containing(ranges: Seq<(u64, u64)>, ms: u64, k: nat, n: nat)
    requires
        k <= n,
        first_containing(ranges, ms, k) is Some,
    ensures
        first_containing(ranges, ms, n) == first_containing(ranges, ms, k),
    decreases n - k,
{
    if n > k {
        lemma_prefix_containing(ranges, ms, k, (n - 1) as nat);
    }
}

/// Each section's screenshots, in input order: a screenshot goes to the first
/// section whose half-open range holds its timestamp, else to the section
/// whose midpoint is nearest (the first such on a tie). No sections: an empty
/// list. Ranges must be well formed where a screenshot falls outside all of
/// them.
pub fn anchor_screenshots(sections: &[RawSection], screenshots: &[Screenshot]) -> (r: Vec<
    Vec<Screenshot>,
>)
    requires
        forall|k: int|
            0 <= k < screenshots@.len() ==> first_containing(
                ranges_of(sections@),
                #[trigger] screenshots@[k].ms_since_start,
                sections@.len(),
            ) is None ==> ranges_well_formed(ranges_of(sections@)),
    ensures
        r@.len() == sections@.len(),
        forall|i: int|
            0 <= i < r@.len() ==> #[trigger] r@[i]@ == shots_for_section(
                ranges_of(sections@),
                screenshots@,
                i,
            ),
{
    let ghost ranges = ranges_of(sections@);
    let mut out: Vec<Vec<Screenshot>> = Vec::new();
    let mut i: usize = 0;
    while i < sections.len()
        invariant
            0 <= i <= sections.len(),
            out@.len() == i,
            forall|k: int| 0 <= k < i ==> (#[trigger] out@[k])@ == Seq::<Screenshot>::empty(),
        decreases sections.len() - i,
    {
        out.push(Vec::new());
        i = i + 1;
    }
    if sections.len() == 0 {
        return out;
    }
    let mut j: usize = 0;
    while j < screenshots.len()
        invariant
            0 <= j <= screenshots.len(),
            sections@.len() > 0,
            ranges == ranges_of(sections@),
            out@.len() == sections@.len(),
            forall|k: int|
                0 <= k < screenshots@.len() ==> first_containing(
                    ranges_of(sections@),
                    #[trigger] screenshots@[k].ms_since_start,
                    sections@.len(),
                ) is None ==> ranges_well_formed(ranges_of(sections@)),
            forall|k: int|
                0 <= k < out@.len() ==> (#[trigger] out@[k])@ == shots_for_section(
                    ranges,
                    screenshots@.subrange(0, j as int),
                    k,
                ),
        decreases screenshots.len() - j,
    {
        let shot = screenshots[j].duplicate();
        let idx = section_for_timestamp(sections, shot.ms_since_start);
        let ghost prev = out@;
        let mut bucket = Vec::new();
        std::mem::swap(&mut bucket, &mut out[idx]);
        bucket.push(shot);
        std::mem::swap(&mut bucket, &mut out[idx]);
        proof {
            let pre = screenshots@.subrange(0, j as int);
            let post = screenshots@.subrange(0, j + 1 as int);
            assert(post == pre.push(screenshots@[j as int]));
            assert forall|k: int| 0 <= k < out@.len() implies (#[trigger] out@[k])@
                == shots_for_section(ranges, post, k) by {
                let f = |s: Screenshot| section_index_for(ranges, s.ms_since_start) == k;
                pre.lemma_filter_push(screenshots@[j as int], f);
            }
        }
        j = j + 1;
    }
    assert(screenshots@.subrange(0, screenshots@.len() as int) == screenshots@);
    out
}

/// Every screenshot is attached to exactly one section: the one
/// `section_index_for` names, which is a section of the meeting.
pub proof fn law_each_screenshot_in_one_section(ranges: Seq<(u64, u64)>, shots: Seq<Screenshot>, k: int)
    requires
        ranges.len() > 0,
        0 <= k < shots.len(),
    ensures
        0 <= section_index_for(ranges, shots[k].ms_since_start) < ranges.len(),
        forall|i: int| #[trigger] shots_for_section(ranges, shots, i).contains(shots[k]) <==> i
            == section_index_for(ranges, shots[k].ms_since_start),
{
    let ms = shots[k].ms_since_start;
    lemma_first_containing(ranges, ms, ranges.len());
    lemma_nearest_midpoint(ranges, ms, ranges.len());
    assert forall|i: int| #[trigger] shots_for_section(ranges, shots, i).contains(shots[k]) <==> i
        == section_index_for(ranges, ms) by {
        let f = |s: Screenshot| section_index_for(ranges, s.ms_since_start) == i;
        if i == section_index_for(ranges, ms) {
            shots.lemma_filter_contains(f, k);
        }
        if shots_for_section(ranges, shots, i).contains(shots[k]) {
            let q = choose|q: int| 0 <= q < shots.filter(f).len() && shots.filter(f)[q] == shots[k];
            shots.lemma_filter_pred(f, q);
        }
    }
}

/// The centre of a range, rounded down: half the sum of its ends.
pub open spec fn centre(r: (u64, u64)) -> int {
    (r.0 + r.1) / 2
}

/// A screenshot inside some section goes to the first section that holds
/// it. One outside every (well-formed) section goes to the section whose
/// centre is nearest to it, the first such on a tie.
pub proof fn law_screenshot_section(ranges: Seq<(u64, u64)>, ms: u64)
    requires
        ranges.len() > 0,
        ranges_well_formed(ranges),
    ensures
        ({
            let i = section_index_for(ranges, ms);
            &&& 0 <= i < ranges.len()
            &&& (exists|j: int| 0 <= j < ranges.len() && in_range(#[trigger] ranges[j], ms)) ==> {
                &&& in_range(ranges[i], ms)
                &&& forall|j: int| 0 <= j < i ==> !in_range(#[trigger] ranges[j], ms)
            }
            &&& (forall|j: int| 0 <= j < ranges.len() ==> !in_range(#[trigger] ranges[j], ms)) ==> {
                &&& forall|j: int| 0 <= j < ranges.len() ==> abs_diff(centre(ranges[i]), ms as int)
                    <= abs_diff(centre(#[trigger] ranges[j]), ms as int)
                &&& forall|j: int| 0 <= j < i ==> abs_diff(centre(ranges[i]), ms as int)
                    < abs_diff(centre(#[trigger] ranges[j]), ms as int)
            }
        }),
{
    lemma_first_containing(ranges, ms, ranges.len());
    lemma_nearest_midpoint(ranges, ms, ranges.len());
    assert forall|j: int| 0 <= j < ranges.len() implies midpoint(#[trigger] ranges[j]) == centre(ranges[j]) by {
        let r = ranges[j];
        assert(r.0 <= r.1);
        assert((r.0 + r.1) == 2 * r.0 + (r.1 - r.0));
        assert((2 * r.0 + (r.1 - r.0)) / 2 == r.0 + (r.1 - r.0) / 2) by (nonlinear_arith)
            requires r.0 <= r.1;
    }
    let i = section_index_for(ranges, ms);
    if exists|j: int| 0 <= j < ranges.len() && in_range(#[trigger] ranges[j], ms) {
        let j = choose|j: int| 0 <= j < ranges.len() && in_range(#[trigger] ranges[j], ms);
        assert(first_containing(ranges, ms, ranges.len()) is Some);
    }
}

} // verus!
