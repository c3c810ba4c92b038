//! The conformance checks for speech-recognition adapters: what a returned
//! transcript must satisfy on a fixture. The word-error-rate bound is
//! checked by the caller, which holds the ground truth.

use vstd::prelude::*;

use crate::segment::{Segment, Transcript};

verus! {

/// Every segment runs forward, ends within 100 ms of the audio's end, and
/// starts no earlier than the previous one ended.
pub open spec fn segments_well_placed(segs: Seq<Segment>, audio_ms: u64) -> bool {
    forall|i: int|
        0 <= i < segs.len() ==> (#[trigger] segs[i]).start_ms <= segs[i].end_ms && segs[i].end_ms
            <= audio_ms + 100 && (if i == 0 {
            true
        } else {
            segs[i - 1].end_ms <= segs[i].start_ms
        })
}

/// Some segment has a detected language.
pub open spec fn some_language(segs: Seq<Segment>) -> bool {
    exists|i: int| 0 <= i < segs.len() && (#[trigger] segs[i]).language_detected is Some
}

/// The detected language is `e`.
pub open spec fn language_is(detected: Option<String>, e: &str) -> bool {
    detected matches Some(l) && l@ == e@
}

/// Some segment's detected language is one of `expected`.
pub open spec fn expected_language_found(segs: Seq<Segment>, expected: Seq<&str>) -> bool {
    exists|i: int, j: int|
        0 <= i < segs.len() && 0 <= j < expected.len() && #[trigger] language_is(
            segs[i].language_detected,
            expected[j],
        )
}

/// A transcript passes the checks on a fixture.
pub open spec fn transcript_conforms(t: Transcript, expected: Seq<&str>) -> bool {
    &&& t.segments@.len() > 0
    &&& segments_well_placed(t.segments@, t.audio_duration_ms)
    &&& some_language(t.segments@)
    &&& expected_language_found(t.segments@, expected)
}

fn language_expected(l: &String, expected: &[&str]) -> (r: bool)
    ensures
        r == exists|j: int| 0 <= j < expected@.len() && l@ == (#[trigger] expected@[j])@,
{
    let mut j: usize = 0;
    while j < expected.len()
        invariant
            j <= expected@.len(),
            forall|q: int| 0 <= q < j ==> l@ != (#[trigger] expected@[q])@,
        decreases expected@.len() - j,
    {
        if l.as_str().to_owned() == expected[j].to_owned() {
            return true;
        }
        j = j + 1;
    }
    false
}

/// Checks a transcript an adapter returned for a fixture whose languages
/// are `expected`; `Err` names the first check that failed.
pub fn check_transcript(t: &Transcript, expected: &[&str]) -> (r: Result<(), String>)
    ensures
        r is Ok <==> transcript_conforms(*t, expected@),
{
    let segs = &t.segments;
    if segs.len() == 0 {
        return Err("no segments".to_owned());
    }
    let audio_ms = t.audio_duration_ms;
    let mut prev_end: u64 = 0;
    let mut i: usize = 0;
    while i < segs.len()
        invariant
            i <= segs@.len(),
            segs@ == t.segments@,
            audio_ms == t.audio_duration_ms,
            i > 0 ==> prev_end == segs@[i - 1].end_ms,
            forall|q: int|
                0 <= q < i ==> (#[trigger] segs@[q]).start_ms <= segs@[q].end_ms && segs@[q].end_ms
                    <= audio_ms + 100 && (if q == 0 {
                    true
                } else {
                    segs@[q - 1].end_ms <= segs@[q].start_ms
                }),
        decreases segs@.len() - i,
    {
        let s = &segs[i];
        if s.start_ms > s.end_ms {
            return Err("segment starts after it ends".to_owned());
        }
        if s.end_ms as u128 > audio_ms as u128 + 100 {
            return Err("segment ends past the audio".to_owned());
        }
        if i > 0 && s.start_ms < prev_end {
            return Err("segment overlaps the previous one".to_owned());
        }
        prev_end = s.end_ms;
        i = i + 1;
    }
    let mut any = false;
    let mut matched = false;
    let mut k: usize = 0;
    while k < segs.len()
        invariant
            k <= segs@.len(),
            segs@ == t.segments@,
            any == exists|q: int| 0 <= q < k && (#[trigger] segs@[q]).language_detected is Some,
            matched == exists|q: int, j: int|
                0 <= q < k && 0 <= j < expected@.len() && #[trigger] language_is(
                    segs@[q].language_detected,
                    expected@[j],
                ),
        decreases segs@.len() - k,
    {
        let ghost before = matched;
        match &segs[k].language_detected {
            Some(l) => {
                any = true;
                if language_expected(l, expected) {
                    matched = true;
                    let ghost j = choose|j: int| 0 <= j < expected@.len() && l@ == (#[trigger] expected@[j])@;
                    assert(language_is(segs@[k as int].language_detected, expected@[j]));
                } else {
                    assert forall|j: int| 0 <= j < expected@.len() implies !language_is(
                        segs@[k as int].language_detected,
                        #[trigger] expected@[j],
                    ) by {}
                }
            },
            None => {},
        }
        k = k + 1;
    }
    if !any {
        return Err("no language_detected populated".to_owned());
    }
    if !matched {
        return Err("no expected language detected".to_owned());
    }
    Ok(())
}

} // verus!
