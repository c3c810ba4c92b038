//! The conformance suite for `Diarizer` adapters, run on the
//! `multi_speaker_60s` fixture.
//!
//! The returned turns must be non-empty, name at least two speakers, each
//! run forward, not overlap the one before, and cover at least 20 s (the
//! fixture's synthetic speech has long pauses, observed coverage is about
//! 24 s of 60 s). A real adapter must also re-identify the speaker who
//! dominates the first 20 s as the one who dominates the last 20 s.

use vstd::prelude::*;

use crate::diar::{Diarizer, SpeakerTurn};


verus! {

/// The coverage the fixture must reach, in milliseconds.
pub const MIN_COVERAGE_MS: u64 = 20_000;

/// The length of a turn (zero for a turn that runs backwards).
pub open spec fn turn_len(t: SpeakerTurn) -> nat {
    if t.end_ms >= t.start_ms {
        (t.end_ms - t.start_ms) as nat
    } else {
        0
    }
}

/// The summed length of the turns.
pub open spec fn coverage(t: Seq<SpeakerTurn>) -> nat
    decreases t.len(),
{
    if t.len() == 0 {
        0
    } else {
        coverage(t.drop_last()) + turn_len(t.last())
    }
}

/// Every turn runs forward and starts no earlier than the previous one
/// ended.
pub open spec fn well_ordered(t: Seq<SpeakerTurn>) -> bool {
    forall|i: int|
        0 <= i < t.len() ==> (#[trigger] t[i]).start_ms <= t[i].end_ms && (i > 0 ==> t[i - 1].end_ms
            <= t[i].start_ms)
}

/// At least two distinct speakers appear.
pub open spec fn two_speakers(t: Seq<SpeakerTurn>) -> bool {
    exists|i: int, j: int|
        0 <= i < t.len() && 0 <= j < t.len() && (#[trigger] t[i]).speaker_id != (
        #[trigger] t[j]).speaker_id
}

/// The part of a turn inside the window `[lo, hi)`.
pub open spec fn clipped(t: SpeakerTurn, lo: u64, hi: u64) -> nat {
    let a = if lo > t.start_ms {
        lo
    } else {
        t.start_ms
    };
    let b = if hi < t.end_ms {
        hi
    } else {
        t.end_ms
    };
    if b > a {
        (b - a) as nat
    } else {
        0
    }
}

/// How long `speaker` talks inside the window `[lo, hi)`.
pub open spec fn speaker_time(t: Seq<SpeakerTurn>, speaker: u32, lo: u64, hi: u64) -> nat
    decreases t.len(),
{
    if t.len() == 0 {
        0
    } else {
        speaker_time(t.drop_last(), speaker, lo, hi) + if t.last().speaker_id == speaker {
            clipped(t.last(), lo, hi)
        } else {
            0
        }
    }
}

/// The speaker of turn `i` talks longest in the window, and no earlier turn
/// belongs to a speaker who talks as long.
pub open spec fn dominant_at(t: Seq<SpeakerTurn>, lo: u64, hi: u64, i: int) -> bool {
    &&& 0 <= i < t.len()
    &&& speaker_time(t, t[i].speaker_id, lo, hi) > 0
    &&& forall|j: int|
        0 <= j < t.len() ==> speaker_time(t, (#[trigger] t[j]).speaker_id, lo, hi) <= speaker_time(
            t,
            t[i].speaker_id,
            lo,
            hi,
        )
    &&& forall|j: int|
        0 <= j < i ==> speaker_time(t, (#[trigger] t[j]).speaker_id, lo, hi) < speaker_time(
            t,
            t[i].speaker_id,
            lo,
            hi,
        )
}

/// The speaker who talks longest in `[lo, hi)` (the first to appear among
/// equals), if anyone talks there.
pub open spec fn window_dominant(t: Seq<SpeakerTurn>, lo: u64, hi: u64) -> Option<u32> {
    if exists|i: int| dominant_at(t, lo, hi, i) {
        Some(t[choose|i: int| dominant_at(t, lo, hi, i)].speaker_id)
    } else {
        None
    }
}

/// Whether the turns pass the suite.
pub open spec fn turns_conform(t: Seq<SpeakerTurn>, is_fake: bool) -> bool {
    &&& t.len() > 0
    &&& two_speakers(t)
    &&& well_ordered(t)
    &&& coverage(t) >= MIN_COVERAGE_MS
    &&& !is_fake ==> {
        &&& window_dominant(t, 0, 20_000) is Some
        &&& window_dominant(t, 0, 20_000) == window_dominant(t, 40_000, 60_000)
    }
}

proof fn lemma_dominant_unique(t: Seq<SpeakerTurn>, lo: u64, hi: u64, i: int)
    requires
        dominant_at(t, lo, hi, i),
    ensures
        window_dominant(t, lo, hi) == Some(t[i].speaker_id),
{
    let c = choose|k: int| dominant_at(t, lo, hi, k);
    assert(dominant_at(t, lo, hi, c));
    if c < i {
        assert(speaker_time(t, t[c].speaker_id, lo, hi) < speaker_time(t, t[i].speaker_id, lo, hi));
    } else if i < c {
        assert(speaker_time(t, t[i].speaker_id, lo, hi) < speaker_time(t, t[c].speaker_id, lo, hi));
    }
}

/// How long `speaker` talks inside `[lo, hi)`.
fn talk_time(turns: &Vec<SpeakerTurn>, speaker: u32, lo: u64, hi: u64) -> (r: u128)
    requires
        lo <= hi,
    ensures
        r == speaker_time(turns@, speaker, lo, hi),
{
    let mut total: u128 = 0;
    let mut j: usize = 0;
    while j < turns.len()
        invariant
            j <= turns.len(),
            lo <= hi,
            total == speaker_time(turns@.take(j as int), speaker, lo, hi),
            total <= j * (hi - lo),
        decreases turns.len() - j,
    {
        let t = turns[j];
        let a = if lo > t.start_ms {
            lo
        } else {
            t.start_ms
        };
        let b = if hi < t.end_ms {
            hi
        } else {
            t.end_ms
        };
        assert(turns@.take(j + 1).drop_last() =~= turns@.take(j as int));
        assert(turns@.take(j + 1).last() == t);
        if t.speaker_id == speaker && b > a {
            assert(b - a <= hi - lo);
            assert(total + (b - a) <= (j + 1) * (hi - lo)) by (nonlinear_arith)
                requires
                    total <= j * (hi - lo),
                    b - a <= hi - lo,
            ;
            assert((j + 1) * (hi - lo) <= 0x1_0000_0000_0000_0000 * 0xFFFF_FFFF_FFFF_FFFF)
                by (nonlinear_arith)
                requires
                    j < 0x1_0000_0000_0000_0000,
                    hi - lo <= 0xFFFF_FFFF_FFFF_FFFF,
                    hi >= lo,
            ;
            total = total + ((b - a) as u128);
        } else {
            assert(total <= (j + 1) * (hi - lo)) by (nonlinear_arith)
                requires
                    total <= j * (hi - lo),
                    hi >= lo,
            ;
        }
        j = j + 1;
    }
    assert(turns@.take(j as int) =~= turns@);
    total
}

/// The speaker who talks longest in `[lo, hi)`, first to appear among
/// equals.
fn dominant_in_window(turns: &Vec<SpeakerTurn>, lo: u64, hi: u64) -> (r: Option<u32>)
    requires
        lo <= hi,
    ensures
        r == window_dominant(turns@, lo, hi),
{
    let ghost t = turns@;
    let mut best: usize = 0;
    let mut best_time: u128 = 0;
    let mut i: usize = 0;
    while i < turns.len()
        invariant
            i <= turns.len(),
            t == turns@,
            lo <= hi,
            forall|j: int|
                0 <= j < i ==> speaker_time(t, (#[trigger] t[j]).speaker_id, lo, hi) <= best_time,
            best_time > 0 ==> best < i && speaker_time(t, t[best as int].speaker_id, lo, hi)
                == best_time && forall|j: int|
                0 <= j < best ==> speaker_time(t, (#[trigger] t[j]).speaker_id, lo, hi)
                    < best_time,
        decreases turns.len() - i,
    {
        let time = talk_time(turns, turns[i].speaker_id, lo, hi);
        if time > best_time {
            best = i;
            best_time = time;
        }
        i = i + 1;
    }
    if best_time > 0 {
        proof {
            lemma_dominant_unique(t, lo, hi, best as int);
        }
        Some(turns[best].speaker_id)
    } else {
        proof {
            if exists|k: int| dominant_at(t, lo, hi, k) {
                let k = choose|k: int| dominant_at(t, lo, hi, k);
                assert(speaker_time(t, t[k].speaker_id, lo, hi) <= best_time);
            }
        }
        None
    }
}

/// Whether at least two distinct speakers appear.
fn has_two_speakers(turns: &Vec<SpeakerTurn>) -> (r: bool)
    requires
        turns.len() > 0,
    ensures
        r == two_speakers(turns@),
{
    let first = turns[0].speaker_id;
    let mut i: usize = 1;
    while i < turns.len()
        invariant
            1 <= i <= turns.len(),
            first == turns@[0].speaker_id,
            forall|j: int| 0 <= j < i ==> (#[trigger] turns@[j]).speaker_id == first,
        decreases turns.len() - i,
    {
        if turns[i].speaker_id != first {
            assert(turns@[0].speaker_id != turns@[i as int].speaker_id);
            return true;
        }
        i = i + 1;
    }
    false
}

/// Checks returned turns against the suite; `Err` names the first check
/// that failed.
pub fn check_turns(turns: &Vec<SpeakerTurn>, is_fake: bool) -> (r: Result<(), String>)
    ensures
        r is Ok <==> turns_conform(turns@, is_fake),
{
    if turns.len() == 0 {
        return Err("[multi_speaker_60s] no turns returned".to_owned());
    }
    if !has_two_speakers(turns) {
        return Err("[multi_speaker_60s] expected >=2 distinct speakers".to_owned());
    }
    let mut prev_end: u64 = 0;
    let mut covered: u64 = 0;
    let mut i: usize = 0;
    while i < turns.len()
        invariant
            i <= turns.len(),
            turns.len() > 0,
            i > 0 ==> prev_end == turns@[i - 1].end_ms,
            i == 0 ==> prev_end == 0,
            forall|j: int|
                0 <= j < i ==> (#[trigger] turns@[j]).start_ms <= turns@[j].end_ms && (j > 0
                    ==> turns@[j - 1].end_ms <= turns@[j].start_ms),
            covered == coverage(turns@.take(i as int)),
            covered <= prev_end,
        decreases turns.len() - i,
    {
        let t = turns[i];
        if t.start_ms > t.end_ms {
            return Err("[multi_speaker_60s] a turn starts after it ends".to_owned());
        }
        if t.start_ms < prev_end {
            assert(i > 0);
            return Err("[multi_speaker_60s] a turn overlaps the previous one".to_owned());
        }
        assert(turns@.take(i + 1).drop_last() =~= turns@.take(i as int));
        covered = covered + (t.end_ms - t.start_ms);
        prev_end = t.end_ms;
        i = i + 1;
    }
    assert(turns@.take(i as int) =~= turns@);
    if covered < MIN_COVERAGE_MS {
        return Err("[multi_speaker_60s] coverage below 20000 ms".to_owned());
    }
    if !is_fake {
        let first = dominant_in_window(turns, 0, 20_000);
        let third = dominant_in_window(turns, 40_000, 60_000);
        match (first, third) {
            (Some(a), Some(b)) => {
                if a != b {
                    return Err("[multi_speaker_60s] speaker re-identification failed".to_owned());
                }
            },
            (None, _) => {
                return Err("[multi_speaker_60s] no dominant speaker in 0-20s".to_owned());
            },
            (_, None) => {
                return Err("[multi_speaker_60s] no dominant speaker in 40-60s".to_owned());
            },
        }
    }
    Ok(())
}

/// The fixture the suite diarizes: `<fixtures_dir>/audio/multi_speaker_60s.wav`.
pub open spec fn suite_audio(fixtures_dir: std::path::PathBuf) -> std::path::PathBuf {
    crate::stdtypes::joined_path(crate::stdtypes::joined_path(fixtures_dir, "audio"@), "multi_speaker_60s.wav"@)
}

/// Runs the suite: diarizes `<fixtures_dir>/audio/multi_speaker_60s.wav`
/// and checks the turns (`turns_conform`). `Err` names the first check
/// that failed.
pub fn run_suite<D: Diarizer>(provider: &D, fixtures_dir: &std::path::PathBuf) -> (r: Result<
    (),
    String,
>)
    ensures
        exists|answer: Result<Vec<crate::diar::SpeakerTurn>, crate::diar::DiarError>|
            #[trigger] provider.diarizes(suite_audio(*fixtures_dir), answer) && (r is Ok <==> (answer matches Ok(
                t,
            ) && turns_conform(t@, provider.reports_fake()))),
{
    let audio_dir = crate::stdtypes::path_join(fixtures_dir, "audio");
    let audio = crate::stdtypes::path_join(&audio_dir, "multi_speaker_60s.wav");
    let answer = provider.diarize(&audio);
    let ghost ans = answer;
    assert(audio == suite_audio(*fixtures_dir));
    assert(provider.diarizes(suite_audio(*fixtures_dir), ans));
    match answer {
        Ok(turns) => {
            let fake = provider.is_fake();
            check_turns(&turns, fake)
        },
        Err(e) => Err(
            crate::stdtypes::prefixed("[multi_speaker_60s] diarize failed: ", e.message().as_str()),
        ),
    }
}

} // verus!
