//! The raw-transcript sidecar: the recognised segments rendered as a
//! grep-friendly text, one line per segment, written next to the notes.

use vstd::prelude::*;

use crate::segment::Segment;
use crate::text::{
    chars_of, decimal, push_char, push_chars, push_decimal, push_str, push_zero_padded, trim_chars,
    trim_spec, zero_padded,
};

verus! {

/// File name of the raw-transcript sidecar.
pub const RAW_TRANSCRIPT_FILENAME: &'static str = "transcript.txt";

/// `m:ss.mmm` for a millisecond timestamp (minutes unpadded).
pub open spec fn ts_text(ms: u64) -> Seq<char> {
    let total_s = ms / 1000;
    decimal((total_s / 60) as nat) + seq![':'] + zero_padded((total_s % 60) as nat, 2) + seq!['.']
        + zero_padded((ms % 1000) as nat, 3)
}

/// The value a rendered timestamp spells: minutes, seconds and
/// milliseconds read back from the text.
pub open spec fn ts_value(t: Seq<char>) -> int {
    let n = t.len() as int;
    (crate::text::digits_value(t.subrange(0, n - 7)) * 60_000 + crate::text::digits_value(
        t.subrange(n - 6, n - 4),
    ) * 1000 + crate::text::digits_value(t.subrange(n - 3, n))) as int
}

proof fn lemma_digit(d: nat)
    requires
        d < 10,
    ensures
        crate::text::digit_value(crate::text::digit_char(d)) == d,
{
}

/// A decimal rendering reads back as its number.
proof fn lemma_decimal_value(n: nat)
    ensures
        crate::text::digits_value(decimal(n)) == n,
        n < 10 ==> decimal(n).len() == 1,
        10 <= n < 100 ==> decimal(n).len() == 2,
        100 <= n < 1000 ==> decimal(n).len() == 3,
    decreases n,
{
    if n < 10 {
        lemma_digit(n);
        let d = seq![crate::text::digit_char(n)];
        assert(d.drop_last() =~= Seq::<char>::empty());
        assert(crate::text::digits_value(Seq::<char>::empty()) == 0);
        assert(d.last() == crate::text::digit_char(n));
        assert(crate::text::digits_value(d) == crate::text::digits_value(d.drop_last()) * 10
            + crate::text::digit_value(d.last()));
        assert(decimal(n) == d);
    } else {
        lemma_decimal_value(n / 10);
        lemma_digit(n % 10);
        let d = decimal(n / 10).push(crate::text::digit_char(n % 10));
        assert(d.drop_last() == decimal(n / 10));
        assert(decimal(n) == d);
        assert(crate::text::digits_value(d) == crate::text::digits_value(d.drop_last()) * 10
            + crate::text::digit_value(d.last()));
        assert(n == (n / 10) * 10 + n % 10) by (nonlinear_arith);
        assert(n < 100 ==> n / 10 < 10) by (nonlinear_arith);
        assert(100 <= n < 1000 ==> 10 <= n / 10 < 100) by (nonlinear_arith);
    }
}

/// A leading zero does not change the value a digit string spells.
proof fn lemma_leading_zero(s: Seq<char>)
    ensures
        crate::text::digits_value(seq!['0'] + s) == crate::text::digits_value(s),
    decreases s.len(),
{
    let z = seq!['0'] + s;
    if s.len() == 0 {
        assert(z =~= seq!['0']);
        assert(z.drop_last() =~= Seq::<char>::empty());
        assert(crate::text::digits_value(z) == crate::text::digits_value(z.drop_last()) * 10
            + crate::text::digit_value(z.last()));
    } else {
        lemma_leading_zero(s.drop_last());
        assert(z.drop_last() =~= seq!['0'] + s.drop_last());
        assert(z.last() == s.last());
        assert(crate::text::digits_value(z) == crate::text::digits_value(z.drop_last()) * 10
            + crate::text::digit_value(z.last()));
    }
}

/// A zero-padded number is `width` characters that read back as it.
proof fn lemma_zero_padded_value(n: nat, width: nat)
    requires
        width == 2 && n < 100 || width == 3 && n < 1000,
    ensures
        zero_padded(n, width).len() == width,
        crate::text::digits_value(zero_padded(n, width)) == n,
{
    lemma_decimal_value(n);
    if width == 3 && n < 10 {
        assert(seq!['0', '0'] + decimal(n) =~= seq!['0'] + (seq!['0'] + decimal(n)));
        lemma_leading_zero(decimal(n));
        lemma_leading_zero(seq!['0'] + decimal(n));
    } else if (width == 3 && n < 100) || (width == 2 && n < 10) {
        lemma_leading_zero(decimal(n));
    }
}

/// Rendered timestamps are lossless: the text reads back as the
/// millisecond value, so two timestamps render alike only when equal.
pub proof fn law_timestamp_round_trip(ms: u64)
    ensures
        ts_value(ts_text(ms)) == ms,
{
    let total_s = ms / 1000;
    let m = (total_s / 60) as nat;
    let sec = (total_s % 60) as nat;
    let milli = (ms % 1000) as nat;
    let a = decimal(m);
    let b = zero_padded(sec, 2);
    let c = zero_padded(milli, 3);
    lemma_decimal_value(m);
    lemma_zero_padded_value(sec, 2);
    lemma_zero_padded_value(milli, 3);
    let t = ts_text(ms);
    assert(t == a + seq![':'] + b + seq!['.'] + c);
    let n = t.len() as int;
    assert(n == a.len() + 7);
    assert(t.subrange(0, n - 7) =~= a);
    assert(t.subrange(n - 6, n - 4) =~= b);
    assert(t.subrange(n - 3, n) =~= c);
    assert(ms == m * 60_000 + sec * 1000 + milli) by (nonlinear_arith)
        requires
            total_s == ms / 1000,
            m == total_s / 60,
            sec == total_s % 60,
            milli == ms % 1000,
    ;
}

/// Two timestamps render alike only when they are equal.
pub proof fn law_timestamp_injective(a: u64, b: u64)
    ensures
        ts_text(a) == ts_text(b) ==> a == b,
{
    law_timestamp_round_trip(a);
    law_timestamp_round_trip(b);
}

/// `speaker_N` for a diarized segment, else `unknown`.
pub open spec fn speaker_label(id: Option<u32>) -> Seq<char> {
    match id {
        Some(n) => "speaker_"@ + decimal(n as nat),
        None => "unknown"@,
    }
}

/// The text with line breaks turned into spaces, then trimmed.
pub open spec fn one_line(text: Seq<char>) -> Seq<char> {
    trim_spec(text.map_values(|c: char| if c == '\n' || c == '\r' { ' ' } else { c }))
}

/// `[start-end] speaker (lang): text` and a line feed.
pub open spec fn raw_line(seg: Segment) -> Seq<char> {
    "["@ + ts_text(seg.start_ms) + "-"@ + ts_text(seg.end_ms) + "] "@ + speaker_label(seg.speaker_id)
        + " ("@ + match seg.language_detected {
        Some(l) => l@,
        None => "und"@,
    } + "): "@ + one_line(seg.text@) + "\n"@
}

/// The lines of `segs`, concatenated.
pub open spec fn raw_transcript(segs: Seq<Segment>) -> Seq<char>
    decreases segs.len(),
{
    if segs.len() == 0 {
        Seq::empty()
    } else {
        raw_transcript(segs.drop_last()) + raw_line(segs.last())
    }
}

/// Appends a `m:ss.mmm` timestamp.
pub fn push_ts(out: &mut String, ms: u64)
    ensures
        final(out)@ == old(out)@ + ts_text(ms),
{
    let ghost start = out@;
    let total_s = ms / 1000;
    push_decimal(out, total_s / 60);
    push_char(out, ':');
    push_zero_padded(out, total_s % 60, 2);
    push_char(out, '.');
    push_zero_padded(out, ms % 1000, 3);
    assert(out@ =~= start + ts_text(ms));
}

/// Appends `speaker_N` or `unknown`.
pub fn push_speaker_label(out: &mut String, id: Option<u32>)
    ensures
        final(out)@ == old(out)@ + speaker_label(id),
{
    match id {
        Some(n) => {
            let ghost start = out@;
            push_str(out, "speaker_");
            push_decimal(out, n as u64);
            assert(out@ =~= start + speaker_label(id));
        },
        None => push_str(out, "unknown"),
    }
}

fn one_line_chars(text: &str) -> (r: Vec<char>)
    ensures
        r@ == one_line(text@),
{
    let cs = chars_of(text);
    let mut mapped: Vec<char> = Vec::new();
    let mut k: usize = 0;
    while k < cs.len()
        invariant
            0 <= k <= cs@.len(),
            cs@ == text@,
            mapped@ == cs@.subrange(0, k as int).map_values(
                |c: char| if c == '\n' || c == '\r' { ' ' } else { c },
            ),
        decreases cs@.len() - k,
    {
        let c = cs[k];
        mapped.push(if c == '\n' || c == '\r' { ' ' } else { c });
        k = k + 1;
        assert(mapped@ =~= cs@.subrange(0, k as int).map_values(
            |c: char| if c == '\n' || c == '\r' { ' ' } else { c },
        ));
    }
    assert(cs@.subrange(0, cs@.len() as int) == cs@);
    trim_chars(&mapped)
}

/// Appends one segment's line.
pub fn push_raw_line(out: &mut String, seg: &Segment)
    ensures
        final(out)@ == old(out)@ + raw_line(*seg),
{
    let ghost start = out@;
    push_str(out, "[");
    push_ts(out, seg.start_ms);
    push_str(out, "-");
    push_ts(out, seg.end_ms);
    push_str(out, "] ");
    push_speaker_label(out, seg.speaker_id);
    push_str(out, " (");
    match &seg.language_detected {
        Some(l) => push_str(out, l.as_str()),
        None => push_str(out, "und"),
    }
    push_str(out, "): ");
    let body = one_line_chars(seg.text.as_str());
    push_chars(out, &body);
    push_str(out, "\n");
    assert(out@ =~= start + raw_line(*seg));
}

/// Render raw segments to the transcript body: one line per segment,
/// `[m:ss.mmm-m:ss.mmm] <speaker> (<lang>): <text>`, where the speaker is
/// `speaker_N` or `unknown`, the language is the detected code or `und`, and
/// the text has its line breaks turned into spaces and is trimmed.
pub fn render_raw_transcript(segments: &[Segment]) -> (r: String)
    ensures
        r@ == raw_transcript(segments@),
{
    let mut out = String::new();
    let mut k: usize = 0;
    while k < segments.len()
        invariant
            0 <= k <= segments@.len(),
            out@ == raw_transcript(segments@.subrange(0, k as int)),
        decreases segments@.len() - k,
    {
        push_raw_line(&mut out, &segments[k]);
        k = k + 1;
        assert(segments@.subrange(0, k as int).drop_last() =~= segments@.subrange(0, k - 1 as int));
    }
    assert(segments@.subrange(0, segments@.len() as int) == segments@);
    out
}

} // verus!
