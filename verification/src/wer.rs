//! Word-level edit distance for word error rate: Levenshtein distance over
//! whitespace-split, punctuation-stripped, lowercased words.

use vstd::prelude::*;

use crate::text::{
    ascii_lower, char_is_alphanumeric, char_is_whitespace, chars_of, is_alphanumeric, is_ascii_alphanumeric,
    is_whitespace, lowercase, push_char, to_lowercase,
};

verus! {

/// Words of `s[0..n]`: the closed words and the word in progress.
pub open spec fn split_ws_prefix(s: Seq<char>, n: nat) -> (Seq<Seq<char>>, Seq<char>)
    decreases n,
{
    if n == 0 {
        (Seq::empty(), Seq::empty())
    } else {
        let (done, cur) = split_ws_prefix(s, (n - 1) as nat);
        let c = s[n - 1];
        if char_is_whitespace(c) {
            if cur.len() > 0 { (done.push(cur), Seq::empty()) } else { (done, cur) }
        } else {
            (done, cur.push(c))
        }
    }
}

/// `str::split_whitespace`: the maximal runs of non-whitespace characters.
pub open spec fn split_ws(s: Seq<char>) -> Seq<Seq<char>> {
    let (done, cur) = split_ws_prefix(s, s.len());
    if cur.len() > 0 { done.push(cur) } else { done }
}

/// A word's token: its letters and digits, lowercased.
pub open spec fn word_token(w: Seq<char>) -> Seq<char> {
    lowercase(w.filter(|c: char| char_is_alphanumeric(c)))
}

/// The non-empty tokens of `s`, in order.
pub open spec fn tokens(s: Seq<char>) -> Seq<Seq<char>> {
    split_ws(s).map_values(|w: Seq<char>| word_token(w)).filter(|t: Seq<char>| t.len() > 0)
}

/// Every character of `s` is ASCII.
pub open spec fn all_ascii(s: Seq<char>) -> bool {
    forall|i: int| 0 <= i < s.len() ==> (#[trigger] s[i] as u32) < 128
}

/// An ASCII word's token: its letters and digits, with `A`-`Z` lowered.
pub open spec fn ascii_word_token(w: Seq<char>) -> Seq<char> {
    w.filter(|c: char| is_ascii_alphanumeric(c)).map_values(|c: char| ascii_lower(c))
}

/// The non-empty tokens of an ASCII text, in order.
pub open spec fn ascii_tokens(s: Seq<char>) -> Seq<Seq<char>> {
    split_ws(s).map_values(|w: Seq<char>| ascii_word_token(w)).filter(|t: Seq<char>| t.len() > 0)
}

pub open spec fn strings_view(v: Seq<String>) -> Seq<Seq<char>> {
    v.map_values(|s: String| s@)
}

fn word_to_token(w: &Vec<char>) -> (r: String)
    ensures
        r@ == word_token(w@),
        all_ascii(w@) ==> r@ == ascii_word_token(w@),
{
    let mut kept = String::new();
    let mut k: usize = 0;
    while k < w.len()
        invariant
            0 <= k <= w@.len(),
            kept@ == w@.subrange(0, k as int).filter(|c: char| char_is_alphanumeric(c)),
            all_ascii(w@) ==> kept@ == w@.subrange(0, k as int).filter(|c: char| is_ascii_alphanumeric(c)),
            all_ascii(w@) ==> all_ascii(kept@),
        decreases w@.len() - k,
    {
        let c = w[k];
        let ghost pre = w@.subrange(0, k as int);
        assert(w@.subrange(0, k + 1 as int) == pre.push(c));
        proof {
            pre.lemma_filter_push(c, |c: char| char_is_alphanumeric(c));
            pre.lemma_filter_push(c, |c: char| is_ascii_alphanumeric(c));
            if all_ascii(w@) {
                assert((w@[k as int] as u32) < 128);
            }
        }
        let ghost before = kept@;
        if is_alphanumeric(c) {
            push_char(&mut kept, c);
            assert(kept@ == before.push(c));
        }
        k = k + 1;
    }
    assert(w@.subrange(0, w@.len() as int) == w@);
    to_lowercase(kept.as_str())
}

fn flush_word(out: &mut Vec<String>, cur: &Vec<char>, Ghost(done): Ghost<Seq<Seq<char>>>, Ghost(ascii): Ghost<bool>)
    requires
        strings_view(old(out)@) == done.map_values(|w: Seq<char>| word_token(w)).filter(
            |t: Seq<char>| t.len() > 0,
        ),
        ascii ==> all_ascii(cur@),
        ascii ==> strings_view(old(out)@) == done.map_values(|w: Seq<char>| ascii_word_token(w)).filter(
            |t: Seq<char>| t.len() > 0,
        ),
    ensures
        strings_view(final(out)@) == done.push(cur@).map_values(|w: Seq<char>| word_token(w)).filter(
            |t: Seq<char>| t.len() > 0,
        ),
        ascii ==> strings_view(final(out)@) == done.push(cur@).map_values(|w: Seq<char>| ascii_word_token(w)).filter(
            |t: Seq<char>| t.len() > 0,
        ),
        final(out)@.len() <= old(out)@.len() + 1,
{
    let t = word_to_token(cur);
    let ghost mapped = done.map_values(|w: Seq<char>| word_token(w));
    let ghost amapped = done.map_values(|w: Seq<char>| ascii_word_token(w));
    assert(done.push(cur@).map_values(|w: Seq<char>| word_token(w)) =~= mapped.push(t@));
    assert(ascii ==> done.push(cur@).map_values(|w: Seq<char>| ascii_word_token(w)) =~= amapped.push(t@));
    proof {
        mapped.lemma_filter_push(t@, |t: Seq<char>| t.len() > 0);
        amapped.lemma_filter_push(t@, |t: Seq<char>| t.len() > 0);
    }
    if !t.as_str().is_empty() {
        let ghost before = out@;
        out.push(t);
        assert(strings_view(out@) =~= strings_view(before).push(out@.last()@));
    }
}

/// The lowercased letter-and-digit tokens of the whitespace-separated words
/// of `s`, dropping words that have none.
pub fn tokenize(s: &str) -> (r: Vec<String>)
    ensures
        strings_view(r@) == tokens(s@),
        all_ascii(s@) ==> strings_view(r@) == ascii_tokens(s@),
        r@.len() <= s@.len(),
{
    let cs = chars_of(s);
    let mut out: Vec<String> = Vec::new();
    let mut cur: Vec<char> = Vec::new();
    let mut k: usize = 0;
    assert(strings_view(out@) =~= Seq::<Seq<char>>::empty());
    assert(Seq::<Seq<char>>::empty().map_values(|w: Seq<char>| word_token(w)).filter(
        |t: Seq<char>| t.len() > 0,
    ) =~= Seq::<Seq<char>>::empty());
    assert(Seq::<Seq<char>>::empty().map_values(|w: Seq<char>| ascii_word_token(w)).filter(
        |t: Seq<char>| t.len() > 0,
    ) =~= Seq::<Seq<char>>::empty());
    while k < cs.len()
        invariant
            0 <= k <= cs@.len(),
            cs@ == s@,
            out@.len() + (if cur@.len() > 0 { 1int } else { 0int }) <= k,
            split_ws_prefix(s@, k as nat).1 == cur@,
            strings_view(out@) == split_ws_prefix(s@, k as nat).0.map_values(
                |w: Seq<char>| word_token(w),
            ).filter(|t: Seq<char>| t.len() > 0),
            all_ascii(s@) ==> all_ascii(cur@),
            all_ascii(s@) ==> strings_view(out@) == split_ws_prefix(s@, k as nat).0.map_values(
                |w: Seq<char>| ascii_word_token(w),
            ).filter(|t: Seq<char>| t.len() > 0),
        decreases cs@.len() - k,
    {
        let c = cs[k];
        proof {
            if all_ascii(s@) {
                assert((s@[k as int] as u32) < 128);
            }
        }
        if is_whitespace(c) {
            if cur.len() > 0 {
                flush_word(&mut out, &cur, Ghost(split_ws_prefix(s@, k as nat).0), Ghost(all_ascii(s@)));
                cur = Vec::new();
                assert(cur@ =~= Seq::<char>::empty());
            }
        } else {
            let ghost before = cur@;
            cur.push(c);
            assert(cur@ == before.push(c));
        }
        k = k + 1;
    }
    if cur.len() > 0 {
        flush_word(&mut out, &cur, Ghost(split_ws_prefix(s@, k as nat).0), Ghost(all_ascii(s@)));
    }
    out
}

pub open spec fn min3(a: nat, b: nat, c: nat) -> nat {
    if a <= b && a <= c { a } else if b <= c { b } else { c }
}

/// Levenshtein distance between `a[0..i]` and `b[0..j]` (unit costs).
pub open spec fn lev(a: Seq<Seq<char>>, b: Seq<Seq<char>>, i: nat, j: nat) -> nat
    decreases i + j,
{
    if i == 0 {
        j
    } else if j == 0 {
        i
    } else {
        min3(
            lev(a, b, (i - 1) as nat, j) + 1,
            lev(a, b, i, (j - 1) as nat) + 1,
            lev(a, b, (i - 1) as nat, (j - 1) as nat) + if a[i - 1] == b[j - 1] { 0nat } else { 1nat },
        )
    }
}

/// Edit distance between two whole sequences.
pub open spec fn edit_distance(a: Seq<Seq<char>>, b: Seq<Seq<char>>) -> nat {
    lev(a, b, a.len(), b.len())
}

proof fn lemma_lev_bound(a: Seq<Seq<char>>, b: Seq<Seq<char>>, i: nat, j: nat)
    ensures
        lev(a, b, i, j) <= if i >= j { i } else { j },
    decreases i + j,
{
    if i > 0 && j > 0 {
        lemma_lev_bound(a, b, (i - 1) as nat, (j - 1) as nat);
    }
}

/// Levenshtein distance between two token lists.
pub fn levenshtein(a: &Vec<String>, b: &Vec<String>) -> (r: usize)
    requires
        a@.len() < usize::MAX,
        b@.len() < usize::MAX,
    ensures
        r == edit_distance(strings_view(a@), strings_view(b@)),
{
    let ghost sa = strings_view(a@);
    let ghost sb = strings_view(b@);
    let n = a.len();
    let m = b.len();
    let mut prev: Vec<usize> = Vec::new();
    let mut j: usize = 0;
    let m1 = m + 1;
    while j < m1
        invariant
            0 <= j <= m + 1,
            m1 == m + 1,
            m == b@.len(),
            prev@.len() == j,
            forall|k: int| 0 <= k < j ==> prev@[k] == lev(sa, sb, 0, k as nat),
        decreases m + 1 - j,
    {
        prev.push(j);
        j = j + 1;
    }
    let mut i: usize = 1;
    let n1 = n + 1;
    while i < n1
        invariant
            1 <= i <= n + 1,
            n1 == n + 1,
            m1 == m + 1,
            n < usize::MAX,
            n == a@.len(),
            m == b@.len(),
            m < usize::MAX,
            sa == strings_view(a@),
            sb == strings_view(b@),
            prev@.len() == m + 1,
            forall|k: int| 0 <= k <= m ==> prev@[k] == lev(sa, sb, (i - 1) as nat, k as nat),
        decreases n + 1 - i,
    {
        let mut cur: Vec<usize> = Vec::new();
        cur.push(i);
        let mut jj: usize = 1;
        while jj < m1
            invariant
                m1 == m + 1,
                n < usize::MAX,
                1 <= i <= n,
                1 <= jj <= m + 1,
                n == a@.len(),
                m == b@.len(),
                m < usize::MAX,
                sa == strings_view(a@),
                sb == strings_view(b@),
                prev@.len() == m + 1,
                forall|k: int| 0 <= k <= m ==> prev@[k] == lev(sa, sb, (i - 1) as nat, k as nat),
                cur@.len() == jj,
                forall|k: int| 0 <= k < jj ==> cur@[k] == lev(sa, sb, i as nat, k as nat),
            decreases m + 1 - jj,
        {
            proof {
                lemma_lev_bound(sa, sb, (i - 1) as nat, jj as nat);
                lemma_lev_bound(sa, sb, i as nat, (jj - 1) as nat);
                lemma_lev_bound(sa, sb, (i - 1) as nat, (jj - 1) as nat);
            }
            let same = a[i - 1] == b[jj - 1];
            assert(sa[i - 1] == a@[i - 1]@);
            assert(sb[jj - 1] == b@[jj - 1]@);
            let cost: usize = if same { 0 } else { 1 };
            let del = prev[jj] + 1;
            let ins = cur[jj - 1] + 1;
            let sub = prev[jj - 1] + cost;
            let best = if del <= ins && del <= sub {
                del
            } else if ins <= sub {
                ins
            } else {
                sub
            };
            cur.push(best);
            jj = jj + 1;
        }
        prev = cur;
        i = i + 1;
    }
    prev[m]
}

/// Counts behind a word error rate: the edit distance between the token
/// lists of `reference` and `hypothesis`, and the length of each list.
#[derive(Debug, Clone, Copy, PartialEq, Eq)]
pub struct WerCounts {
    pub edits: usize,
    pub reference_words: usize,
    pub hypothesis_words: usize,
}

/// Word edit distance and word counts of `reference` against `hypothesis`.
pub fn wer_counts(reference: &str, hypothesis: &str) -> (r: WerCounts)
    requires
        reference@.len() < usize::MAX,
        hypothesis@.len() < usize::MAX,
    ensures
        r.edits == edit_distance(tokens(reference@), tokens(hypothesis@)),
        r.reference_words == tokens(reference@).len(),
        r.hypothesis_words == tokens(hypothesis@).len(),
        all_ascii(reference@) && all_ascii(hypothesis@) ==> r.edits == edit_distance(
            ascii_tokens(reference@),
            ascii_tokens(hypothesis@),
        ) && r.reference_words == ascii_tokens(reference@).len() && r.hypothesis_words == ascii_tokens(
            hypothesis@,
        ).len(),
{
    let rt = tokenize(reference);
    let ht = tokenize(hypothesis);
    let edits = levenshtein(&rt, &ht);
    WerCounts { edits, reference_words: rt.len(), hypothesis_words: ht.len() }
}

/// The distance between a token list and itself is zero.
pub proof fn lemma_edit_distance_self(a: Seq<Seq<char>>)
    ensures
        edit_distance(a, a) == 0,
{
    lemma_lev_diag(a, a.len());
}

proof fn lemma_lev_diag(a: Seq<Seq<char>>, i: nat)
    ensures
        lev(a, a, i, i) == 0,
    decreases i,
{
    if i > 0 {
        lemma_lev_diag(a, (i - 1) as nat);
    }
}

/// The distance is symmetric.
pub proof fn lemma_edit_distance_symmetric(a: Seq<Seq<char>>, b: Seq<Seq<char>>)
    ensures
        edit_distance(a, b) == edit_distance(b, a),
{
    lemma_lev_symmetric(a, b, a.len(), b.len());
}

proof fn lemma_lev_symmetric(a: Seq<Seq<char>>, b: Seq<Seq<char>>, i: nat, j: nat)
    ensures
        lev(a, b, i, j) == lev(b, a, j, i),
    decreases i + j,
{
    if i > 0 && j > 0 {
        lemma_lev_symmetric(a, b, (i - 1) as nat, j);
        lemma_lev_symmetric(a, b, i, (j - 1) as nat);
        lemma_lev_symmetric(a, b, (i - 1) as nat, (j - 1) as nat);
    }
}

/// The number of positions below `i` at which `a` and `b` differ.
pub open spec fn differing_positions(a: Seq<Seq<char>>, b: Seq<Seq<char>>, i: nat) -> nat
    decreases i,
{
    if i == 0 {
        0
    } else {
        differing_positions(a, b, (i - 1) as nat) + if a[i - 1] == b[i - 1] { 0nat } else { 1nat }
    }
}

proof fn lemma_lev_zero(a: Seq<Seq<char>>, b: Seq<Seq<char>>, i: nat, j: nat)
    requires
        i <= a.len(),
        j <= b.len(),
        lev(a, b, i, j) == 0,
    ensures
        i == j,
        forall|k: int| 0 <= k < i ==> a[k] == b[k],
    decreases i + j,
{
    if i > 0 && j > 0 {
        lemma_lev_zero(a, b, (i - 1) as nat, (j - 1) as nat);
    }
}

proof fn lemma_lev_at_most_differences(a: Seq<Seq<char>>, b: Seq<Seq<char>>, i: nat)
    ensures
        lev(a, b, i, i) <= differing_positions(a, b, i),
    decreases i,
{
    if i > 0 {
        lemma_lev_at_most_differences(a, b, (i - 1) as nat);
    }
}

proof fn lemma_one_difference_count(a: Seq<Seq<char>>, b: Seq<Seq<char>>, p: int, i: nat)
    requires
        i <= a.len(),
        i <= b.len(),
        0 <= p,
        forall|q: int| 0 <= q < i && q != p ==> a[q] == b[q],
        p < i ==> a[p] != b[p],
    ensures
        differing_positions(a, b, i) == if p < i { 1nat } else { 0nat },
    decreases i,
{
    if i > 0 {
        lemma_one_difference_count(a, b, p, (i - 1) as nat);
    }
}

/// The distance between two token lists is zero exactly when they are the
/// same list.
pub proof fn law_edit_distance_zero_iff_equal(a: Seq<Seq<char>>, b: Seq<Seq<char>>)
    ensures
        edit_distance(a, b) == 0 <==> a == b,
{
    if edit_distance(a, b) == 0 {
        lemma_lev_zero(a, b, a.len(), b.len());
        assert(a =~= b);
    }
    if a == b {
        lemma_lev_diag(a, a.len());
    }
}

/// Between two lists of one length, the distance is at most the number of
/// positions at which they differ: each such position is one substitution.
pub proof fn law_edit_distance_at_most_substitutions(a: Seq<Seq<char>>, b: Seq<Seq<char>>)
    requires
        a.len() == b.len(),
    ensures
        edit_distance(a, b) <= differing_positions(a, b, a.len()),
{
    lemma_lev_at_most_differences(a, b, a.len());
}

/// Two lists of one length that differ at exactly one position are one
/// substitution apart.
pub proof fn law_one_substitution(a: Seq<Seq<char>>, b: Seq<Seq<char>>, p: int)
    requires
        a.len() == b.len(),
        0 <= p < a.len(),
        a[p] != b[p],
        forall|q: int| 0 <= q < a.len() && q != p ==> a[q] == b[q],
    ensures
        edit_distance(a, b) == 1,
{
    lemma_lev_at_most_differences(a, b, a.len());
    lemma_one_difference_count(a, b, p, a.len());
    law_edit_distance_zero_iff_equal(a, b);
}

proof fn lemma_lev_at_least_length_gap(a: Seq<Seq<char>>, b: Seq<Seq<char>>, i: nat, j: nat)
    ensures
        lev(a, b, i, j) >= if i >= j { i - j } else { j - i },
    decreases i + j,
{
    if i > 0 && j > 0 {
        lemma_lev_at_least_length_gap(a, b, (i - 1) as nat, j);
        lemma_lev_at_least_length_gap(a, b, i, (j - 1) as nat);
        lemma_lev_at_least_length_gap(a, b, (i - 1) as nat, (j - 1) as nat);
    }
}

/// The distance is at least the difference in length (each extra token
/// needs an insertion or a deletion) and at most the longer length (every
/// token replaced, inserted or deleted).
pub proof fn law_edit_distance_bounds(a: Seq<Seq<char>>, b: Seq<Seq<char>>)
    ensures
        edit_distance(a, b) >= if a.len() >= b.len() { a.len() - b.len() } else { b.len() - a.len() },
        edit_distance(a, b) <= if a.len() >= b.len() { a.len() } else { b.len() },
{
    lemma_lev_at_least_length_gap(a, b, a.len(), b.len());
    lemma_lev_bound(a, b, a.len(), b.len());
}

} // verus!
