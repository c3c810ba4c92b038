//! Post-LLM check of section attribution: the narrative and the action-item
//! owners may only reference `speaker_<u32>` ids that the transcript has.
//!
//! Only id-form references are checked; invented names ("Alex") pass.

use std::collections::HashSet;

use vstd::prelude::*;

use super::ir::ActionItem;
use crate::text::{chars_of, digits_value, exec_is_ascii_alphanumeric, exec_is_ascii_digit, is_ascii_alphanumeric, is_ascii_digit, parse_u32_digits, trim_chars, trim_spec};

verus! {

/// Outcome of the attribution check.
#[derive(Debug, PartialEq, Eq)]
pub enum VerifierReport {
    AllAllowed,
    DisallowedSpeakers(HashSet<u32>),
}

/// The characters `speaker_`.
pub open spec fn speaker_prefix() -> Seq<char> {
    seq!['s', 'p', 'e', 'a', 'k', 'e', 'r', '_']
}

/// `speaker_` starts at position `p` of `s`.
pub open spec fn prefix_at(s: Seq<char>, p: int) -> bool {
    0 <= p && p + 8 <= s.len() && s.subrange(p, p + 8) == speaker_prefix()
}

/// A character that continues a word: ASCII letter, digit or `_`.
pub open spec fn is_word_char(c: char) -> bool {
    is_ascii_alphanumeric(c) || c == '_'
}

/// End of the run of ASCII digits that starts at `q`.
pub open spec fn digit_run_end(s: Seq<char>, q: int) -> int
    decreases s.len() - q,
{
    if 0 <= q < s.len() && is_ascii_digit(s[q]) { digit_run_end(s, q + 1) } else { q }
}

/// The speaker id referenced at position `p`: `speaker_` at a word boundary,
/// followed by at least one digit, the digits spelling a `u32`.
pub open spec fn reference_at(s: Seq<char>, p: int) -> Option<u32> {
    if prefix_at(s, p) && (p == 0 || !is_word_char(s[p - 1])) {
        let e = digit_run_end(s, p + 8);
        let v = digits_value(s.subrange(p + 8, e));
        if e > p + 8 && v <= u32::MAX { Some(v as u32) } else { None }
    } else {
        None
    }
}

/// Every id the text references, at positions before `n`.
pub open spec fn referenced_before(s: Seq<char>, n: int) -> Set<u32> {
    Set::new(|id: u32| exists|p: int| 0 <= p < n && #[trigger] reference_at(s, p) == Some(id))
}

/// Every id the text references.
pub open spec fn referenced_ids(s: Seq<char>) -> Set<u32> {
    referenced_before(s, s.len() as int)
}

/// An owner string that is exactly `speaker_<digits>` (surrounding whitespace
/// aside) names that id; any other owner names none.
pub open spec fn owner_id(o: Seq<char>) -> Option<u32> {
    let t = trim_spec(o);
    if t.len() > 8 && t.subrange(0, 8) == speaker_prefix() && (forall|k: int|
        8 <= k < t.len() ==> is_ascii_digit(#[trigger] t[k])) && digits_value(t.subrange(8, t.len() as int))
        <= u32::MAX {
        Some(digits_value(t.subrange(8, t.len() as int)) as u32)
    } else {
        None
    }
}

/// Whether the item's owner names `id`.
pub open spec fn owner_names(item: ActionItem, id: u32) -> bool {
    match item.owner {
        Some(o) => owner_id(o@) == Some(id),
        None => false,
    }
}

/// Ids the owners of `items[0..n]` name.
pub open spec fn owner_ids_before(items: Seq<ActionItem>, n: int) -> Set<u32> {
    Set::new(|id: u32| exists|k: int| 0 <= k < n && owner_names(#[trigger] items[k], id))
}

/// The ids referenced by the narrative or the owners that are not allowed.
pub open spec fn disallowed_ids(narrative: Seq<char>, items: Seq<ActionItem>, allowed: Set<u32>) -> Set<
    u32,
> {
    referenced_ids(narrative).union(owner_ids_before(items, items.len() as int)).difference(allowed)
}

fn matches_prefix_at(s: &Vec<char>, p: usize) -> (r: bool)
    ensures
        r == prefix_at(s@, p as int),
{
    if p > s.len() || s.len() - p < 8 {
        return false;
    }
    let ok = s[p] == 's' && s[p + 1] == 'p' && s[p + 2] == 'e' && s[p + 3] == 'a' && s[p + 4] == 'k'
        && s[p + 5] == 'e' && s[p + 6] == 'r' && s[p + 7] == '_';
    assert(ok ==> s@.subrange(p as int, p + 8 as int) =~= speaker_prefix());
    assert(s@.subrange(p as int, p + 8 as int) == speaker_prefix() ==> ok) by {
        if s@.subrange(p as int, p + 8 as int) == speaker_prefix() {
            assert(s@.subrange(p as int, p + 8 as int)[0] == 's');
            assert(s@.subrange(p as int, p + 8 as int)[1] == 'p');
            assert(s@.subrange(p as int, p + 8 as int)[2] == 'e');
            assert(s@.subrange(p as int, p + 8 as int)[3] == 'a');
            assert(s@.subrange(p as int, p + 8 as int)[4] == 'k');
            assert(s@.subrange(p as int, p + 8 as int)[5] == 'e');
            assert(s@.subrange(p as int, p + 8 as int)[6] == 'r');
            assert(s@.subrange(p as int, p + 8 as int)[7] == '_');
        }
    }
    ok
}

fn run_end(s: &Vec<char>, q: usize) -> (e: usize)
    requires
        q <= s@.len(),
    ensures
        e as int == digit_run_end(s@, q as int),
        q <= e <= s@.len(),
        forall|k: int| q <= k < e ==> is_ascii_digit(#[trigger] s@[k]),
        e < s@.len() ==> !is_ascii_digit(s@[e as int]),
{
    let mut e: usize = q;
    while e < s.len() && exec_is_ascii_digit(s[e])
        invariant
            q <= e <= s@.len(),
            digit_run_end(s@, q as int) == digit_run_end(s@, e as int),
            forall|k: int| q <= k < e ==> is_ascii_digit(#[trigger] s@[k]),
        decreases s@.len() - e,
    {
        e = e + 1;
    }
    e
}

fn reference_at_exec(s: &Vec<char>, p: usize) -> (r: Option<u32>)
    requires
        p < s@.len(),
    ensures
        r == reference_at(s@, p as int),
{
    let n = s.len();
    if !matches_prefix_at(s, p) {
        return None;
    }
    assert(p + 8 <= n);
    if p > 0 && (exec_is_ascii_alphanumeric(s[p - 1]) || s[p - 1] == '_') {
        return None;
    }
    let e = run_end(s, p + 8);
    if e == p + 8 {
        return None;
    }
    parse_u32_digits(s, p + 8, e)
}

/// The id an owner string names, if it is exactly `speaker_<u32>`.
fn parse_speaker_id(owner: &str) -> (r: Option<u32>)
    ensures
        r == owner_id(owner@),
{
    let cs = chars_of(owner);
    let t = trim_chars(&cs);
    if t.len() <= 8 {
        return None;
    }
    if !matches_prefix_at(&t, 0) {
        return None;
    }
    assert(t@.subrange(0, 8) == speaker_prefix());
    let e = run_end(&t, 8);
    if e != t.len() {
        assert(!is_ascii_digit(t@[e as int]));
        return None;
    }
    parse_u32_digits(&t, 8, t.len())
}

/// Verifies that a section's narrative and action-item owners reference only
/// `speaker_<u32>` ids in `allowed_speakers`. `Ok` when none is outside;
/// otherwise every id outside it.
pub fn verify_section_attribution(
    narrative_md: &str,
    action_items: &[ActionItem],
    allowed_speakers: &HashSet<u32>,
) -> (r: VerifierReport)
    ensures
        match r {
            VerifierReport::AllAllowed => disallowed_ids(
                narrative_md@,
                action_items@,
                allowed_speakers@,
            ).is_empty(),
            VerifierReport::DisallowedSpeakers(ids) => ids@ == disallowed_ids(
                narrative_md@,
                action_items@,
                allowed_speakers@,
            ) && !ids@.is_empty(),
        },
{
    broadcast use vstd::std_specs::hash::group_hash_axioms;

    let mut disallowed: HashSet<u32> = HashSet::new();
    let s = chars_of(narrative_md);
    let ghost text = narrative_md@;
    let mut p: usize = 0;
    while p < s.len()
        invariant
            0 <= p <= s@.len(),
            s@ == text,
            disallowed@ == referenced_before(text, p as int).difference(allowed_speakers@),
        decreases s@.len() - p,
    {
        let found = reference_at_exec(&s, p);
        match found {
            Some(id) => {
                if !allowed_speakers.contains(&id) {
                    disallowed.insert(id);
                }
            },
            None => {},
        }
        proof {
            assert forall|id: u32| #[trigger] referenced_before(text, p + 1).contains(id) <==> (
            referenced_before(text, p as int).contains(id) || reference_at(text, p as int) == Some(
                id,
            )) by {
                if referenced_before(text, p + 1).contains(id) {
                    let q = choose|q: int| 0 <= q < p + 1 && #[trigger] reference_at(text, q) == Some(id);
                    if q < p {
                        assert(referenced_before(text, p as int).contains(id));
                    }
                }
                if reference_at(text, p as int) == Some(id) {
                    assert(referenced_before(text, p + 1).contains(id));
                }
            }
        }
        assert(disallowed@ =~= referenced_before(text, p + 1).difference(allowed_speakers@));
        p = p + 1;
    }
    let mut k: usize = 0;
    while k < action_items.len()
        invariant
            0 <= k <= action_items@.len(),
            disallowed@ == referenced_ids(text).union(owner_ids_before(action_items@, k as int)).difference(
                allowed_speakers@,
            ),
        decreases action_items@.len() - k,
    {
        let item = &action_items[k];
        let named: Option<u32> = match &item.owner {
            Some(o) => parse_speaker_id(o.as_str()),
            None => None,
        };
        match named {
            Some(id) => {
                if !allowed_speakers.contains(&id) {
                    disallowed.insert(id);
                }
            },
            None => {},
        }
        proof {
            let items = action_items@;
            assert forall|id: u32| #[trigger] owner_ids_before(items, k + 1).contains(id) <==> (
            owner_ids_before(items, k as int).contains(id) || named == Some(id)) by {
                if owner_ids_before(items, k + 1).contains(id) {
                    let j = choose|j: int| 0 <= j < k + 1 && owner_names(#[trigger] items[j], id);
                    if j < k {
                        assert(owner_ids_before(items, k as int).contains(id));
                    }
                }
                if named == Some(id) {
                    assert(items[k as int] == *item);
                    assert(owner_ids_before(items, k + 1).contains(id));
                }
            }
        }
        assert(disallowed@ =~= referenced_ids(text).union(
            owner_ids_before(action_items@, k + 1),
        ).difference(allowed_speakers@));
        k = k + 1;
    }
    if disallowed.is_empty() {
        VerifierReport::AllAllowed
    } else {
        VerifierReport::DisallowedSpeakers(disallowed)
    }
}

} // verus!
