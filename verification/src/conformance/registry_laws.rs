//! What the in-process registry promises across operations: a meeting reads
//! back as it was created, identifiers and directories stay unique, deleting
//! a meeting takes its notes and tags with it, a replaced note is the only
//! one left, creating a tag by an existing name returns that tag, and the
//! listing comes latest first.

use vstd::prelude::*;

use crate::conformance::in_memory_storage::{
    drafted_meeting, insert_desc, link_is, link_not_of, link_of, link_resolves, meeting_is,
    note_not_of, note_of, not_found, sort_desc, spec_create_meeting, spec_create_tag,
    spec_delete_meeting, spec_get_meeting, spec_list_meetings, spec_notes_for_meeting,
    spec_replace_meeting_note, spec_tag_meeting, spec_tags_for_meeting, spec_untag_meeting,
    tag_is, tag_named, unfiled, LinkModel, RegistryModel, RowModel, empty_registry,
    spec_update_meeting_ended, spec_update_meeting_language, spec_rename_meeting, spec_assign_meeting,
    spec_delete_space, spec_delete_project, spec_create_meeting_with_note, meeting_conflict,
};
use crate::search::{any_where, first_where, lemma_any_where_push, lemma_first_where_none, lemma_first_where_push, lemma_first_where_some};
use crate::storage::{MeetingDraftModel, NoteModel, RegistryAnswer, RegistryCall, Storage, StorageErrorModel, SummaryModel, TagModel};
use crate::conformance::in_memory_storage::{pair_note_stamp, InMemoryStorage};
use crate::conformance::storage_trace::{ran, Step};
use crate::text::{lemma_text_less_asymmetric, lemma_text_not_less_transitive, text_less};

verus! {

/// No two meetings share an id.
pub open spec fn meeting_ids_unique(st: RegistryModel) -> bool {
    forall|i: int, j: int|
        0 <= i < j < st.meetings.len() ==> (#[trigger] st.meetings[i]).meeting.id
            != (#[trigger] st.meetings[j]).meeting.id
}

/// A created meeting reads back as the meeting `create_meeting` returned.
pub proof fn law_create_then_get(st: RegistryModel, d: MeetingDraftModel)
    requires
        spec_create_meeting(st, d) is Ok,
    ensures
        spec_get_meeting(spec_create_meeting(st, d)->Ok_0.0, d.id) == Ok::<_, StorageErrorModel>(
            spec_create_meeting(st, d)->Ok_0.1,
        ),
{
    let row = unfiled(drafted_meeting(d, None, None));
    lemma_first_where_push(st.meetings, row, meeting_is(d.id));
}

/// Creating a meeting under an id that is taken is `AlreadyExists`.
pub proof fn law_duplicate_id_rejected(st: RegistryModel, d: MeetingDraftModel, again: MeetingDraftModel)
    requires
        spec_create_meeting(st, d) is Ok,
        again.id == d.id,
    ensures
        spec_create_meeting(spec_create_meeting(st, d)->Ok_0.0, again) == Err::<
            (RegistryModel, crate::storage::MeetingModel),
            _,
        >(StorageErrorModel::AlreadyExists { id: d.id, kind: "meeting"@ }),
{
    let row = unfiled(drafted_meeting(d, None, None));
    lemma_any_where_push(st.meetings, row, meeting_is(d.id));
}

/// A new id with a directory that is taken is a `dir_path` conflict, not
/// `AlreadyExists`.
pub proof fn law_duplicate_dir_rejected(st: RegistryModel, d: MeetingDraftModel, other: MeetingDraftModel)
    requires
        spec_create_meeting(st, d) is Ok,
        other.id != d.id,
        !any_where(st.meetings, meeting_is(other.id)),
        other.dir_path == d.dir_path,
    ensures
        spec_create_meeting(spec_create_meeting(st, d)->Ok_0.0, other) == Err::<
            (RegistryModel, crate::storage::MeetingModel),
            _,
        >(
            StorageErrorModel::UniqueConflict {
                kind: "meeting"@,
                field: "dir_path"@,
                value: d.dir_path,
            },
        ),
{
    let row = unfiled(drafted_meeting(d, None, None));
    lemma_any_where_push(st.meetings, row, meeting_is(other.id));
    lemma_any_where_push(st.meetings, row, crate::conformance::in_memory_storage::dir_is(other.dir_path));
}

/// An id no meeting has is `NotFound`.
pub proof fn law_get_unknown(st: RegistryModel, id: Seq<char>)
    requires
        !any_where(st.meetings, meeting_is(id)),
    ensures
        spec_get_meeting(st, id) == Err::<crate::storage::MeetingModel, _>(not_found(id, "meeting"@)),
{
    lemma_first_where_none(st.meetings, meeting_is(id));
}

/// Creating a meeting keeps ids unique.
pub proof fn law_create_keeps_ids_unique(st: RegistryModel, d: MeetingDraftModel)
    requires
        meeting_ids_unique(st),
        spec_create_meeting(st, d) is Ok,
    ensures
        meeting_ids_unique(spec_create_meeting(st, d)->Ok_0.0),
{
    let t = spec_create_meeting(st, d)->Ok_0.0.meetings;
    assert forall|i: int, j: int| 0 <= i < j < t.len() implies (#[trigger] t[i]).meeting.id
        != (#[trigger] t[j]).meeting.id by {
        if j == st.meetings.len() {
            if t[i].meeting.id == d.id {
                assert(meeting_is(d.id)(st.meetings[i]));
            }
        } else {
            assert(t[i] == st.meetings[i] && t[j] == st.meetings[j]);
        }
    }
}

/// The empty registry has no two meetings with one id.
pub proof fn law_empty_ids_unique()
    ensures
        meeting_ids_unique(empty_registry()),
{
}

/// Rows that carry the same meeting ids, in the same places, keep them
/// unique.
proof fn lemma_same_ids(st: RegistryModel, t: Seq<RowModel>)
    requires
        meeting_ids_unique(st),
        t.len() == st.meetings.len(),
        forall|i: int| 0 <= i < t.len() ==> (#[trigger] t[i]).meeting.id == st.meetings[i].meeting.id,
    ensures
        forall|i: int, j: int| 0 <= i < j < t.len() ==> (#[trigger] t[i]).meeting.id != (#[trigger] t[j]).meeting.id,
{
    assert forall|i: int, j: int| 0 <= i < j < t.len() implies (#[trigger] t[i]).meeting.id
        != (#[trigger] t[j]).meeting.id by {
        assert(st.meetings[i].meeting.id != st.meetings[j].meeting.id);
    }
}

/// Ending, relabelling and renaming a meeting keep ids unique.
pub proof fn law_updates_keep_ids_unique(
    st: RegistryModel,
    id: Seq<char>,
    ended_at: Seq<char>,
    duration_ms: u64,
    language: Seq<char>,
    title: Seq<char>,
)
    requires
        meeting_ids_unique(st),
    ensures
        spec_update_meeting_ended(st, id, ended_at, duration_ms) is Ok ==> meeting_ids_unique(
            spec_update_meeting_ended(st, id, ended_at, duration_ms)->Ok_0.0,
        ),
        spec_update_meeting_language(st, id, language) is Ok ==> meeting_ids_unique(
            spec_update_meeting_language(st, id, language)->Ok_0.0,
        ),
        spec_rename_meeting(st, id, title) is Ok ==> meeting_ids_unique(spec_rename_meeting(st, id, title)->Ok_0.0),
{
    if spec_update_meeting_ended(st, id, ended_at, duration_ms) is Ok {
        lemma_same_ids(st, spec_update_meeting_ended(st, id, ended_at, duration_ms)->Ok_0.0.meetings);
    }
    if spec_update_meeting_language(st, id, language) is Ok {
        lemma_same_ids(st, spec_update_meeting_language(st, id, language)->Ok_0.0.meetings);
    }
    if spec_rename_meeting(st, id, title) is Ok {
        lemma_same_ids(st, spec_rename_meeting(st, id, title)->Ok_0.0.meetings);
    }
}

/// Filing a meeting keeps ids unique.
pub proof fn law_assign_keeps_ids_unique(
    st: RegistryModel,
    meeting_id: Seq<char>,
    space_id: Option<Seq<char>>,
    project_id: Option<Seq<char>>,
)
    requires
        meeting_ids_unique(st),
        spec_assign_meeting(st, meeting_id, space_id, project_id) is Ok,
    ensures
        meeting_ids_unique(spec_assign_meeting(st, meeting_id, space_id, project_id)->Ok_0.0),
{
    lemma_same_ids(st, spec_assign_meeting(st, meeting_id, space_id, project_id)->Ok_0.0.meetings);
}

/// Deleting a space or a project, which unfiles its meetings, keeps ids
/// unique.
pub proof fn law_org_deletes_keep_ids_unique(st: RegistryModel, id: Seq<char>)
    requires
        meeting_ids_unique(st),
    ensures
        spec_delete_space(st, id) is Ok ==> meeting_ids_unique(spec_delete_space(st, id)->Ok_0.0),
        spec_delete_project(st, id) is Ok ==> meeting_ids_unique(spec_delete_project(st, id)->Ok_0.0),
{
    if spec_delete_space(st, id) is Ok {
        lemma_same_ids(st, spec_delete_space(st, id)->Ok_0.0.meetings);
    }
    if spec_delete_project(st, id) is Ok {
        lemma_same_ids(st, spec_delete_project(st, id)->Ok_0.0.meetings);
    }
}

/// Creating a meeting together with its note keeps ids unique.
pub proof fn law_create_with_note_keeps_ids_unique(
    st: RegistryModel,
    md: MeetingDraftModel,
    nd: crate::storage::NoteDraftModel,
    ended_at: Option<Seq<char>>,
    duration_ms: Option<u64>,
    created_at: Seq<char>,
)
    requires
        meeting_ids_unique(st),
        spec_create_meeting_with_note(st, md, nd, ended_at, duration_ms, created_at) is Ok,
    ensures
        meeting_ids_unique(spec_create_meeting_with_note(st, md, nd, ended_at, duration_ms, created_at)->Ok_0.0),
{
    let t = spec_create_meeting_with_note(st, md, nd, ended_at, duration_ms, created_at)->Ok_0.0.meetings;
    assert(meeting_conflict(st, md) is None);
    assert forall|i: int, j: int| 0 <= i < j < t.len() implies (#[trigger] t[i]).meeting.id
        != (#[trigger] t[j]).meeting.id by {
        if j == st.meetings.len() {
            if t[i].meeting.id == md.id {
                assert(meeting_is(md.id)(st.meetings[i]));
            }
        } else {
            assert(t[i] == st.meetings[i] && t[j] == st.meetings[j]);
        }
    }
}

/// Keeping some rows of rows with distinct ids keeps the ids distinct.
proof fn lemma_filter_ids_unique(s: Seq<RowModel>, p: spec_fn(RowModel) -> bool)
    requires
        forall|i: int, j: int| 0 <= i < j < s.len() ==> (#[trigger] s[i]).meeting.id != (#[trigger] s[j]).meeting.id,
    ensures
        forall|i: int, j: int|
            0 <= i < j < s.filter(p).len() ==> (#[trigger] s.filter(p)[i]).meeting.id != (#[trigger] s.filter(
                p,
            )[j]).meeting.id,
    decreases s.len(),
{
    if s.len() > 0 {
        let d = s.drop_last();
        let x = s.last();
        assert forall|i: int, j: int| 0 <= i < j < d.len() implies (#[trigger] d[i]).meeting.id != (
        #[trigger] d[j]).meeting.id by {
            assert(d[i] == s[i] && d[j] == s[j]);
        }
        lemma_filter_ids_unique(d, p);
        assert(s == d.push(x));
        d.lemma_filter_push(x, p);
        let f = d.filter(p);
        if p(x) {
            let g = f.push(x);
            assert forall|i: int, j: int| 0 <= i < j < g.len() implies (#[trigger] g[i]).meeting.id != (
            #[trigger] g[j]).meeting.id by {
                if j == f.len() {
                    assert(f.contains(f[i]));
                    d.lemma_filter_contains_rev(p, f[i]);
                    let k = choose|k: int| 0 <= k < d.len() && d[k] == f[i];
                    assert(s[k] == d[k] && s[s.len() - 1] == x);
                } else {
                    assert(g[i] == f[i] && g[j] == f[j]);
                }
            }
        }
    }
}

/// Deleting a meeting keeps ids unique.
pub proof fn law_delete_keeps_ids_unique(st: RegistryModel, id: Seq<char>)
    requires
        meeting_ids_unique(st),
        spec_delete_meeting(st, id) is Ok,
    ensures
        meeting_ids_unique(spec_delete_meeting(st, id)->Ok_0.0),
{
    lemma_filter_ids_unique(st.meetings, crate::conformance::in_memory_storage::meeting_not(id));
}

/// Every element of `s` filtered by `p` then by `q` satisfies both, so
/// when no element can satisfy both the result is empty.
proof fn lemma_filter_twice_empty<A>(s: Seq<A>, p: spec_fn(A) -> bool, q: spec_fn(A) -> bool)
    requires
        forall|x: A| !(#[trigger] p(x) && q(x)),
    ensures
        s.filter(p).filter(q) == Seq::<A>::empty(),
{
    if s.filter(p).filter(q).len() > 0 {
        let x = s.filter(p).filter(q)[0];
        s.filter(p).lemma_filter_pred(q, 0);
        assert(s.filter(p).filter(q).contains(x));
        s.filter(p).lemma_filter_contains_rev(q, x);
        let k = choose|k: int| 0 <= k < s.filter(p).len() && s.filter(p)[k] == x;
        s.lemma_filter_pred(p, k);
    }
    assert(s.filter(p).filter(q) =~= Seq::<A>::empty());
}

/// An element is kept by a filter exactly when it is there and passes.
proof fn lemma_filter_membership<A>(s: Seq<A>, p: spec_fn(A) -> bool)
    ensures
        forall|x: A| #[trigger] s.filter(p).contains(x) <==> (s.contains(x) && p(x)),
{
    assert forall|x: A| #[trigger] s.filter(p).contains(x) <==> (s.contains(x) && p(x)) by {
        if s.filter(p).contains(x) {
            s.lemma_filter_contains_rev(p, x);
            let i = choose|i: int| 0 <= i < s.filter(p).len() && s.filter(p)[i] == x;
            s.lemma_filter_pred(p, i);
        }
        if s.contains(x) && p(x) {
            let i = choose|i: int| 0 <= i < s.len() && s[i] == x;
            s.lemma_filter_contains(p, i);
        }
    }
}

/// Deleting an unknown meeting is `NotFound` for the meeting (and, as the
/// store's `agrees` says of every failure, changes nothing). Deleting a
/// known one removes it with its notes and its tags, and keeps every other
/// meeting, every note of another meeting and every tagging of another
/// meeting.
pub proof fn law_delete_cascades(st: RegistryModel, id: Seq<char>)
    ensures
        !any_where(st.meetings, meeting_is(id)) ==> spec_delete_meeting(st, id) == Err::<(RegistryModel, ()), _>(
            not_found(id, "meeting"@),
        ),
        any_where(st.meetings, meeting_is(id)) ==> spec_delete_meeting(st, id) is Ok,
        spec_delete_meeting(st, id) is Ok ==> ({
            let st2 = spec_delete_meeting(st, id)->Ok_0.0;
            &&& spec_get_meeting(st2, id) == Err::<crate::storage::MeetingModel, _>(not_found(id, "meeting"@))
            &&& spec_notes_for_meeting(st2, id) == Seq::<NoteModel>::empty()
            &&& spec_tags_for_meeting(st2, id) == Seq::<TagModel>::empty()
            &&& forall|r: RowModel| #[trigger] st2.meetings.contains(r) <==> (st.meetings.contains(r) && r.meeting.id != id)
            &&& forall|n: NoteModel| #[trigger] st2.notes.contains(n) <==> (st.notes.contains(n) && n.meeting_id != id)
            &&& forall|l: LinkModel| #[trigger] st2.links.contains(l) <==> (st.links.contains(l) && l.meeting_id != id)
            &&& st2.spaces == st.spaces && st2.projects == st.projects && st2.tags == st.tags
        }),
{
    if !any_where(st.meetings, meeting_is(id)) {
        lemma_first_where_none(st.meetings, meeting_is(id));
        return;
    }
    lemma_first_where_some(st.meetings, meeting_is(id));
    lemma_filter_membership(st.meetings, crate::conformance::in_memory_storage::meeting_not(id));
    lemma_filter_membership(st.notes, note_not_of(id));
    lemma_filter_membership(st.links, link_not_of(id));
    let st2 = spec_delete_meeting(st, id)->Ok_0.0;
    let t = st2.meetings;
    let p = crate::conformance::in_memory_storage::meeting_not(id);
    assert(!any_where(t, meeting_is(id))) by {
        if any_where(t, meeting_is(id)) {
            let i = choose|i: int| 0 <= i < t.len() && meeting_is(id)(#[trigger] t[i]);
            st.meetings.lemma_filter_pred(p, i);
        }
    }
    lemma_first_where_none(t, meeting_is(id));
    lemma_filter_twice_empty(st.notes, note_not_of(id), note_of(id));
    lemma_filter_twice_empty(st.links, link_not_of(id), link_of(id));
    assert(st2.links.filter(link_of(id)).filter(link_resolves(st2.tags)) =~= Seq::<LinkModel>::empty());
    assert(spec_tags_for_meeting(st2, id) =~= Seq::<TagModel>::empty());
}

/// Replacing a meeting's note leaves that note as the meeting's only one.
pub proof fn law_replace_leaves_one_note(
    st: RegistryModel,
    meeting_id: Seq<char>,
    d: crate::storage::NoteDraftModel,
    created_at: Seq<char>,
)
    requires
        spec_replace_meeting_note(st, meeting_id, d, created_at) is Ok,
    ensures
        spec_notes_for_meeting(spec_replace_meeting_note(st, meeting_id, d, created_at)->Ok_0.0, meeting_id)
            == seq![spec_replace_meeting_note(st, meeting_id, d, created_at)->Ok_0.1],
{
    let kept = st.notes.filter(note_not_of(meeting_id));
    let n = spec_replace_meeting_note(st, meeting_id, d, created_at)->Ok_0.1;
    kept.lemma_filter_push(n, note_of(meeting_id));
    lemma_filter_twice_empty(st.notes, note_not_of(meeting_id), note_of(meeting_id));
    assert(Seq::<NoteModel>::empty().push(n) =~= seq![n]);
}

/// Creating a tag by a name that exists returns that tag and changes
/// nothing; so creating the same name twice gives the same tag.
pub proof fn law_create_tag_idempotent(st: RegistryModel, name: Seq<char>)
    requires
        spec_create_tag(st, name) is Ok,
    ensures
        spec_create_tag(spec_create_tag(st, name)->Ok_0.0, name) == spec_create_tag(st, name),
{
    let r = spec_create_tag(st, name)->Ok_0;
    match first_where(st.tags, tag_named(name)) {
        Some(i) => {},
        None => {
            if any_where(st.tags, tag_named(name)) {
                lemma_first_where_some(st.tags, tag_named(name));
            }
            lemma_first_where_push(st.tags, r.1, tag_named(name));
        },
    }
}

/// A tagged meeting lists the tag among its tags.
pub proof fn law_tag_then_listed(st: RegistryModel, meeting_id: Seq<char>, tag_id: Seq<char>)
    requires
        spec_tag_meeting(st, meeting_id, tag_id) is Ok,
    ensures
        exists|k: int|
            0 <= k < spec_tags_for_meeting(spec_tag_meeting(st, meeting_id, tag_id)->Ok_0.0, meeting_id).len()
                && (#[trigger] spec_tags_for_meeting(
                spec_tag_meeting(st, meeting_id, tag_id)->Ok_0.0,
                meeting_id,
            )[k]).id == tag_id,
{
    let st2 = spec_tag_meeting(st, meeting_id, tag_id)->Ok_0.0;
    let l = LinkModel { meeting_id, tag_id };
    assert(st2.tags == st.tags);
    let li = if any_where(st.links, link_is(meeting_id, tag_id)) {
        choose|i: int| 0 <= i < st.links.len() && link_is(meeting_id, tag_id)(#[trigger] st.links[i])
    } else {
        st.links.len() as int
    };
    assert(st2.links[li] == l);
    let a = st2.links.filter(link_of(meeting_id));
    st2.links.lemma_filter_contains(link_of(meeting_id), li);
    assert(a.contains(l));
    let ai = choose|i: int| 0 <= i < a.len() && a[i] == l;
    lemma_first_where_some(st2.tags, tag_is(tag_id));
    assert(link_resolves(st2.tags)(l));
    let b = a.filter(link_resolves(st2.tags));
    a.lemma_filter_contains(link_resolves(st2.tags), ai);
    assert(b.contains(a[ai]));
    let bi = choose|i: int| 0 <= i < b.len() && b[i] == l;
    let tags = spec_tags_for_meeting(st2, meeting_id);
    assert(tags[bi] == crate::conformance::in_memory_storage::linked_tag(st2.tags, l));
    assert(tags[bi].id == tag_id);
}

/// After untagging, the meeting's tags no longer include the tag.
pub proof fn law_untag_removes(st: RegistryModel, meeting_id: Seq<char>, tag_id: Seq<char>)
    requires
        spec_untag_meeting(st, meeting_id, tag_id) is Ok,
    ensures
        forall|k: int|
            0 <= k < spec_tags_for_meeting(spec_untag_meeting(st, meeting_id, tag_id)->Ok_0.0, meeting_id).len()
                ==> (#[trigger] spec_tags_for_meeting(
                spec_untag_meeting(st, meeting_id, tag_id)->Ok_0.0,
                meeting_id,
            )[k]).id != tag_id,
{
    let st2 = spec_untag_meeting(st, meeting_id, tag_id)->Ok_0.0;
    let links = st2.links;
    let a = links.filter(link_of(meeting_id));
    let b = a.filter(link_resolves(st2.tags));
    let tags = spec_tags_for_meeting(st2, meeting_id);
    assert forall|k: int| 0 <= k < tags.len() implies (#[trigger] tags[k]).id != tag_id by {
        let l = b[k];
        assert(b.contains(l));
        a.lemma_filter_contains_rev(link_resolves(st2.tags), l);
        let ai = choose|i: int| 0 <= i < a.len() && a[i] == l;
        links.lemma_filter_pred(link_of(meeting_id), ai);
        links.lemma_filter_contains_rev(link_of(meeting_id), l);
        let li = choose|i: int| 0 <= i < links.len() && links[i] == l;
        st.links.lemma_filter_pred(crate::conformance::in_memory_storage::link_is_not(meeting_id, tag_id), li);
        a.lemma_filter_pred(link_resolves(st2.tags), k);
        lemma_first_where_some(st2.tags, tag_is(l.tag_id));
        assert(tags[k] == crate::conformance::in_memory_storage::linked_tag(st2.tags, l));
    }
}

/// Latest `started_at` first: no row starts earlier than a row after it.
pub open spec fn latest_first(s: Seq<SummaryModel>) -> bool {
    forall|i: int, j: int|
        0 <= i < j < s.len() ==> !text_less((#[trigger] s[i]).started_at, (#[trigger] s[j]).started_at)
}

proof fn lemma_insert_desc(s: Seq<SummaryModel>, x: SummaryModel)
    requires
        latest_first(s),
    ensures
        latest_first(insert_desc(s, x)),
        insert_desc(s, x).to_multiset() == s.to_multiset().insert(x),
    decreases s.len(),
{
    if s.len() == 0 || !text_less(s.last().started_at, x.started_at) {
        assert forall|i: int, j: int| 0 <= i < j < s.push(x).len() implies !text_less(
            (#[trigger] s.push(x)[i]).started_at,
            (#[trigger] s.push(x)[j]).started_at,
        ) by {
            if j == s.len() {
                lemma_text_not_less_transitive(s[i].started_at, s.last().started_at, x.started_at);
            }
        }
        s.to_multiset_ensures();
    } else {
        let d = s.drop_last();
        let l = s.last();
        assert(latest_first(d));
        lemma_insert_desc(d, x);
        let r = insert_desc(d, x);
        lemma_text_less_asymmetric(l.started_at, x.started_at);
        assert forall|k: int| 0 <= k < r.len() implies !text_less(
            (#[trigger] r[k]).started_at,
            l.started_at,
        ) by {
            r.to_multiset_ensures();
            d.to_multiset_ensures();
            assert(r.contains(r[k]));
            assert(d.to_multiset().insert(x).count(r[k]) > 0);
            if r[k] != x {
                assert(d.to_multiset().count(r[k]) > 0);
                let q = choose|q: int| 0 <= q < d.len() && d[q] == r[k];
                assert(s[q] == d[q]);
            }
        }
        assert forall|i: int, j: int| 0 <= i < j < r.push(l).len() implies !text_less(
            (#[trigger] r.push(l)[i]).started_at,
            (#[trigger] r.push(l)[j]).started_at,
        ) by {
            if j == r.len() {
                assert(r.push(l)[i] == r[i]);
            } else {
                assert(r.push(l)[i] == r[i] && r.push(l)[j] == r[j]);
            }
        }
        r.to_multiset_ensures();
        d.to_multiset_ensures();
        assert(s == d.push(l));
        assert(r.push(l).to_multiset() =~= s.to_multiset().insert(x));
    }
}

proof fn lemma_sort_desc(s: Seq<SummaryModel>)
    ensures
        latest_first(sort_desc(s)),
        sort_desc(s).to_multiset() == s.to_multiset(),
    decreases s.len(),
{
    if s.len() > 0 {
        lemma_sort_desc(s.drop_last());
        lemma_insert_desc(sort_desc(s.drop_last()), s.last());
        s.drop_last().to_multiset_ensures();
        assert(s == s.drop_last().push(s.last()));
    }
}

/// The listing holds every meeting's row once, latest `started_at` first.
pub proof fn law_list_latest_first(st: RegistryModel)
    ensures
        latest_first(spec_list_meetings(st)),
        spec_list_meetings(st).to_multiset() == st.meetings.map_values(
            |r: RowModel| crate::conformance::in_memory_storage::summary_of(st, r),
        ).to_multiset(),
{
    lemma_sort_desc(
        st.meetings.map_values(|r: RowModel| crate::conformance::in_memory_storage::summary_of(st, r)),
    );
}

} // verus!

verus! {

/// Every call the in-process registry answers keeps meeting ids unique:
/// whatever the call and its answer, no two meetings of the store it leaves
/// share an id, if none did before.
pub proof fn law_step_keeps_ids_unique(
    st: InMemoryStorage,
    call: RegistryCall,
    next: InMemoryStorage,
    answer: RegistryAnswer,
)
    requires
        meeting_ids_unique(st@),
        st.step(call, next, answer),
    ensures
        meeting_ids_unique(next@),
{
    let s = st@;
    match call {
        RegistryCall::CreateMeeting { draft } => {
            if spec_create_meeting(s, draft) is Ok {
                law_create_keeps_ids_unique(s, draft);
            }
        },
        RegistryCall::UpdateEnded { id, ended_at, duration_ms } => {
            law_updates_keep_ids_unique(s, id, ended_at, duration_ms, ended_at, ended_at);
        },
        RegistryCall::UpdateLanguage { id, language } => {
            law_updates_keep_ids_unique(s, id, language, 0, language, language);
        },
        RegistryCall::Rename { id, title } => {
            law_updates_keep_ids_unique(s, id, title, 0, title, title);
        },
        RegistryCall::DeleteMeeting { id } => {
            if spec_delete_meeting(s, id) is Ok {
                law_delete_keeps_ids_unique(s, id);
            }
        },
        RegistryCall::DeleteSpace { id } => {
            law_org_deletes_keep_ids_unique(s, id);
        },
        RegistryCall::DeleteProject { id } => {
            law_org_deletes_keep_ids_unique(s, id);
        },
        RegistryCall::Assign { meeting_id, space_id, project_id } => {
            if spec_assign_meeting(s, meeting_id, space_id, project_id) is Ok {
                law_assign_keeps_ids_unique(s, meeting_id, space_id, project_id);
            }
        },
        RegistryCall::CreateWithNote { meeting, note, ended_at, duration_ms } => {
            let stamp = pair_note_stamp(answer->Pair_0);
            if spec_create_meeting_with_note(s, meeting, note, ended_at, duration_ms, stamp) is Ok {
                law_create_with_note_keeps_ids_unique(s, meeting, note, ended_at, duration_ms, stamp);
            }
        },
        _ => {
            assert(next@.meetings == s.meetings);
        },
    }
}

/// Every registry reached by calls from one whose meeting ids are unique
/// (a fresh one among them, `law_empty_ids_unique`) has unique meeting ids:
/// what a type invariant of the store would say, stated over the steps
/// its calls take.
pub proof fn law_reachable_ids_unique(start: InMemoryStorage, t: Seq<Step<InMemoryStorage>>, end: InMemoryStorage)
    requires
        meeting_ids_unique(start@),
        ran(start, t, end),
    ensures
        meeting_ids_unique(end@),
    decreases t.len(),
{
    if t.len() > 0 {
        law_reachable_ids_unique(start, t.drop_last(), t.last().0);
        law_step_keeps_ids_unique(t.last().0, t.last().1, t.last().2, t.last().3);
    }
}

} // verus!
