//! The conformance suite every `Storage` adapter must pass.
//!
//! The suite checks what the port promises: a created meeting reads back
//! as created; a second create with the same id is `AlreadyExists` and one
//! with the same directory is a `UniqueConflict` on `dir_path`; unknown ids
//! are `NotFound`; listings come latest-first; updates, renames and
//! deletes persist, and deleting a meeting deletes its notes; a combined
//! meeting-and-note insert is all or nothing; spaces, projects and tags can
//! be created, listed, renamed and deleted; tagging is idempotent; filing a
//! meeting under a project files it under that project's space; and
//! deleting a space or project keeps the meetings but clears the filing.

use vstd::prelude::*;

use crate::storage::{
    RegistryAnswer, RegistryCall, rows,
    Meeting, MeetingDraft, MeetingListFilter, MeetingSummary, Note, NoteDraft, Storage,
    StorageError, Space, Tag, Project, FilterModel, ProjectModel, TagModel, MeetingDraftModel, NoteDraftModel, StorageErrorModel, MeetingModel, NoteModel, SummaryModel,
};
use crate::text::push_str;
use crate::search::{first_where, is_first, lemma_first_where, lemma_first_where_none};
use crate::conformance::storage_trace::{
    ran, extends, added, Trace, Step, t_assign_meeting, t_create_meeting, t_create_meeting_with_note, t_create_note, t_create_project, t_create_space, t_create_tag, t_delete_meeting, t_delete_project, t_delete_space, t_delete_tag, t_get_meeting, t_list_meetings, t_list_meetings_filtered, t_list_notes_for_meeting, t_list_projects, t_list_spaces, t_list_tags, t_list_tags_for_meeting, t_rename_meeting, t_rename_project, t_rename_space, t_replace_meeting_note, t_tag_meeting, t_untag_meeting, t_update_meeting_ended, t_update_meeting_language,
};

verus! {

fn fail<T>(check: &str) -> (r: Result<T, String>)
    ensures
        r is Err,
        r->Err_0@ == check@,
{
    Err(check.to_owned())
}

/// Whether `s` holds the text `t`.
fn is_text(s: &String, t: &str) -> (r: bool)
    ensures
        r == (s@ == t@),
{
    *s == t.to_owned()
}

/// Whether an optional string holds the text `t`.
fn is_some_text(o: &Option<String>, t: &str) -> (r: bool)
    ensures
        r == (crate::storage::opt_view(*o) == Some(t@)),
{
    match o {
        Some(s) => is_text(s, t),
        None => false,
    }
}

/// Whether two optional strings agree.
fn same_opt(a: &Option<String>, b: &Option<String>) -> (r: bool)
    ensures
        r == (crate::storage::opt_view(*a) == crate::storage::opt_view(*b)),
{
    match (a, b) {
        (Some(x), Some(y)) => *x == *y,
        (None, None) => true,
        _ => false,
    }
}

/// Whether two meetings agree field by field.
fn same_meeting(a: &Meeting, b: &Meeting) -> (r: bool)
    ensures
        r == (a@ == b@),
{
    a.id == b.id && a.title == b.title && a.started_at == b.started_at && same_opt(
        &a.ended_at,
        &b.ended_at,
    ) && a.duration_ms == b.duration_ms && a.language == b.language && a.dir_path == b.dir_path
}

fn owned(s: &str) -> (r: String)
    ensures
        r@ == s@,
{
    s.to_owned()
}

/// `/tmp/` followed by `name`.
fn tmp_path(name: &str) -> (r: String)
    ensures
        r@ == "/tmp/"@ + name@,
{
    let mut s = String::new();
    push_str(&mut s, "/tmp/");
    push_str(&mut s, name);
    s
}

/// A draft in `/tmp/{id}` with language `auto`.
fn draft(id: &str, title: &str, started_at: &str) -> (r: MeetingDraft)
    ensures
        r.id@ == id@,
        r.title@ == title@,
        r.started_at@ == started_at@,
        r.language@ == "auto"@,
        r.dir_path@ == "/tmp/"@ + id@,
{
    MeetingDraft {
        id: owned(id),
        title: owned(title),
        started_at: owned(started_at),
        language: owned("auto"),
        dir_path: tmp_path(id),
    }
}

fn note_draft(id: &str, meeting_id: &str, dialect: &str, content_md: &str, primary_path: &str) -> (r:
    NoteDraft)
    ensures
        r.id@ == id@,
        r.meeting_id@ == meeting_id@,
        r.dialect@ == dialect@,
        r.content_md@ == content_md@,
        r.primary_path@ == primary_path@,
{
    NoteDraft {
        id: owned(id),
        meeting_id: owned(meeting_id),
        dialect: owned(dialect),
        content_md: owned(content_md),
        primary_path: owned(primary_path),
    }
}

/// Some row of a listing has id `id`.
pub open spec fn row_listed(rows: Seq<MeetingSummary>, id: Seq<char>) -> bool {
    exists|i: int| 0 <= i < rows.len() && (#[trigger] rows[i]).id@ == id
}

/// The first row of a listing with id `id`.
fn first_row(rows: Vec<MeetingSummary>, meeting_id: &str) -> (r: Option<MeetingSummary>)
    ensures
        r is Some <==> row_listed(rows@, meeting_id@),
        r matches Some(m) ==> exists|i: int|
            0 <= i < rows@.len() && rows@[i] == m && m.id@ == meeting_id@ && forall|j: int|
                0 <= j < i ==> (#[trigger] rows@[j]).id@ != meeting_id@,
{
    let ghost all = rows@;
    let mut found: Option<MeetingSummary> = None;
    for row in it: rows.into_iter()
        invariant
            it.seq() == all,
            found is None ==> forall|j: int| 0 <= j < it.index() ==> (#[trigger] all[j]).id@ != meeting_id@,
            found matches Some(m) ==> exists|i: int|
                0 <= i < it.index() && all[i] == m && m.id@ == meeting_id@ && forall|j: int|
                    0 <= j < i ==> (#[trigger] all[j]).id@ != meeting_id@,
    {
        let ghost k = it.index();
        if found.is_none() && is_text(&row.id, meeting_id) {
            assert(all[k as int] == row);
            found = Some(row);
        }
    }
    found
}

/// A listing row's meeting id is `id`.
pub open spec fn row_is(id: Seq<char>) -> spec_fn(SummaryModel) -> bool {
    |m: SummaryModel| m.id == id
}

/// The first row of a listing answer whose meeting id is `id`; `None` when
/// the answer is a failure or has no such row.
pub open spec fn first_summary(a: RegistryAnswer, id: Seq<char>) -> Option<SummaryModel> {
    match a {
        RegistryAnswer::Summaries(Ok(ls)) => match first_where(ls, row_is(id)) {
            Some(i) => Some(ls[i]),
            None => None,
        },
        _ => None,
    }
}

/// The row of `m` as a value.
pub open spec fn opt_summary(m: Option<MeetingSummary>) -> Option<SummaryModel> {
    match m {
        Some(x) => Some(x@),
        None => None,
    }
}

/// The first listing row of `meeting_id`, if the listing has one.
fn summary<S: Storage>(adapter: &mut S, t: &mut Ghost<Trace<S>>, meeting_id: &str) -> (r: Option<MeetingSummary>)
    requires
        ran(old(t)@.0, old(t)@.1, *old(adapter)),
    ensures
        ran(final(t)@.0, final(t)@.1, *final(adapter)),
        final(t)@.0 == old(t)@.0,
        final(t)@.1 == old(t)@.1.push(final(t)@.1.last()),
        final(t)@.1.last().1 == RegistryCall::ListMeetings,
        opt_summary(r) == first_summary(final(t)@.1.last().3, meeting_id@),
{
    match t_list_meetings(adapter, t) {
        Ok(rows) => {
            let r = first_row(rows, meeting_id);
            proof {
                let ls = rows@.map_values(|x: MeetingSummary| x@);
                if r is Some {
                    let i = choose|i: int| 0 <= i < rows@.len() && rows@[i] == r->0 && r->0.id@ == meeting_id@ && forall|j: int|
                        0 <= j < i ==> (#[trigger] rows@[j]).id@ != meeting_id@;
                    assert forall|j: int| 0 <= j < i implies !row_is(meeting_id@)(#[trigger] ls[j]) by {
                        assert(rows@[j].id@ != meeting_id@);
                    }
                    assert(is_first(ls, row_is(meeting_id@), i));
                    lemma_first_where(ls, row_is(meeting_id@), i);
                } else {
                    assert forall|i: int| 0 <= i < ls.len() implies !row_is(meeting_id@)(#[trigger] ls[i]) by {
                        if ls[i].id == meeting_id@ {
                            assert(rows@[i].id@ == meeting_id@);
                        }
                    }
                    lemma_first_where_none(ls, row_is(meeting_id@));
                }
            }
            r
        },
        Err(_) => None,
    }
}

/// The spaces of a listing as values.
pub open spec fn space_models(v: Seq<Space>) -> Seq<crate::storage::SpaceModel> {
    v.map_values(|x: Space| x@)
}

/// The tags of a listing as values.
pub open spec fn tag_models(v: Seq<Tag>) -> Seq<TagModel> {
    v.map_values(|x: Tag| x@)
}

/// The projects of a listing as values.
pub open spec fn project_models(v: Seq<Project>) -> Seq<ProjectModel> {
    v.map_values(|x: Project| x@)
}

/// Whether some space of `spaces` has id `id`.
fn lists_space(spaces: &Vec<Space>, id: &String) -> (r: bool)
    ensures
        r == exists|i: int| 0 <= i < spaces@.len() && (#[trigger] spaces@[i]).id@ == id@,
        !r ==> forall|k: int| 0 <= k < spaces@.len() ==> (#[trigger] space_models(spaces@)[k]).id != id@,
{
    let mut i: usize = 0;
    while i < spaces.len()
        invariant
            i <= spaces@.len(),
            forall|j: int| 0 <= j < i ==> (#[trigger] spaces@[j]).id@ != id@,
        decreases spaces.len() - i,
    {
        if spaces[i].id == *id {
            return true;
        }
        i = i + 1;
    }
    false
}

/// Whether some space of `spaces` has id `id` and name `name`.
fn has_space_named(spaces: &Vec<Space>, id: &String, name: &str) -> (r: bool)
    ensures
        r == exists|i: int| 0 <= i < spaces@.len() && (#[trigger] spaces@[i]).id@ == id@ && spaces@[i].name@ == name@,
        r ==> exists|k: int| 0 <= k < spaces@.len() && (#[trigger] space_models(spaces@)[k]).id == id@
            && space_models(spaces@)[k].name == name@,
{
    let mut i: usize = 0;
    while i < spaces.len()
        invariant
            i <= spaces@.len(),
            forall|j: int| 0 <= j < i ==> !((#[trigger] spaces@[j]).id@ == id@ && spaces@[j].name@ == name@),
        decreases spaces.len() - i,
    {
        if spaces[i].id == *id && is_text(&spaces[i].name, name) {
            assert(space_models(spaces@)[i as int].id == id@);
            return true;
        }
        i = i + 1;
    }
    false
}

/// Whether some tag of `tags` has id `id` and name `name`.
fn has_tag_named(tags: &Vec<Tag>, id: &String, name: &str) -> (r: bool)
    ensures
        r == exists|i: int| 0 <= i < tags@.len() && (#[trigger] tags@[i]).id@ == id@ && tags@[i].name@ == name@,
        r ==> exists|k: int| 0 <= k < tags@.len() && (#[trigger] tag_models(tags@)[k]).id == id@
            && tag_models(tags@)[k].name == name@,
{
    let mut i: usize = 0;
    while i < tags.len()
        invariant
            i <= tags@.len(),
            forall|j: int| 0 <= j < i ==> !((#[trigger] tags@[j]).id@ == id@ && tags@[j].name@ == name@),
        decreases tags.len() - i,
    {
        if tags[i].id == *id && is_text(&tags[i].name, name) {
            assert(tag_models(tags@)[i as int].id == id@);
            return true;
        }
        i = i + 1;
    }
    false
}

/// Whether some project of `projects` has id `id`.
fn lists_project(projects: &Vec<Project>, id: &String) -> (r: bool)
    ensures
        r == exists|i: int| 0 <= i < projects@.len() && (#[trigger] projects@[i]).id@ == id@,
        r ==> exists|k: int| 0 <= k < projects@.len() && (#[trigger] project_models(projects@)[k]).id == id@,
{
    let mut i: usize = 0;
    while i < projects.len()
        invariant
            i <= projects@.len(),
            forall|j: int| 0 <= j < i ==> (#[trigger] projects@[j]).id@ != id@,
        decreases projects.len() - i,
    {
        if projects[i].id == *id {
            assert(project_models(projects@)[i as int].id == id@);
            return true;
        }
        i = i + 1;
    }
    false
}

/// Whether some tag of `tags` has id `id`.
fn lists_tag(tags: &Vec<Tag>, id: &String) -> (r: bool)
    ensures
        r == exists|i: int| 0 <= i < tags@.len() && (#[trigger] tags@[i]).id@ == id@,
        !r ==> forall|k: int| 0 <= k < tags@.len() ==> (#[trigger] tag_models(tags@)[k]).id != id@,
{
    let mut i: usize = 0;
    while i < tags.len()
        invariant
            i <= tags@.len(),
            forall|j: int| 0 <= j < i ==> (#[trigger] tags@[j]).id@ != id@,
        decreases tags.len() - i,
    {
        if tags[i].id == *id {
            return true;
        }
        i = i + 1;
    }
    false
}

/// Whether some row of the listing has id `id`.
fn lists(rows: &Vec<MeetingSummary>, id: &str) -> (r: bool)
    ensures
        r == row_listed(rows@, id@),
{
    let mut i: usize = 0;
    while i < rows.len()
        invariant
            i <= rows@.len(),
            forall|j: int| 0 <= j < i ==> (#[trigger] rows@[j]).id@ != id@,
        decreases rows.len() - i,
    {
        if is_text(&rows[i].id, id) {
            return true;
        }
        i = i + 1;
    }
    false
}

/// Membership in `ids`.
pub open spec fn among(ids: Seq<Seq<char>>) -> spec_fn(Seq<char>) -> bool {
    |x: Seq<char>| ids.contains(x)
}

/// The ids of a listing that are among `ids`, in listing order.
pub open spec fn ids_among(rows: Seq<MeetingSummary>, ids: Seq<Seq<char>>) -> Seq<Seq<char>> {
    rows.map_values(|m: MeetingSummary| m.id@).filter(among(ids))
}

/// The texts of a list of strings.
pub open spec fn str_views(v: Seq<&str>) -> Seq<Seq<char>> {
    v.map_values(|s: &str| s@)
}

/// The texts of a list of owned strings.
pub open spec fn string_views(v: Seq<String>) -> Seq<Seq<char>> {
    v.map_values(|s: String| s@)
}

/// The ids of the listing that are among `ids`, in listing order.
fn listed_among(rows: &Vec<MeetingSummary>, ids: &Vec<&str>) -> (r: Vec<String>)
    ensures
        string_views(r@) == ids_among(rows@, str_views(ids@)),
        string_views(r@) == model_ids_among(rows@.map_values(|x: MeetingSummary| x@), str_views(ids@)),
{
    let ghost want = str_views(ids@);
    let ghost all = rows@.map_values(|m: MeetingSummary| m.id@);
    let mut out: Vec<String> = Vec::new();
    let mut i: usize = 0;
    assert(string_views(out@) =~= all.take(0).filter(among(want)));
    while i < rows.len()
        invariant
            i <= rows@.len(),
            want == str_views(ids@),
            all == rows@.map_values(|m: MeetingSummary| m.id@),
            string_views(out@) == all.take(i as int).filter(among(want)),
        decreases rows.len() - i,
    {
        let mut j: usize = 0;
        let mut hit = false;
        while j < ids.len()
            invariant
                i < rows@.len(),
                j <= ids@.len(),
                want == str_views(ids@),
                hit <==> exists|q: int| 0 <= q < j && (#[trigger] want[q]) == rows@[i as int].id@,
            decreases ids.len() - j,
        {
            if is_text(&rows[i].id, ids[j]) {
                hit = true;
                assert(want[j as int] == rows@[i as int].id@);
            }
            j = j + 1;
        }
        proof {
            assert(all.take(i + 1) =~= all.take(i as int).push(all[i as int]));
            all.take(i as int).lemma_filter_push(all[i as int], among(want));
            if hit {
                let q = choose|q: int| 0 <= q < ids@.len() && (#[trigger] want[q]) == rows@[i as int].id@;
                assert(want.contains(all[i as int]));
            } else {
                assert(!want.contains(all[i as int]));
            }
        }
        if hit {
            let ghost before = string_views(out@);
            out.push(rows[i].id.clone());
            assert(string_views(out@) =~= before.push(all[i as int]));
        }
        i = i + 1;
    }
    assert(all.take(i as int) =~= all);
    assert(rows@.map_values(|x: MeetingSummary| x@).map_values(|m: SummaryModel| m.id) =~= all);
    out
}

/// Whether `got` is exactly the texts `want`.
fn texts_are(got: &Vec<String>, want: &Vec<&str>) -> (r: bool)
    ensures
        r == (string_views(got@) == str_views(want@)),
{
    if got.len() != want.len() {
        assert(string_views(got@).len() != str_views(want@).len());
        return false;
    }
    let mut i: usize = 0;
    while i < got.len()
        invariant
            got.len() == want.len(),
            i <= got@.len(),
            forall|j: int| 0 <= j < i ==> (#[trigger] got@[j])@ == want@[j]@,
        decreases got.len() - i,
    {
        if !is_text(&got[i], want[i]) {
            assert(string_views(got@)[i as int] != str_views(want@)[i as int]);
            return false;
        }
        i = i + 1;
    }
    assert(string_views(got@) =~= str_views(want@));
    true
}

/// Whether `e` is a `NotFound` of `kind`.
fn is_not_found(e: &StorageError, kind: &str) -> (r: bool)
    ensures
        r == (e matches StorageError::NotFound { kind: k, .. } && k@ == kind@),
{
    match e {
        StorageError::NotFound { kind: k, .. } => is_text(&owned(k), kind),
        _ => false,
    }
}

fn create_get_round_trip<S: Storage>(adapter: &mut S, t: &mut Ghost<Trace<S>>) -> (r: Result<(), String>)
    requires
        ran(old(t)@.0, old(t)@.1, *old(adapter)),
    ensures
        ran(final(t)@.0, final(t)@.1, *final(adapter)),
        extends(old(t)@, final(t)@),
        round_trip_calls(added(old(t)@, final(t)@)),
        r is Ok <==> round_trip_ok(added(old(t)@, final(t)@)),
{
    let id = "m_round_trip";
    let m = match t_create_meeting(adapter, t, draft(id, "Round Trip", "2026-05-05T10:00:00+00:00")) {
        Ok(m) => m,
        Err(_) => {
            return fail("create_meeting should succeed");
        },
    };
    if !is_text(&m.id, id) || !is_text(&m.title, "Round Trip") || m.ended_at.is_some()
        || m.duration_ms.is_some() {
        return fail("create_meeting should return the persisted row");
    }
    match t_get_meeting(adapter, t, id) {
        Ok(again) => {
            if !same_meeting(&again, &m) {
                return fail("get_meeting should return the created row");
            }
        },
        Err(_) => {
            return fail("get_meeting should find the row");
        },
    }
    Ok(())
}

fn create_duplicate_id_is_already_exists<S: Storage>(adapter: &mut S, t: &mut Ghost<Trace<S>>) -> (r: Result<(), String>)
    requires
        ran(old(t)@.0, old(t)@.1, *old(adapter)),
    ensures
        ran(final(t)@.0, final(t)@.1, *final(adapter)),
        extends(old(t)@, final(t)@),
        duplicate_id_calls(added(old(t)@, final(t)@)),
        r is Ok <==> duplicate_id_ok(added(old(t)@, final(t)@)),
{
    let id = "m_dup";
    let first = MeetingDraft {
        id: owned(id),
        title: owned("Dup"),
        started_at: owned("2026-05-05T10:00:00+00:00"),
        language: owned("auto"),
        dir_path: owned("/tmp/m_dup_first"),
    };
    if t_create_meeting(adapter, t, first).is_err() {
        return fail("first create should succeed");
    }
    let second = MeetingDraft {
        id: owned(id),
        title: owned("Dup again"),
        started_at: owned("2026-05-05T10:00:00+00:00"),
        language: owned("auto"),
        dir_path: owned("/tmp/m_dup_second"),
    };
    match t_create_meeting(adapter, t, second) {
        Ok(_) => fail("second create should fail"),
        Err(StorageError::AlreadyExists { id: got, kind }) => {
            if is_text(&got, id) && is_text(&owned(kind), "meeting") {
                Ok(())
            } else {
                fail("expected AlreadyExists for the meeting id")
            }
        },
        Err(_) => fail("expected AlreadyExists"),
    }
}

fn create_duplicate_dir_path_is_unique_conflict<S: Storage>(adapter: &mut S, t: &mut Ghost<Trace<S>>) -> (r: Result<(), String>)
    requires
        ran(old(t)@.0, old(t)@.1, *old(adapter)),
    ensures
        ran(final(t)@.0, final(t)@.1, *final(adapter)),
        extends(old(t)@, final(t)@),
        duplicate_dir_calls(added(old(t)@, final(t)@)),
        r is Ok <==> duplicate_dir_ok(added(old(t)@, final(t)@)),
{
    let dir = "/tmp/share_this_dir_dup";
    let a = MeetingDraft {
        id: owned("m_dir_a"),
        title: owned("A"),
        started_at: owned("2026-05-05T10:00:00+00:00"),
        language: owned("auto"),
        dir_path: owned(dir),
    };
    if t_create_meeting(adapter, t, a).is_err() {
        return fail("first create should succeed");
    }
    let b = MeetingDraft {
        id: owned("m_dir_b"),
        title: owned("B"),
        started_at: owned("2026-05-05T10:00:00+00:00"),
        language: owned("auto"),
        dir_path: owned(dir),
    };
    match t_create_meeting(adapter, t, b) {
        Ok(_) => fail("second create with same dir_path should fail"),
        Err(StorageError::UniqueConflict { kind, field, value }) => {
            if is_text(&owned(kind), "meeting") && is_text(&owned(field), "dir_path") && is_text(
                &value,
                dir,
            ) {
                Ok(())
            } else {
                fail("expected UniqueConflict on meeting.dir_path")
            }
        },
        Err(_) => fail("expected UniqueConflict on dir_path"),
    }
}

fn get_unknown_id_is_not_found<S: Storage>(adapter: &mut S, t: &mut Ghost<Trace<S>>) -> (r: Result<(), String>)
    requires
        ran(old(t)@.0, old(t)@.1, *old(adapter)),
    ensures
        ran(final(t)@.0, final(t)@.1, *final(adapter)),
        extends(old(t)@, final(t)@),
        unknown_get_calls(added(old(t)@, final(t)@)),
        r is Ok <==> unknown_get_ok(added(old(t)@, final(t)@)),
{
    match t_get_meeting(adapter, t, "does-not-exist") {
        Ok(_) => fail("get of unknown id should fail"),
        Err(StorageError::NotFound { id, kind }) => {
            if is_text(&id, "does-not-exist") && is_text(&owned(kind), "meeting") {
                Ok(())
            } else {
                fail("expected NotFound for the meeting id")
            }
        },
        Err(_) => fail("expected NotFound"),
    }
}

fn list_returns_started_at_desc<S: Storage>(adapter: &mut S, t: &mut Ghost<Trace<S>>) -> (r: Result<(), String>)
    requires
        ran(old(t)@.0, old(t)@.1, *old(adapter)),
    ensures
        ran(final(t)@.0, final(t)@.1, *final(adapter)),
        extends(old(t)@, final(t)@),
        latest_first_calls(added(old(t)@, final(t)@)),
        r is Ok <==> latest_first_ok(added(old(t)@, final(t)@)),
{
    let _ = t_create_meeting(adapter, t, draft("a", "A", "2026-05-01T10:00:00+00:00"));
    let _ = t_create_meeting(adapter, t, draft("b", "B", "2026-05-03T10:00:00+00:00"));
    let _ = t_create_meeting(adapter, t, draft("c", "C", "2026-05-02T10:00:00+00:00"));
    if t_update_meeting_language(adapter, t, "b", "es").is_err() {
        return fail("language update should succeed");
    }
    if t_update_meeting_ended(adapter, t, "b", "2026-05-03T10:30:00+00:00", 1_800_000).is_err() {
        return fail("ended update should succeed");
    }
    if t_create_note(adapter, t, 
        note_draft("n_list_b", "b", "basic", "# listed", "/tmp/b/notes.md"),
    ).is_err() {
        return fail("note create should succeed");
    }
    let rows = match t_list_meetings(adapter, t) {
        Ok(rows) => rows,
        Err(_) => {
            return fail("list should succeed");
        },
    };
    let ids = vec!["a", "b", "c"];
    let want = vec!["b", "c", "a"];
    let our = listed_among(&rows, &ids);
    proof {
        assert(str_views(ids@) =~= seq!["a"@, "b"@, "c"@]);
        assert(str_views(want@) =~= seq!["b"@, "c"@, "a"@]);
    }
    if !texts_are(&our, &want) {
        return fail("list_meetings should return started_at DESC");
    }
    match summary(adapter, t, "b") {
        Some(b) => {
            if !is_text(&b.title, "B") || !is_text(&b.started_at, "2026-05-03T10:00:00+00:00")
                || !is_some_text(&b.ended_at, "2026-05-03T10:30:00+00:00") || b.duration_ms
                != 1_800_000 || !is_text(&b.language, "es") || !b.has_notes {
                return fail("summary of b should reflect its updates and note");
            }
        },
        None => {
            return fail("b summary");
        },
    }
    match summary(adapter, t, "a") {
        Some(a) => {
            if a.ended_at.is_some() || a.duration_ms != 0 || !is_text(&a.language, "auto")
                || a.has_notes {
                return fail("summary of a should be untouched and without notes");
            }
        },
        None => {
            return fail("a summary");
        },
    }
    Ok(())
}

fn update_meeting_ended_writes_duration<S: Storage>(adapter: &mut S, t: &mut Ghost<Trace<S>>) -> (r: Result<(), String>)
    requires
        ran(old(t)@.0, old(t)@.1, *old(adapter)),
    ensures
        ran(final(t)@.0, final(t)@.1, *final(adapter)),
        extends(old(t)@, final(t)@),
        ended_calls(added(old(t)@, final(t)@)),
        r is Ok <==> ended_ok(added(old(t)@, final(t)@)),
{
    let id = "m_end";
    if t_create_meeting(adapter, t, draft(id, "End", "2026-05-05T10:00:00+00:00")).is_err() {
        return fail("create should succeed");
    }
    match t_update_meeting_ended(adapter, t, id, "2026-05-05T11:00:00+00:00", 3_600_000) {
        Ok(updated) => {
            if !is_some_text(&updated.ended_at, "2026-05-05T11:00:00+00:00")
                || updated.duration_ms != Some(3_600_000u64) {
                return fail("update_meeting_ended should return the ended row");
            }
        },
        Err(_) => {
            return fail("update_meeting_ended should succeed");
        },
    }
    match t_get_meeting(adapter, t, id) {
        Ok(round) => {
            if !is_some_text(&round.ended_at, "2026-05-05T11:00:00+00:00") || round.duration_ms
                != Some(3_600_000u64) {
                return fail("the end should persist");
            }
        },
        Err(_) => {
            return fail("get after update should succeed");
        },
    }
    Ok(())
}

fn update_meeting_language_persists<S: Storage>(adapter: &mut S, t: &mut Ghost<Trace<S>>) -> (r: Result<(), String>)
    requires
        ran(old(t)@.0, old(t)@.1, *old(adapter)),
    ensures
        ran(final(t)@.0, final(t)@.1, *final(adapter)),
        extends(old(t)@, final(t)@),
        language_calls(added(old(t)@, final(t)@)),
        r is Ok <==> language_ok(added(old(t)@, final(t)@)),
{
    let id = "m_lang";
    if t_create_meeting(adapter, t, draft(id, "Lang", "2026-05-05T10:00:00+00:00")).is_err() {
        return fail("create should succeed");
    }
    match t_update_meeting_language(adapter, t, id, "es") {
        Ok(updated) => {
            if !is_text(&updated.language, "es") {
                return fail("update_meeting_language should return the new language");
            }
        },
        Err(_) => {
            return fail("update_meeting_language should succeed");
        },
    }
    match t_get_meeting(adapter, t, id) {
        Ok(round) => {
            if !is_text(&round.language, "es") {
                return fail("the language should persist");
            }
        },
        Err(_) => {
            return fail("get after update should succeed");
        },
    }
    Ok(())
}

fn rename_meeting_persists_title<S: Storage>(adapter: &mut S, t: &mut Ghost<Trace<S>>) -> (r: Result<(), String>)
    requires
        ran(old(t)@.0, old(t)@.1, *old(adapter)),
    ensures
        ran(final(t)@.0, final(t)@.1, *final(adapter)),
        extends(old(t)@, final(t)@),
        rename_calls(added(old(t)@, final(t)@)),
        r is Ok <==> rename_ok(added(old(t)@, final(t)@)),
{
    let id = "m_rename";
    if t_create_meeting(adapter, t, draft(id, "Before", "2026-05-05T10:00:00+00:00")).is_err() {
        return fail("create should succeed");
    }
    match t_rename_meeting(adapter, t, id, "After") {
        Ok(updated) => {
            if !is_text(&updated.title, "After") || !is_text(&updated.id, id) || !is_text(
                &updated.language,
                "auto",
            ) {
                return fail("rename_meeting should change the title only");
            }
        },
        Err(_) => {
            return fail("rename_meeting should succeed");
        },
    }
    match t_get_meeting(adapter, t, id) {
        Ok(round) => {
            if !is_text(&round.title, "After") {
                return fail("the title should persist");
            }
        },
        Err(_) => {
            return fail("get after rename should succeed");
        },
    }
    match t_rename_meeting(adapter, t, "does-not-exist", "X") {
        Ok(_) => fail("rename of unknown id should fail"),
        Err(e) => if is_not_found(&e, "meeting") {
            Ok(())
        } else {
            fail("expected NotFound for the meeting")
        },
    }
}

fn delete_meeting_cascades_to_notes<S: Storage>(adapter: &mut S, t: &mut Ghost<Trace<S>>) -> (r: Result<(), String>)
    requires
        ran(old(t)@.0, old(t)@.1, *old(adapter)),
    ensures
        ran(final(t)@.0, final(t)@.1, *final(adapter)),
        extends(old(t)@, final(t)@),
        cascade_calls(added(old(t)@, final(t)@)),
        r is Ok <==> cascade_ok(added(old(t)@, final(t)@)),
{
    let m = "m_del";
    if t_create_meeting(adapter, t, draft(m, "Del", "2026-05-05T10:00:00+00:00")).is_err() {
        return fail("create should succeed");
    }
    if t_create_note(adapter, t, note_draft("n_del", m, "basic", "# hi", "/tmp/notes.md")).is_err() {
        return fail("note create should succeed");
    }
    if t_delete_meeting(adapter, t, m).is_err() {
        return fail("delete should succeed");
    }
    match t_get_meeting(adapter, t, m) {
        Ok(_) => {
            return fail("meeting should be gone");
        },
        Err(StorageError::NotFound { .. }) => {},
        Err(_) => {
            return fail("expected NotFound after delete");
        },
    }
    match t_list_notes_for_meeting(adapter, t, m) {
        Ok(notes) => if notes.len() == 0 {
            Ok(())
        } else {
            fail("expected zero notes after cascade")
        },
        Err(_) => fail("list notes should not error on a deleted meeting"),
    }
}

fn create_and_list_notes_for_meeting<S: Storage>(adapter: &mut S, t: &mut Ghost<Trace<S>>) -> (r: Result<(), String>)
    requires
        ran(old(t)@.0, old(t)@.1, *old(adapter)),
    ensures
        ran(final(t)@.0, final(t)@.1, *final(adapter)),
        extends(old(t)@, final(t)@),
        notes_listed_calls(added(old(t)@, final(t)@)),
        r is Ok <==> notes_listed_ok(added(old(t)@, final(t)@)),
{
    let m = "m_notes";
    if t_create_meeting(adapter, t, draft(m, "Notes", "2026-05-05T10:00:00+00:00")).is_err() {
        return fail("create should succeed");
    }
    match t_create_note(adapter, t, 
        note_draft("n_one", m, "notion-enhanced", "# notes", "/tmp/m_notes/notes.md"),
    ) {
        Ok(n) => {
            if !is_text(&n.id, "n_one") || n.created_at.as_str().is_empty() {
                return fail("create_note should return the note with created_at set");
            }
        },
        Err(_) => {
            return fail("create_note should succeed");
        },
    }
    match t_list_notes_for_meeting(adapter, t, m) {
        Ok(rows) => if rows.len() == 1 && is_text(&rows[0].id, "n_one") {
            Ok(())
        } else {
            fail("list_notes should return the one note")
        },
        Err(_) => fail("list_notes should succeed"),
    }
}

/// What replacing a meeting's note must answer: the fresh note, created no
/// earlier than the note it replaces.
pub open spec fn replaced_ok(replaced: Result<Note, StorageError>, original_created_at: Seq<char>) -> bool {
    &&& replaced matches Ok(n)
    &&& n.id@ == "n_replaced"@
    &&& n.content_md@ == "# edited by user"@
    &&& n.dialect@ == "basic"@
    &&& n.created_at@.len() > 0
    &&& !crate::text::text_less(n.created_at@, original_created_at)
}

/// The verdict on the answer of `replace_meeting_note` over an existing
/// note (see `replaced_ok`).
pub fn replaced_verdict(replaced: &Result<Note, StorageError>, original_created_at: &str) -> (r: Result<
    (),
    String,
>)
    ensures
        r is Ok <==> replaced_ok(*replaced, original_created_at@),
{
    match replaced {
        Ok(n) => {
            if !is_text(&n.id, "n_replaced") || !is_text(&n.content_md, "# edited by user") || !is_text(
                &n.dialect,
                "basic",
            ) || n.created_at.as_str().is_empty() || crate::text::text_lt(
                n.created_at.as_str(),
                original_created_at,
            ) {
                fail("replace_meeting_note should return the fresh note")
            } else {
                Ok(())
            }
        },
        Err(_) => fail("replace_meeting_note should succeed"),
    }
}

/// What listing the notes after a replace must answer: exactly the
/// replacing note.
pub open spec fn sole_note_ok(rows: Result<Vec<Note>, StorageError>) -> bool {
    &&& rows matches Ok(v)
    &&& v@.len() == 1
    &&& v@[0].id@ == "n_replaced"@
    &&& v@[0].content_md@ == "# edited by user"@
}

/// The verdict on the notes listed after a replace (see `sole_note_ok`).
pub fn sole_note_verdict(rows: &Result<Vec<Note>, StorageError>) -> (r: Result<(), String>)
    ensures
        r is Ok <==> sole_note_ok(*rows),
{
    match rows {
        Ok(v) => {
            if v.len() == 1 && is_text(&v[0].id, "n_replaced") && is_text(&v[0].content_md, "# edited by user") {
                Ok(())
            } else {
                fail("replace must leave exactly one note row")
            }
        },
        Err(_) => fail("list after replace"),
    }
}

/// What replacing the note of a meeting with none must answer and leave:
/// the new note, and one note row.
pub open spec fn fresh_replace_ok(fresh: Result<Note, StorageError>, rows: Result<Vec<Note>, StorageError>) -> bool {
    &&& fresh matches Ok(n)
    &&& n.content_md@ == "# fresh"@
    &&& rows matches Ok(v)
    &&& v@.len() == 1
}

/// The verdict on replacing the note of a meeting with none (see
/// `fresh_replace_ok`).
pub fn fresh_replace_verdict(fresh: &Result<Note, StorageError>, rows: &Result<Vec<Note>, StorageError>) -> (r:
    Result<(), String>)
    ensures
        r is Ok <==> fresh_replace_ok(*fresh, *rows),
{
    match fresh {
        Ok(n) => {
            if !is_text(&n.content_md, "# fresh") {
                return fail("replace should create the note");
            }
        },
        Err(_) => {
            return fail("replace on meeting with no notes should create");
        },
    }
    match rows {
        Ok(v) => if v.len() == 1 {
            Ok(())
        } else {
            fail("replace on a meeting without notes should leave one")
        },
        Err(_) => fail("list after fresh replace"),
    }
}

/// Replaces a meeting's note, then the note of a meeting with none, and
/// judges the answers (`replaced_verdict`, `sole_note_verdict`,
/// `fresh_replace_verdict`): it passes only on answers the adapter gave
/// that the verdicts accept.
fn replace_meeting_note_replaces_existing<S: Storage>(adapter: &mut S, t: &mut Ghost<Trace<S>>) -> (r: Result<(), String>)
    requires
        ran(old(t)@.0, old(t)@.1, *old(adapter)),
    ensures
        ran(final(t)@.0, final(t)@.1, *final(adapter)),
        extends(old(t)@, final(t)@),
        replace_calls(added(old(t)@, final(t)@)),
        r is Ok <==> replace_ok(added(old(t)@, final(t)@)),
{
    let m = "m_replace_note";
    if t_create_meeting(adapter, t, draft(m, "Replace Note", "2026-05-05T10:00:00+00:00")).is_err() {
        return fail("create should succeed");
    }
    let original = match t_create_note(adapter, t, 
        note_draft(
            "n_original",
            m,
            "notion-enhanced",
            "# original",
            "/tmp/m_replace_note/notes.md",
        ),
    ) {
        Ok(n) => n,
        Err(_) => {
            return fail("create original note");
        },
    };
    let d1 = note_draft("n_replaced", m, "basic", "# edited by user", "/tmp/m_replace_note/notes.md");
    let replaced = t_replace_meeting_note(adapter, t, m, d1);
    if let Err(e) = replaced_verdict(&replaced, original.created_at.as_str()) {
        return Err(e);
    }
    let rows = t_list_notes_for_meeting(adapter, t, m);
    if let Err(e) = sole_note_verdict(&rows) {
        return Err(e);
    }
    if t_delete_meeting(adapter, t, m).is_err() {
        return fail("delete should succeed");
    }
    let m2 = "m_replace_note_fresh";
    if t_create_meeting(adapter, t, draft(m2, "Fresh", "2026-05-05T11:00:00+00:00")).is_err() {
        return fail("create should succeed");
    }
    let d2 = note_draft("n_fresh", m2, "basic", "# fresh", "/tmp/m_fresh/notes.md");
    let fresh = t_replace_meeting_note(adapter, t, m2, d2);
    if fresh.is_err() {
        return fail("replace on meeting with no notes should create");
    }
    let rows2 = t_list_notes_for_meeting(adapter, t, m2);
    let r = fresh_replace_verdict(&fresh, &rows2);
    r
}

fn replace_meeting_note_unknown_meeting_is_not_found<S: Storage>(adapter: &mut S, t: &mut Ghost<Trace<S>>) -> (r: Result<(), String>)
    requires
        ran(old(t)@.0, old(t)@.1, *old(adapter)),
    ensures
        ran(final(t)@.0, final(t)@.1, *final(adapter)),
        extends(old(t)@, final(t)@),
        replace_unknown_calls(added(old(t)@, final(t)@)),
        r is Ok <==> replace_unknown_ok(added(old(t)@, final(t)@)),
{
    match t_replace_meeting_note(adapter, t, 
        "does-not-exist",
        note_draft("n_orphan", "does-not-exist", "basic", "x", "/tmp/x.md"),
    ) {
        Ok(_) => fail("replace for unknown meeting must fail"),
        Err(e) => if is_not_found(&e, "meeting") {
            Ok(())
        } else {
            fail("expected NotFound for the meeting")
        },
    }
}

fn create_meeting_with_note_atomic_happy_path<S: Storage>(adapter: &mut S, t: &mut Ghost<Trace<S>>) -> (r: Result<(), String>)
    requires
        ran(old(t)@.0, old(t)@.1, *old(adapter)),
    ensures
        ran(final(t)@.0, final(t)@.1, *final(adapter)),
        extends(old(t)@, final(t)@),
        atomic_calls(added(old(t)@, final(t)@)),
        r is Ok <==> atomic_ok(added(old(t)@, final(t)@)),
{
    let m_id = "m_atomic_ok";
    let n_id = "n_atomic_ok";
    let md = MeetingDraft {
        id: owned(m_id),
        title: owned("Atomic OK"),
        started_at: owned("2026-05-05T10:00:00+00:00"),
        language: owned("auto"),
        dir_path: tmp_path(m_id),
    };
    let mut note_path = tmp_path(m_id);
    push_str(&mut note_path, "/notes.md");
    let nd = NoteDraft {
        id: owned(n_id),
        meeting_id: owned(m_id),
        dialect: owned("basic"),
        content_md: owned("# atomic"),
        primary_path: note_path,
    };
    match t_create_meeting_with_note(adapter, t, 
        md,
        nd,
        Some("2026-05-05T10:30:00+00:00"),
        Some(1_800_000),
    ) {
        Ok((m, n)) => {
            if !is_text(&m.id, m_id) || !is_some_text(&m.ended_at, "2026-05-05T10:30:00+00:00")
                || m.duration_ms != Some(1_800_000u64) || !is_text(&n.id, n_id) || !is_text(
                &n.meeting_id,
                m_id,
            ) {
                return fail("atomic create should return both rows");
            }
        },
        Err(_) => {
            return fail("atomic create should succeed");
        },
    }
    match t_list_notes_for_meeting(adapter, t, m_id) {
        Ok(notes) => if notes.len() == 1 {
            Ok(())
        } else {
            fail("atomic create should leave one note")
        },
        Err(_) => fail("list notes after atomic create"),
    }
}

/// Seeds a note, then inserts a meeting together with a note under the
/// same note id, and judges the answers (`rollback_verdict`): it passes
/// only on answers the adapter gave that the verdict accepts.
fn create_meeting_with_note_rolls_back_on_note_collision<S: Storage>(adapter: &mut S, t: &mut Ghost<Trace<S>>) -> (r: Result<(), String>)
    requires
        ran(old(t)@.0, old(t)@.1, *old(adapter)),
    ensures
        ran(final(t)@.0, final(t)@.1, *final(adapter)),
        extends(old(t)@, final(t)@),
        rollback_run_calls(added(old(t)@, final(t)@)),
        r is Ok <==> rollback_run_ok(added(old(t)@, final(t)@)),
{
    let pre_m = "m_atomic_pre";
    let collide_n = "n_atomic_pre";
    let pre = MeetingDraft {
        id: owned(pre_m),
        title: owned("Pre"),
        started_at: owned("2026-05-05T10:00:00+00:00"),
        language: owned("auto"),
        dir_path: tmp_path(pre_m),
    };
    if t_create_meeting(adapter, t, pre).is_err() {
        return fail("pre-seeded meeting");
    }
    if t_create_note(adapter, t, note_draft(collide_n, pre_m, "basic", "pre", "/tmp/pre")).is_err() {
        return fail("pre-seeded note");
    }
    let new_m = "m_atomic_rollback";
    let md = MeetingDraft {
        id: owned(new_m),
        title: owned("Rollback"),
        started_at: owned("2026-05-05T10:00:00+00:00"),
        language: owned("auto"),
        dir_path: tmp_path(new_m),
    };
    let mut note_path = tmp_path(new_m);
    push_str(&mut note_path, "/notes.md");
    let nd = NoteDraft {
        id: owned(collide_n),
        meeting_id: owned(new_m),
        dialect: owned("basic"),
        content_md: owned("should not commit"),
        primary_path: note_path,
    };
    let combined = t_create_meeting_with_note(adapter, t, md, nd, None, None);
    if combined.is_ok() {
        return fail("note id collision must fail the combined insert");
    }
    let lookup = t_get_meeting(adapter, t, new_m);
    let r = rollback_verdict(&combined, &lookup);
    r
}

/// What a combined insert whose note collides must answer and leave: an
/// `AlreadyExists` for the note, and no trace of the new meeting.
pub open spec fn rollback_ok(combined: Result<(Meeting, Note), StorageError>, lookup: Result<Meeting, StorageError>) -> bool {
    &&& combined matches Err(StorageError::AlreadyExists { kind, .. }) && kind@ == "note"@
    &&& lookup matches Err(StorageError::NotFound { .. })
}

/// The verdict on a combined insert whose note collides (see
/// `rollback_ok`).
pub fn rollback_verdict(combined: &Result<(Meeting, Note), StorageError>, lookup: &Result<Meeting, StorageError>) -> (r:
    Result<(), String>)
    ensures
        r is Ok <==> rollback_ok(*combined, *lookup),
{
    match combined {
        Ok(_) => {
            return fail("note id collision must fail the combined insert");
        },
        Err(StorageError::AlreadyExists { kind, .. }) => {
            if !is_text(&owned(kind), "note") {
                return fail("expected AlreadyExists for the note");
            }
        },
        Err(_) => {
            return fail("expected AlreadyExists for the note");
        },
    }
    match lookup {
        Err(StorageError::NotFound { .. }) => Ok(()),
        _ => fail("expected the new meeting to be rolled back"),
    }
}

fn spaces_create_list_rename_delete<S: Storage>(adapter: &mut S, t: &mut Ghost<Trace<S>>) -> (r: Result<(), String>)
    requires
        ran(old(t)@.0, old(t)@.1, *old(adapter)),
    ensures
        ran(final(t)@.0, final(t)@.1, *final(adapter)),
        extends(old(t)@, final(t)@),
        spaces_calls(added(old(t)@, final(t)@)),
        r is Ok <==> spaces_ok(added(old(t)@, final(t)@)),
{
    let ghost t0 = t@;
    let space = match t_create_space(adapter, t, "Work") {
        Ok(s) => s,
        Err(_) => {
            return fail("create space");
        },
    };
    let ghost s0 = t@.1.last();
    if !is_text(&space.name, "Work") || space.position < 0 {
        return fail("create_space should return the space");
    }
    if t_rename_space(adapter, t, space.id.as_str(), "Deep Work").is_err() {
        return fail("rename space");
    }
    let ghost s1 = t@.1.last();
    match t_list_spaces(adapter, t) {
        Ok(spaces) => {
            if !has_space_named(&spaces, &space.id, "Deep Work") {
                return fail("the renamed space should be listed");
            }
            proof {
                let k = choose|k: int| 0 <= k < spaces@.len() && (#[trigger] space_models(spaces@)[k]).id == space.id@
                    && space_models(spaces@)[k].name == "Deep Work"@;
                assert(rows(Ok::<Vec<Space>, StorageError>(spaces)) == Ok::<Seq<crate::storage::SpaceModel>, StorageErrorModel>(space_models(spaces@)));
                assert(space_models(spaces@)[k].id == space.id@);
                let ls = t@.1.last().3->Spaces_0->Ok_0;
                assert(ls == space_models(spaces@));
                assert(ls[k].id == space.id@ && ls[k].name == "Deep Work"@);
                assert(t@.1.last().3 matches RegistryAnswer::Spaces(Ok(ls)) && exists|k: int|
                    0 <= k < ls.len() && (#[trigger] ls[k]).id == space.id@ && ls[k].name == "Deep Work"@);
            }
        },
        Err(_) => {
            return fail("list spaces");
        },
    }
    let ghost s2 = t@.1.last();
    if t_delete_space(adapter, t, space.id.as_str()).is_err() {
        return fail("delete space");
    }
    let ghost s3 = t@.1.last();
    match t_list_spaces(adapter, t) {
        Ok(spaces) => {
            if lists_space(&spaces, &space.id) {
                proof {
                    let i = choose|i: int| 0 <= i < spaces@.len() && (#[trigger] spaces@[i]).id@ == space.id@;
                    let ls = t@.1.last().3->Spaces_0->Ok_0;
                    assert(rows(Ok::<Vec<Space>, StorageError>(spaces)) == Ok::<Seq<crate::storage::SpaceModel>, StorageErrorModel>(space_models(spaces@)));
                    assert(ls == space_models(spaces@));
                    assert(ls[i].id == space.id@);
                }
                return fail("the deleted space should not be listed");
            }
        },
        Err(_) => {
            return fail("list spaces after delete");
        },
    }
    let ghost s4 = t@.1.last();
    assert(s4.3 matches RegistryAnswer::Spaces(Ok(ls)) && forall|k: int|
        0 <= k < ls.len() ==> (#[trigger] ls[k]).id != space.id@);
    match t_rename_space(adapter, t, space.id.as_str(), "Missing") {
        Ok(_) => fail("renaming deleted space should fail"),
        Err(e) => if is_not_found(&e, "space") {
            assert(added(t0, t@) =~= seq![s0, s1, s2, s3, s4, t@.1.last()]);
            Ok(())
        } else {
            fail("expected NotFound for the space")
        },
    }
}

fn projects_create_list_rename_delete<S: Storage>(adapter: &mut S, t: &mut Ghost<Trace<S>>) -> (r: Result<(), String>)
    requires
        ran(old(t)@.0, old(t)@.1, *old(adapter)),
    ensures
        ran(final(t)@.0, final(t)@.1, *final(adapter)),
        extends(old(t)@, final(t)@),
        projects_calls(added(old(t)@, final(t)@)),
        r is Ok <==> projects_ok(added(old(t)@, final(t)@)),
{
    let ghost t0 = t@;
    let space_a = match t_create_space(adapter, t, "Projects A") {
        Ok(s) => s,
        Err(_) => {
            return fail("space a");
        },
    };
    let ghost s0 = t@.1.last();
    let space_b = match t_create_space(adapter, t, "Projects B") {
        Ok(s) => s,
        Err(_) => {
            return fail("space b");
        },
    };
    let ghost s1 = t@.1.last();
    let project = match t_create_project(adapter, t, space_a.id.as_str(), "Launch") {
        Ok(p) => p,
        Err(_) => {
            return fail("create project");
        },
    };
    let ghost s2 = t@.1.last();
    let other = match t_create_project(adapter, t, space_b.id.as_str(), "Other") {
        Ok(p) => p,
        Err(_) => {
            return fail("create other project");
        },
    };
    let ghost s3 = t@.1.last();
    if !(project.space_id == space_a.id) {
        return fail("the project should belong to its space");
    }
    if t_rename_project(adapter, t, project.id.as_str(), "Renamed Launch").is_err() {
        return fail("rename project");
    }
    let ghost s4 = t@.1.last();
    match t_list_projects(adapter, t, Some(space_a.id.as_str())) {
        Ok(filtered) => {
            if !(filtered.len() == 1 && filtered[0].id == project.id && is_text(
                &filtered[0].name,
                "Renamed Launch",
            )) {
                return fail("list projects for one space");
            }
            assert(project_models(filtered@)[0] == filtered@[0]@);
        },
        Err(_) => {
            return fail("list projects for one space");
        },
    }
    let ghost s5 = t@.1.last();
    assert(s5.3 matches RegistryAnswer::Projects(Ok(v)) && v.len() == 1 && v[0].id == project.id@ && v[0].name
        == "Renamed Launch"@);
    match t_list_projects(adapter, t, None) {
        Ok(all) => {
            if !lists_project(&all, &other.id) {
                return fail("list all projects should include the other project");
            }
            proof {
                let k = choose|k: int| 0 <= k < all@.len() && (#[trigger] project_models(all@)[k]).id == other.id@;
                assert(rows(Ok::<Vec<Project>, StorageError>(all)) == Ok::<Seq<ProjectModel>, StorageErrorModel>(project_models(all@)));
                assert(project_models(all@)[k].id == other.id@);
                let v = t@.1.last().3->Projects_0->Ok_0;
                assert(v == project_models(all@));
                assert(v[k].id == other.id@);
                assert(t@.1.last().3 matches RegistryAnswer::Projects(Ok(v)) && exists|k: int|
                    0 <= k < v.len() && (#[trigger] v[k]).id == other.id@);
            }
        },
        Err(_) => {
            return fail("list all projects");
        },
    }
    let ghost s6 = t@.1.last();
    if t_delete_project(adapter, t, project.id.as_str()).is_err() {
        return fail("delete project");
    }
    let ghost s7 = t@.1.last();
    match t_list_projects(adapter, t, Some(space_a.id.as_str())) {
        Ok(filtered) => {
            if filtered.len() != 0 {
                return fail("the deleted project should not be listed");
            }
        },
        Err(_) => {
            return fail("list projects after delete");
        },
    }
    let ghost s8 = t@.1.last();
    match t_create_project(adapter, t, "missing-space", "Nope") {
        Ok(_) => fail("project in missing space should fail"),
        Err(e) => if is_not_found(&e, "space") {
            assert(added(t0, t@) =~= seq![s0, s1, s2, s3, s4, s5, s6, s7, s8, t@.1.last()]);
            Ok(())
        } else {
            fail("expected NotFound for the space")
        },
    }
}

fn tags_create_list_delete_and_idempotent_name<S: Storage>(adapter: &mut S, t: &mut Ghost<Trace<S>>) -> (r: Result<(), String>)
    requires
        ran(old(t)@.0, old(t)@.1, *old(adapter)),
    ensures
        ran(final(t)@.0, final(t)@.1, *final(adapter)),
        extends(old(t)@, final(t)@),
        tags_calls(added(old(t)@, final(t)@)),
        r is Ok <==> tags_ok(added(old(t)@, final(t)@)),
{
    let ghost t0 = t@;
    let tag = match t_create_tag(adapter, t, "urgent") {
        Ok(t) => t,
        Err(_) => {
            return fail("create tag");
        },
    };
    let ghost s0 = t@.1.last();
    match t_create_tag(adapter, t, "urgent") {
        Ok(same) => {
            if !(same.id == tag.id && same.name == tag.name) {
                return fail("create tag with same name should return the same tag");
            }
        },
        Err(_) => {
            return fail("create tag with same name should be idempotent");
        },
    }
    let ghost s1 = t@.1.last();
    match t_list_tags(adapter, t) {
        Ok(tags) => {
            if !has_tag_named(&tags, &tag.id, "urgent") {
                return fail("the tag should be listed");
            }
            proof {
                let k = choose|k: int| 0 <= k < tags@.len() && (#[trigger] tag_models(tags@)[k]).id == tag.id@
                    && tag_models(tags@)[k].name == "urgent"@;
                assert(rows(Ok::<Vec<Tag>, StorageError>(tags)) == Ok::<Seq<TagModel>, StorageErrorModel>(tag_models(tags@)));
                assert(tag_models(tags@)[k].id == tag.id@);
                let ls = t@.1.last().3->Tags_0->Ok_0;
                assert(ls == tag_models(tags@));
                assert(ls[k].id == tag.id@ && ls[k].name == "urgent"@);
                assert(t@.1.last().3 matches RegistryAnswer::Tags(Ok(ls)) && exists|k: int|
                    0 <= k < ls.len() && (#[trigger] ls[k]).id == tag.id@ && ls[k].name == "urgent"@);
            }
        },
        Err(_) => {
            return fail("list tags");
        },
    }
    let ghost s2 = t@.1.last();
    if t_delete_tag(adapter, t, tag.id.as_str()).is_err() {
        return fail("delete tag");
    }
    let ghost s3 = t@.1.last();
    match t_list_tags(adapter, t) {
        Ok(tags) => {
            if lists_tag(&tags, &tag.id) {
                proof {
                    let i = choose|i: int| 0 <= i < tags@.len() && (#[trigger] tags@[i]).id@ == tag.id@;
                    let ls = t@.1.last().3->Tags_0->Ok_0;
                    assert(rows(Ok::<Vec<Tag>, StorageError>(tags)) == Ok::<Seq<TagModel>, StorageErrorModel>(tag_models(tags@)));
                    assert(ls == tag_models(tags@));
                    assert(ls[i].id == tag.id@);
                    assert(added(t0, t@) =~= seq![s0, s1, s2, s3, t@.1.last()]);
                }
                return fail("the deleted tag should not be listed");
            }
            assert(t@.1.last().3 matches RegistryAnswer::Tags(Ok(ls)) && forall|k: int|
                0 <= k < ls.len() ==> (#[trigger] ls[k]).id != tag.id@);
            assert(added(t0, t@) =~= seq![s0, s1, s2, s3, t@.1.last()]);
            Ok(())
        },
        Err(_) => fail("list tags after delete"),
    }
}

fn tag_meeting_untag_and_list_tags_for_meeting<S: Storage>(adapter: &mut S, t: &mut Ghost<Trace<S>>) -> (r: Result<(), String>)
    requires
        ran(old(t)@.0, old(t)@.1, *old(adapter)),
    ensures
        ran(final(t)@.0, final(t)@.1, *final(adapter)),
        extends(old(t)@, final(t)@),
        tagging_calls(added(old(t)@, final(t)@)),
        r is Ok <==> tagging_ok(added(old(t)@, final(t)@)),
{
    let meeting_id = "m_tagging";
    if t_create_meeting(adapter, t, draft(meeting_id, "Tagging", "2026-05-09T10:00:00+00:00")).is_err() {
        return fail("create meeting");
    }
    let tag = match t_create_tag(adapter, t, "customer") {
        Ok(t) => t,
        Err(_) => {
            return fail("create tag");
        },
    };
    if t_tag_meeting(adapter, t, meeting_id, tag.id.as_str()).is_err() {
        return fail("tag meeting");
    }
    if t_tag_meeting(adapter, t, meeting_id, tag.id.as_str()).is_err() {
        return fail("tag meeting idempotent");
    }
    match t_list_tags_for_meeting(adapter, t, meeting_id) {
        Ok(tags) => {
            if !(tags.len() == 1 && tags[0].id == tag.id && tags[0].name == tag.name) {
                return fail("the meeting should carry the tag once");
            }
            assert(tag_models(tags@)[0] == tags@[0]@);
        },
        Err(_) => {
            return fail("list tags for meeting");
        },
    }
    match summary(adapter, t, meeting_id) {
        Some(s) => {
            if !(s.tags.len() == 1 && s.tags[0] == tag.id) {
                return fail("the summary should list the tag id");
            }
            assert(s@.tags[0] == s.tags@[0]@);
        },
        None => {
            return fail("tagged meeting summary");
        },
    }
    if t_untag_meeting(adapter, t, meeting_id, tag.id.as_str()).is_err() {
        return fail("untag meeting");
    }
    match t_list_tags_for_meeting(adapter, t, meeting_id) {
        Ok(tags) => {
            if tags.len() != 0 {
                return fail("the tag should be gone after untag");
            }
        },
        Err(_) => {
            return fail("list tags after untag");
        },
    }
    match t_tag_meeting(adapter, t, "missing-meeting", tag.id.as_str()) {
        Ok(_) => fail("tagging missing meeting should fail"),
        Err(e) => if is_not_found(&e, "meeting") {
            Ok(())
        } else {
            fail("expected NotFound for the meeting")
        },
    }
}

fn assign_meeting_handles_space_and_project_sets_space<S: Storage>(adapter: &mut S, t: &mut Ghost<Trace<S>>) -> (r: Result<(), String>)
    requires
        ran(old(t)@.0, old(t)@.1, *old(adapter)),
    ensures
        ran(final(t)@.0, final(t)@.1, *final(adapter)),
        extends(old(t)@, final(t)@),
        assign_calls(added(old(t)@, final(t)@)),
        r is Ok <==> assign_ok(added(old(t)@, final(t)@)),
{
    let meeting_id = "m_assign";
    if t_create_meeting(adapter, t, draft(meeting_id, "Assign", "2026-05-10T10:00:00+00:00")).is_err() {
        return fail("create meeting");
    }
    let space = match t_create_space(adapter, t, "Assignments") {
        Ok(s) => s,
        Err(_) => {
            return fail("create space");
        },
    };
    let project = match t_create_project(adapter, t, space.id.as_str(), "Nested") {
        Ok(p) => p,
        Err(_) => {
            return fail("create project");
        },
    };
    if t_assign_meeting(adapter, t, meeting_id, Some(space.id.clone()), None).is_err() {
        return fail("assign to space");
    }
    match summary(adapter, t, meeting_id) {
        Some(s) => {
            if !(same_opt(&s.space_id, &Some(space.id.clone())) && s.project_id.is_none()) {
                return fail("the meeting should be filed under the space alone");
            }
        },
        None => {
            return fail("meeting summary");
        },
    }
    if t_assign_meeting(adapter, t, meeting_id, None, Some(project.id.clone())).is_err() {
        return fail("assign to project");
    }
    match summary(adapter, t, meeting_id) {
        Some(s) => {
            if !(same_opt(&s.space_id, &Some(space.id.clone())) && same_opt(
                &s.project_id,
                &Some(project.id.clone()),
            )) {
                return fail("filing under a project should set its space");
            }
        },
        None => {
            return fail("meeting summary");
        },
    }
    if t_assign_meeting(adapter, t, meeting_id, None, None).is_err() {
        return fail("clear assignment");
    }
    match summary(adapter, t, meeting_id) {
        Some(s) => if s.space_id.is_none() && s.project_id.is_none() {
            Ok(())
        } else {
            fail("clearing should return the meeting to the Inbox")
        },
        None => fail("meeting summary"),
    }
}

/// Files three meetings (unfiled, under a space, under a project of it and
/// tagged) and judges the four filtered listings (`org_filter_verdict`):
/// it passes only on answers the adapter gave that the verdict accepts.
fn list_meetings_supports_org_filters<S: Storage>(adapter: &mut S, t: &mut Ghost<Trace<S>>) -> (r: Result<(), String>)
    requires
        ran(old(t)@.0, old(t)@.1, *old(adapter)),
    ensures
        ran(final(t)@.0, final(t)@.1, *final(adapter)),
        extends(old(t)@, final(t)@),
        org_filters_calls(added(old(t)@, final(t)@)),
        r is Ok <==> org_filters_ok(added(old(t)@, final(t)@)),
{
    let inbox_id = "m_filter_inbox";
    let space_id = "m_filter_space";
    let project_id = "m_filter_project";
    if t_create_meeting(adapter, t, draft(inbox_id, "Inbox", "2026-05-11T10:00:00+00:00")).is_err() {
        return fail("create inbox meeting");
    }
    if t_create_meeting(adapter, t, draft(space_id, "Space", "2026-05-12T10:00:00+00:00")).is_err() {
        return fail("create space meeting");
    }
    if t_create_meeting(adapter, t, draft(project_id, "Project", "2026-05-13T10:00:00+00:00")).is_err() {
        return fail("create project meeting");
    }
    let space = match t_create_space(adapter, t, "Filter Space") {
        Ok(s) => s,
        Err(_) => {
            return fail("create space");
        },
    };
    let project = match t_create_project(adapter, t, space.id.as_str(), "Filter Project") {
        Ok(p) => p,
        Err(_) => {
            return fail("create project");
        },
    };
    let tag = match t_create_tag(adapter, t, "filter-tag") {
        Ok(t) => t,
        Err(_) => {
            return fail("create tag");
        },
    };
    if t_assign_meeting(adapter, t, space_id, Some(space.id.clone()), None).is_err() {
        return fail("assign space meeting");
    }
    if t_assign_meeting(adapter, t, project_id, None, Some(project.id.clone())).is_err() {
        return fail("assign project meeting");
    }
    if t_tag_meeting(adapter, t, project_id, tag.id.as_str()).is_err() {
        return fail("tag project meeting");
    }
    let inbox = MeetingListFilter { space_id: None, project_id: None, tag_id: None, unsorted: true };
    let inbox_rows = t_list_meetings_filtered(adapter, t, inbox);
    let by_space = MeetingListFilter {
        space_id: Some(space.id.clone()),
        project_id: None,
        tag_id: None,
        unsorted: false,
    };
    let space_rows = t_list_meetings_filtered(adapter, t, by_space);
    let by_project = MeetingListFilter {
        space_id: None,
        project_id: Some(project.id.clone()),
        tag_id: None,
        unsorted: false,
    };
    let project_rows = t_list_meetings_filtered(adapter, t, by_project);
    let by_tag = MeetingListFilter {
        space_id: None,
        project_id: None,
        tag_id: Some(tag.id.clone()),
        unsorted: false,
    };
    let tag_rows = t_list_meetings_filtered(adapter, t, by_tag);
    let r = org_filter_verdict(&inbox_rows, &space_rows, &project_rows, &tag_rows);
    proof {
        lemma_listing_model(inbox_rows);
        lemma_listing_model(space_rows);
        lemma_listing_model(project_rows);
        lemma_listing_model(tag_rows);
    }
    r
}

/// What the verdicts on a listing say of it, said of its rows as values.
proof fn lemma_listing_model(l: Result<Vec<MeetingSummary>, StorageError>)
    ensures
        inbox_ok(l) <==> inbox_listing_ok(RegistryAnswer::Summaries(rows(l))),
        space_ok(l) <==> space_listing_ok(RegistryAnswer::Summaries(rows(l))),
        only_project_ok(l) <==> project_listing_ok(RegistryAnswer::Summaries(rows(l))),
{
    if let Ok(v) = l {
        let mv = v@.map_values(|x: MeetingSummary| x@);
        assert forall|id: Seq<char>| #[trigger] row_listed(v@, id) == model_listed(mv, id) by {
            if row_listed(v@, id) {
                let i = choose|i: int| 0 <= i < v@.len() && (#[trigger] v@[i]).id@ == id;
                assert(mv[i].id == id);
            }
            if model_listed(mv, id) {
                let k = choose|k: int| 0 <= k < mv.len() && (#[trigger] mv[k]).id == id;
                assert(v@[k].id@ == id);
            }
        }
        assert(mv.map_values(|m: SummaryModel| m.id) =~= v@.map_values(|m: MeetingSummary| m.id@));
    }
}

/// The three meetings the filter check files: one unfiled, one under a
/// space, one under a project of that space (and tagged).
pub open spec fn filter_ids() -> Seq<Seq<char>> {
    seq!["m_filter_project"@, "m_filter_space"@, "m_filter_inbox"@]
}

/// The Inbox listing holds the unfiled meeting and neither filed one.
pub open spec fn inbox_ok(l: Result<Vec<MeetingSummary>, StorageError>) -> bool {
    &&& l matches Ok(rows)
    &&& row_listed(rows@, "m_filter_inbox"@)
    &&& !row_listed(rows@, "m_filter_space"@)
    &&& !row_listed(rows@, "m_filter_project"@)
}

/// The space's listing holds the meetings filed under the space and under
/// its project, and not the unfiled one.
pub open spec fn space_ok(l: Result<Vec<MeetingSummary>, StorageError>) -> bool {
    &&& l matches Ok(rows)
    &&& row_listed(rows@, "m_filter_space"@)
    &&& row_listed(rows@, "m_filter_project"@)
    &&& !row_listed(rows@, "m_filter_inbox"@)
}

/// Of the three meetings, a listing holds only the project's.
pub open spec fn only_project_ok(l: Result<Vec<MeetingSummary>, StorageError>) -> bool {
    &&& l matches Ok(rows)
    &&& ids_among(rows@, filter_ids()) == seq!["m_filter_project"@]
}

/// The verdict on the four filtered listings: Inbox, space, project and
/// tag (see `inbox_ok`, `space_ok`, `only_project_ok`).
pub fn org_filter_verdict(
    inbox: &Result<Vec<MeetingSummary>, StorageError>,
    by_space: &Result<Vec<MeetingSummary>, StorageError>,
    by_project: &Result<Vec<MeetingSummary>, StorageError>,
    by_tag: &Result<Vec<MeetingSummary>, StorageError>,
) -> (r: Result<(), String>)
    ensures
        r is Ok <==> inbox_ok(*inbox) && space_ok(*by_space) && only_project_ok(*by_project) && only_project_ok(
            *by_tag,
        ),
{
    let inbox_id = "m_filter_inbox";
    let space_id = "m_filter_space";
    let project_id = "m_filter_project";
    let ids = vec![project_id, space_id, inbox_id];
    assert(str_views(ids@) =~= filter_ids());
    let want = vec![project_id];
    assert(str_views(want@) =~= seq!["m_filter_project"@]);
    match inbox {
        Ok(rows) => {
            if !lists(rows, inbox_id) || lists(rows, space_id) || lists(rows, project_id) {
                return fail("the Inbox filter should list only unfiled meetings");
            }
        },
        Err(_) => {
            return fail("inbox filter");
        },
    }
    match by_space {
        Ok(rows) => {
            if !lists(rows, space_id) || !lists(rows, project_id) || lists(rows, inbox_id) {
                return fail("the space filter should list the space's meetings");
            }
        },
        Err(_) => {
            return fail("space filter");
        },
    }
    match by_project {
        Ok(rows) => {
            let got = listed_among(rows, &ids);
            if !texts_are(&got, &want) {
                return fail("the project filter should list the project's meeting");
            }
        },
        Err(_) => {
            return fail("project filter");
        },
    }
    match by_tag {
        Ok(rows) => {
            let got = listed_among(rows, &ids);
            if texts_are(&got, &want) {
                Ok(())
            } else {
                fail("the tag filter should list the tagged meeting")
            }
        },
        Err(_) => fail("tag filter"),
    }
}

fn deleting_org_rows_preserves_meetings_and_clears_refs<S: Storage>(adapter: &mut S, t: &mut Ghost<Trace<S>>) -> (r: Result<(), String>)
    requires
        ran(old(t)@.0, old(t)@.1, *old(adapter)),
    ensures
        ran(final(t)@.0, final(t)@.1, *final(adapter)),
        extends(old(t)@, final(t)@),
        org_deletes_calls(added(old(t)@, final(t)@)),
        r is Ok <==> org_deletes_ok(added(old(t)@, final(t)@)),
{
    let project_meeting = "m_delete_project_ref";
    let space_meeting = "m_delete_space_ref";
    if t_create_meeting(adapter, t, 
        draft(project_meeting, "Project Ref", "2026-05-14T10:00:00+00:00"),
    ).is_err() {
        return fail("create project ref meeting");
    }
    if t_create_meeting(adapter, t, 
        draft(space_meeting, "Space Ref", "2026-05-15T10:00:00+00:00"),
    ).is_err() {
        return fail("create space ref meeting");
    }
    let project_space = match t_create_space(adapter, t, "Delete Project Space") {
        Ok(s) => s,
        Err(_) => {
            return fail("space");
        },
    };
    let project = match t_create_project(adapter, t, project_space.id.as_str(), "Delete Me") {
        Ok(p) => p,
        Err(_) => {
            return fail("project");
        },
    };
    if t_assign_meeting(adapter, t, project_meeting, None, Some(project.id.clone())).is_err() {
        return fail("assign project ref");
    }
    if t_delete_project(adapter, t, project.id.as_str()).is_err() {
        return fail("delete project");
    }
    match summary(adapter, t, project_meeting) {
        Some(s) => {
            if !(same_opt(&s.space_id, &Some(project_space.id.clone())) && s.project_id.is_none()) {
                return fail(
                    "deleting only a project should keep the containing space assignment",
                );
            }
        },
        None => {
            return fail("meeting summary");
        },
    }
    let space = match t_create_space(adapter, t, "Delete Space") {
        Ok(s) => s,
        Err(_) => {
            return fail("space");
        },
    };
    let project = match t_create_project(adapter, t, space.id.as_str(), "Deleted With Space") {
        Ok(p) => p,
        Err(_) => {
            return fail("project");
        },
    };
    if t_assign_meeting(adapter, t, space_meeting, None, Some(project.id.clone())).is_err() {
        return fail("assign space ref");
    }
    if t_delete_space(adapter, t, space.id.as_str()).is_err() {
        return fail("delete space");
    }
    match summary(adapter, t, space_meeting) {
        Some(s) => {
            if !(s.space_id.is_none() && s.project_id.is_none()) {
                return fail("deleting a space should unfile its meetings");
            }
        },
        None => {
            return fail("meeting summary");
        },
    }
    if t_get_meeting(adapter, t, project_meeting).is_ok() && t_get_meeting(adapter, t, space_meeting).is_ok() {
        Ok(())
    } else {
        fail("org deletes must not delete meetings")
    }
}

// ---- what each check's passing run implies ---------------------------------

/// The call creates a meeting with id `id`.
pub open spec fn creates_meeting(c: RegistryCall, id: Seq<char>) -> bool {
    c matches RegistryCall::CreateMeeting { draft } && draft.id == id
}

/// The call creates a note with id `id` for the meeting `meeting_id`.
pub open spec fn creates_note(c: RegistryCall, id: Seq<char>, meeting_id: Seq<char>) -> bool {
    c matches RegistryCall::CreateNote { draft } && draft.id == id && draft.meeting_id == meeting_id
}

/// The answer is a meeting.
pub open spec fn met_ok(a: RegistryAnswer) -> bool {
    a matches RegistryAnswer::Meeting(Ok(_))
}

/// The meeting of a meeting answer.
pub open spec fn met(a: RegistryAnswer) -> MeetingModel {
    a->Meeting_0->Ok_0
}

/// The answer is a success without a value.
pub open spec fn unit_ok(a: RegistryAnswer) -> bool {
    a matches RegistryAnswer::Unit(Ok(_))
}

/// The answer is a note.
pub open spec fn note_ok(a: RegistryAnswer) -> bool {
    a matches RegistryAnswer::Note(Ok(_))
}

/// The note of a note answer.
pub open spec fn note_of_answer(a: RegistryAnswer) -> NoteModel {
    a->Note_0->Ok_0
}

/// The answer is a space.
pub open spec fn space_answer_ok(a: RegistryAnswer) -> bool {
    a matches RegistryAnswer::Space(Ok(_))
}

/// The id of the space of a space answer.
pub open spec fn space_id_of(a: RegistryAnswer) -> Seq<char> {
    a->Space_0->Ok_0.id
}

/// The answer is a project.
pub open spec fn project_ok(a: RegistryAnswer) -> bool {
    a matches RegistryAnswer::Project(Ok(_))
}

/// The project of a project answer.
pub open spec fn project_of(a: RegistryAnswer) -> ProjectModel {
    a->Project_0->Ok_0
}

/// The answer is a tag.
pub open spec fn tag_ok(a: RegistryAnswer) -> bool {
    a matches RegistryAnswer::Tag(Ok(_))
}

/// The tag of a tag answer.
pub open spec fn tag_of(a: RegistryAnswer) -> TagModel {
    a->Tag_0->Ok_0
}

/// The answer is a failure.
pub open spec fn answer_error(a: RegistryAnswer) -> Option<StorageErrorModel> {
    match a {
        RegistryAnswer::Meeting(Err(e)) => Some(e),
        RegistryAnswer::Unit(Err(e)) => Some(e),
        RegistryAnswer::Note(Err(e)) => Some(e),
        RegistryAnswer::Project(Err(e)) => Some(e),
        RegistryAnswer::Pair(Err(e)) => Some(e),
        _ => None,
    }
}

/// The answer is a `NotFound` of `kind`.
pub open spec fn not_found_answer(a: RegistryAnswer, kind: Seq<char>) -> bool {
    answer_error(a) matches Some(StorageErrorModel::NotFound { kind: k, .. }) && k == kind
}

/// Some row of a listing has id `id`.
pub open spec fn model_listed(ls: Seq<SummaryModel>, id: Seq<char>) -> bool {
    exists|k: int| 0 <= k < ls.len() && (#[trigger] ls[k]).id == id
}

/// The ids of a listing that are among `ids`, in listing order.
pub open spec fn model_ids_among(ls: Seq<SummaryModel>, ids: Seq<Seq<char>>) -> Seq<Seq<char>> {
    ls.map_values(|m: SummaryModel| m.id).filter(among(ids))
}

/// The filter of a listing call.
pub open spec fn filter_model(space_id: Option<Seq<char>>, project_id: Option<Seq<char>>, tag_id: Option<Seq<char>>, unsorted: bool) -> FilterModel {
    FilterModel { space_id, project_id, tag_id, unsorted }
}

/// A created meeting reads back: created with its title and no end, then
/// read back unchanged.
pub open spec fn round_trip_ok<S>(s: Seq<Step<S>>) -> bool {
    &&& s.len() == 2
    &&& creates_meeting(s[0].1, "m_round_trip"@) && met_ok(s[0].3)
    &&& met(s[0].3).id == "m_round_trip"@ && met(s[0].3).title == "Round Trip"@
    &&& met(s[0].3).ended_at is None && met(s[0].3).duration_ms is None
    &&& s[1].1 == RegistryCall::GetMeeting { id: "m_round_trip"@ } && s[1].3 == s[0].3
}

/// A second meeting under a taken id is `AlreadyExists` for the meeting.
pub open spec fn duplicate_id_ok<S>(s: Seq<Step<S>>) -> bool {
    &&& s.len() == 2
    &&& creates_meeting(s[0].1, "m_dup"@) && met_ok(s[0].3)
    &&& creates_meeting(s[1].1, "m_dup"@)
    &&& s[1].3 == RegistryAnswer::Meeting(Err(StorageErrorModel::AlreadyExists { id: "m_dup"@, kind: "meeting"@ }))
}

/// A second meeting in a taken directory is a `dir_path` conflict.
pub open spec fn duplicate_dir_ok<S>(s: Seq<Step<S>>) -> bool {
    &&& s.len() == 2
    &&& s[0].1 matches RegistryCall::CreateMeeting { draft } && draft.id == "m_dir_a"@ && draft.dir_path
        == "/tmp/share_this_dir_dup"@
    &&& met_ok(s[0].3)
    &&& s[1].1 matches RegistryCall::CreateMeeting { draft } && draft.id == "m_dir_b"@ && draft.dir_path
        == "/tmp/share_this_dir_dup"@
    &&& s[1].3 == RegistryAnswer::Meeting(
        Err(
            StorageErrorModel::UniqueConflict {
                kind: "meeting"@,
                field: "dir_path"@,
                value: "/tmp/share_this_dir_dup"@,
            },
        ),
    )
}

/// An unknown id is `NotFound` for the meeting.
pub open spec fn unknown_get_ok<S>(s: Seq<Step<S>>) -> bool {
    &&& s.len() == 1
    &&& s[0].1 == RegistryCall::GetMeeting { id: "does-not-exist"@ }
    &&& s[0].3 == RegistryAnswer::Meeting(
        Err(StorageErrorModel::NotFound { id: "does-not-exist"@, kind: "meeting"@ }),
    )
}

/// Meetings `a`, `b`, `c` started on the 1st, 3rd and 2nd are listed `b`,
/// `c`, `a`; `b`'s row shows its new language, its end and its note, `a`'s
/// row is untouched.
pub open spec fn latest_first_ok<S>(s: Seq<Step<S>>) -> bool {
    &&& s.len() == 9
    &&& creates_meeting(s[0].1, "a"@) && creates_meeting(s[1].1, "b"@) && creates_meeting(s[2].1, "c"@)
    &&& s[3].1 == RegistryCall::UpdateLanguage { id: "b"@, language: "es"@ } && met_ok(s[3].3)
    &&& s[4].1 == RegistryCall::UpdateEnded { id: "b"@, ended_at: "2026-05-03T10:30:00+00:00"@, duration_ms: 1_800_000 }
    &&& met_ok(s[4].3)
    &&& creates_note(s[5].1, "n_list_b"@, "b"@) && note_ok(s[5].3)
    &&& s[6].1 == RegistryCall::ListMeetings
    &&& s[6].3 matches RegistryAnswer::Summaries(Ok(ls)) && model_ids_among(ls, seq!["a"@, "b"@, "c"@]) == seq![
        "b"@,
        "c"@,
        "a"@,
    ]
    &&& s[7].1 == RegistryCall::ListMeetings
    &&& first_summary(s[7].3, "b"@) matches Some(m) && m.title == "B"@ && m.started_at == "2026-05-03T10:00:00+00:00"@
            && m.ended_at == Some("2026-05-03T10:30:00+00:00"@) && m.duration_ms == 1_800_000 && m.language == "es"@
            && m.has_notes
    &&& s[8].1 == RegistryCall::ListMeetings
    &&& first_summary(s[8].3, "a"@) matches Some(m) && m.ended_at is None && m.duration_ms == 0 && m.language == "auto"@
            && !m.has_notes
}

/// Ending a meeting answers and keeps the end and the duration.
pub open spec fn ended_ok<S>(s: Seq<Step<S>>) -> bool {
    &&& s.len() == 3
    &&& creates_meeting(s[0].1, "m_end"@) && met_ok(s[0].3)
    &&& s[1].1 == RegistryCall::UpdateEnded { id: "m_end"@, ended_at: "2026-05-05T11:00:00+00:00"@, duration_ms: 3_600_000 }
    &&& met_ok(s[1].3) && met(s[1].3).ended_at == Some("2026-05-05T11:00:00+00:00"@) && met(s[1].3).duration_ms == Some(
        3_600_000u64,
    )
    &&& s[2].1 == RegistryCall::GetMeeting { id: "m_end"@ }
    &&& met_ok(s[2].3) && met(s[2].3).ended_at == Some("2026-05-05T11:00:00+00:00"@) && met(s[2].3).duration_ms == Some(
        3_600_000u64,
    )
}

/// Changing a meeting's language answers and keeps the new language.
pub open spec fn language_ok<S>(s: Seq<Step<S>>) -> bool {
    &&& s.len() == 3
    &&& creates_meeting(s[0].1, "m_lang"@) && met_ok(s[0].3)
    &&& s[1].1 == RegistryCall::UpdateLanguage { id: "m_lang"@, language: "es"@ }
    &&& met_ok(s[1].3) && met(s[1].3).language == "es"@
    &&& s[2].1 == RegistryCall::GetMeeting { id: "m_lang"@ } && met_ok(s[2].3) && met(s[2].3).language == "es"@
}

/// Renaming changes the title only and persists; renaming an unknown id is
/// `NotFound` for the meeting.
pub open spec fn rename_ok<S>(s: Seq<Step<S>>) -> bool {
    &&& s.len() == 4
    &&& creates_meeting(s[0].1, "m_rename"@) && met_ok(s[0].3)
    &&& s[1].1 == RegistryCall::Rename { id: "m_rename"@, title: "After"@ }
    &&& met_ok(s[1].3) && met(s[1].3).title == "After"@ && met(s[1].3).id == "m_rename"@ && met(s[1].3).language
        == "auto"@
    &&& s[2].1 == RegistryCall::GetMeeting { id: "m_rename"@ } && met_ok(s[2].3) && met(s[2].3).title == "After"@
    &&& s[3].1 == RegistryCall::Rename { id: "does-not-exist"@, title: "X"@ }
    &&& s[3].3 matches RegistryAnswer::Meeting(Err(_)) && not_found_answer(s[3].3, "meeting"@)
}

/// Deleting a meeting leaves it `NotFound` and its notes gone.
pub open spec fn cascade_ok<S>(s: Seq<Step<S>>) -> bool {
    &&& s.len() == 5
    &&& creates_meeting(s[0].1, "m_del"@) && met_ok(s[0].3)
    &&& creates_note(s[1].1, "n_del"@, "m_del"@) && note_ok(s[1].3)
    &&& s[2].1 == RegistryCall::DeleteMeeting { id: "m_del"@ } && unit_ok(s[2].3)
    &&& s[3].1 == RegistryCall::GetMeeting { id: "m_del"@ }
    &&& s[3].3 matches RegistryAnswer::Meeting(Err(StorageErrorModel::NotFound { .. }))
    &&& s[4].1 == RegistryCall::ListNotes { meeting_id: "m_del"@ }
    &&& s[4].3 matches RegistryAnswer::Notes(Ok(v)) && v.len() == 0
}

/// A created note is stamped and is the meeting's one note.
pub open spec fn notes_listed_ok<S>(s: Seq<Step<S>>) -> bool {
    &&& s.len() == 3
    &&& creates_meeting(s[0].1, "m_notes"@) && met_ok(s[0].3)
    &&& creates_note(s[1].1, "n_one"@, "m_notes"@) && note_ok(s[1].3)
    &&& note_of_answer(s[1].3).id == "n_one"@ && note_of_answer(s[1].3).created_at.len() > 0
    &&& s[2].1 == RegistryCall::ListNotes { meeting_id: "m_notes"@ }
    &&& s[2].3 matches RegistryAnswer::Notes(Ok(v)) && v.len() == 1 && v[0].id == "n_one"@
}

/// Replacing an existing note answers the fresh note, stamped no earlier
/// than the note the check seeded, and leaves it the only one; replacing
/// the note of a meeting with none creates one.
pub open spec fn replace_ok<S>(s: Seq<Step<S>>) -> bool {
    &&& s.len() == 8
    &&& creates_meeting(s[0].1, "m_replace_note"@) && met_ok(s[0].3)
    &&& creates_note(s[1].1, "n_original"@, "m_replace_note"@) && note_ok(s[1].3)
    &&& s[2].1 matches RegistryCall::ReplaceNote { meeting_id, draft } && meeting_id == "m_replace_note"@ && draft.id
        == "n_replaced"@ && draft.content_md == "# edited by user"@ && draft.dialect == "basic"@
    &&& note_ok(s[2].3)
    &&& note_of_answer(s[2].3).id == "n_replaced"@ && note_of_answer(s[2].3).content_md == "# edited by user"@
    &&& note_of_answer(s[2].3).dialect == "basic"@ && note_of_answer(s[2].3).created_at.len() > 0
    &&& !crate::text::text_less(note_of_answer(s[2].3).created_at, note_of_answer(s[1].3).created_at)
    &&& s[3].1 == RegistryCall::ListNotes { meeting_id: "m_replace_note"@ }
    &&& s[3].3 matches RegistryAnswer::Notes(Ok(v)) && v.len() == 1 && v[0].id == "n_replaced"@ && v[0].content_md
        == "# edited by user"@
    &&& s[4].1 == RegistryCall::DeleteMeeting { id: "m_replace_note"@ } && unit_ok(s[4].3)
    &&& creates_meeting(s[5].1, "m_replace_note_fresh"@) && met_ok(s[5].3)
    &&& s[6].1 matches RegistryCall::ReplaceNote { meeting_id, draft } && meeting_id == "m_replace_note_fresh"@
        && draft.id == "n_fresh"@
    &&& note_ok(s[6].3) && note_of_answer(s[6].3).content_md == "# fresh"@
    &&& s[7].1 == RegistryCall::ListNotes { meeting_id: "m_replace_note_fresh"@ }
    &&& s[7].3 matches RegistryAnswer::Notes(Ok(v)) && v.len() == 1
}

/// Replacing the note of an unknown meeting is `NotFound` for the meeting.
pub open spec fn replace_unknown_ok<S>(s: Seq<Step<S>>) -> bool {
    &&& s.len() == 1
    &&& s[0].1 matches RegistryCall::ReplaceNote { meeting_id, .. } && meeting_id == "does-not-exist"@
    &&& s[0].3 matches RegistryAnswer::Note(Err(_)) && not_found_answer(s[0].3, "meeting"@)
}

/// A meeting inserted together with its note and end answers both rows and
/// leaves one note.
pub open spec fn atomic_ok<S>(s: Seq<Step<S>>) -> bool {
    &&& s.len() == 2
    &&& s[0].1 matches RegistryCall::CreateWithNote { meeting, note, ended_at, duration_ms } && meeting.id
        == "m_atomic_ok"@ && note.id == "n_atomic_ok"@ && note.meeting_id == "m_atomic_ok"@ && ended_at == Some(
        "2026-05-05T10:30:00+00:00"@,
    ) && duration_ms == Some(1_800_000u64)
    &&& s[0].3 matches RegistryAnswer::Pair(Ok((m, n))) && m.id == "m_atomic_ok"@ && m.ended_at == Some(
        "2026-05-05T10:30:00+00:00"@,
    ) && m.duration_ms == Some(1_800_000u64) && n.id == "n_atomic_ok"@ && n.meeting_id == "m_atomic_ok"@
    &&& s[1].1 == RegistryCall::ListNotes { meeting_id: "m_atomic_ok"@ }
    &&& s[1].3 matches RegistryAnswer::Notes(Ok(v)) && v.len() == 1
}

/// A combined insert whose note id is taken is `AlreadyExists` for the
/// note and leaves no trace of the meeting.
pub open spec fn rollback_run_ok<S>(s: Seq<Step<S>>) -> bool {
    &&& s.len() == 4
    &&& creates_meeting(s[0].1, "m_atomic_pre"@) && met_ok(s[0].3)
    &&& creates_note(s[1].1, "n_atomic_pre"@, "m_atomic_pre"@) && note_ok(s[1].3)
    &&& s[2].1 matches RegistryCall::CreateWithNote { meeting, note, ended_at, duration_ms } && meeting.id
        == "m_atomic_rollback"@ && note.id == "n_atomic_pre"@ && ended_at is None && duration_ms is None
    &&& s[2].3 matches RegistryAnswer::Pair(Err(StorageErrorModel::AlreadyExists { kind, .. })) && kind == "note"@
    &&& s[3].1 == RegistryCall::GetMeeting { id: "m_atomic_rollback"@ }
    &&& s[3].3 matches RegistryAnswer::Meeting(Err(StorageErrorModel::NotFound { .. }))
}

/// A space is created, renamed and listed under its new name, deleted and
/// no longer listed; renaming it then is `NotFound` for the space.
pub open spec fn spaces_ok<S>(s: Seq<Step<S>>) -> bool {
    &&& s.len() == 6
    &&& s[0].1 == RegistryCall::CreateSpace { name: "Work"@ }
    &&& s[0].3 matches RegistryAnswer::Space(Ok(sp)) && sp.name == "Work"@ && sp.position >= 0
    &&& s[1].1 == RegistryCall::RenameSpace { id: space_id_of(s[0].3), name: "Deep Work"@ } && unit_ok(s[1].3)
    &&& s[2].1 == RegistryCall::ListSpaces
    &&& s[2].3 matches RegistryAnswer::Spaces(Ok(ls)) && exists|k: int|
        0 <= k < ls.len() && (#[trigger] ls[k]).id == space_id_of(s[0].3) && ls[k].name == "Deep Work"@
    &&& s[3].1 == RegistryCall::DeleteSpace { id: space_id_of(s[0].3) } && unit_ok(s[3].3)
    &&& s[4].1 == RegistryCall::ListSpaces
    &&& s[4].3 matches RegistryAnswer::Spaces(Ok(ls)) && forall|k: int|
        0 <= k < ls.len() ==> (#[trigger] ls[k]).id != space_id_of(s[0].3)
    &&& s[5].1 == RegistryCall::RenameSpace { id: space_id_of(s[0].3), name: "Missing"@ }
    &&& not_found_answer(s[5].3, "space"@)
}

/// Projects belong to their space, are renamed and listed per space and in
/// all, deleted and no longer listed; one in a missing space is `NotFound`
/// for the space.
pub open spec fn projects_ok<S>(s: Seq<Step<S>>) -> bool {
    &&& s.len() == 10
    &&& s[0].1 == RegistryCall::CreateSpace { name: "Projects A"@ } && space_answer_ok(s[0].3)
    &&& s[1].1 == RegistryCall::CreateSpace { name: "Projects B"@ } && space_answer_ok(s[1].3)
    &&& s[2].1 == RegistryCall::CreateProject { space_id: space_id_of(s[0].3), name: "Launch"@ } && project_ok(s[2].3)
    &&& s[3].1 == RegistryCall::CreateProject { space_id: space_id_of(s[1].3), name: "Other"@ } && project_ok(s[3].3)
    &&& project_of(s[2].3).space_id == space_id_of(s[0].3)
    &&& s[4].1 == RegistryCall::RenameProject { id: project_of(s[2].3).id, name: "Renamed Launch"@ } && unit_ok(s[4].3)
    &&& s[5].1 == RegistryCall::ListProjects { space_id: Some(space_id_of(s[0].3)) }
    &&& s[5].3 matches RegistryAnswer::Projects(Ok(v)) && v.len() == 1 && v[0].id == project_of(s[2].3).id && v[0].name
        == "Renamed Launch"@
    &&& s[6].1 == RegistryCall::ListProjects { space_id: None }
    &&& s[6].3 matches RegistryAnswer::Projects(Ok(v)) && exists|k: int|
        0 <= k < v.len() && (#[trigger] v[k]).id == project_of(s[3].3).id
    &&& s[7].1 == RegistryCall::DeleteProject { id: project_of(s[2].3).id } && unit_ok(s[7].3)
    &&& s[8].1 == RegistryCall::ListProjects { space_id: Some(space_id_of(s[0].3)) }
    &&& s[8].3 matches RegistryAnswer::Projects(Ok(v)) && v.len() == 0
    &&& s[9].1 == RegistryCall::CreateProject { space_id: "missing-space"@, name: "Nope"@ }
    &&& not_found_answer(s[9].3, "space"@)
}

/// Creating a tag by a taken name answers the same tag; tags are listed,
/// and a deleted one no longer.
pub open spec fn tags_ok<S>(s: Seq<Step<S>>) -> bool {
    &&& s.len() == 5
    &&& s[0].1 == RegistryCall::CreateTag { name: "urgent"@ } && tag_ok(s[0].3)
    &&& s[1].1 == RegistryCall::CreateTag { name: "urgent"@ } && s[1].3 == s[0].3
    &&& s[2].1 == RegistryCall::ListTags
    &&& s[2].3 matches RegistryAnswer::Tags(Ok(ls)) && exists|k: int|
        0 <= k < ls.len() && (#[trigger] ls[k]).id == tag_of(s[0].3).id && ls[k].name == "urgent"@
    &&& s[3].1 == RegistryCall::DeleteTag { id: tag_of(s[0].3).id } && unit_ok(s[3].3)
    &&& s[4].1 == RegistryCall::ListTags
    &&& s[4].3 matches RegistryAnswer::Tags(Ok(ls)) && forall|k: int|
        0 <= k < ls.len() ==> (#[trigger] ls[k]).id != tag_of(s[0].3).id
}

/// Tagging twice leaves the tag once, on the meeting and in its listing
/// row; untagging removes it; tagging a missing meeting is `NotFound` for
/// the meeting.
pub open spec fn tagging_ok<S>(s: Seq<Step<S>>) -> bool {
    &&& s.len() == 9
    &&& creates_meeting(s[0].1, "m_tagging"@) && met_ok(s[0].3)
    &&& s[1].1 == RegistryCall::CreateTag { name: "customer"@ } && tag_ok(s[1].3)
    &&& s[2].1 == RegistryCall::TagMeeting { meeting_id: "m_tagging"@, tag_id: tag_of(s[1].3).id } && unit_ok(s[2].3)
    &&& s[3].1 == RegistryCall::TagMeeting { meeting_id: "m_tagging"@, tag_id: tag_of(s[1].3).id } && unit_ok(s[3].3)
    &&& s[4].1 == RegistryCall::TagsFor { meeting_id: "m_tagging"@ }
    &&& s[4].3 matches RegistryAnswer::Tags(Ok(v)) && v.len() == 1 && v[0] == tag_of(s[1].3)
    &&& s[5].1 == RegistryCall::ListMeetings
    &&& first_summary(s[5].3, "m_tagging"@) matches Some(m) && m.tags.len() == 1 && m.tags[0] == tag_of(s[1].3).id
    &&& s[6].1 == RegistryCall::UntagMeeting { meeting_id: "m_tagging"@, tag_id: tag_of(s[1].3).id } && unit_ok(s[6].3)
    &&& s[7].1 == RegistryCall::TagsFor { meeting_id: "m_tagging"@ }
    &&& s[7].3 matches RegistryAnswer::Tags(Ok(v)) && v.len() == 0
    &&& s[8].1 == RegistryCall::TagMeeting { meeting_id: "missing-meeting"@, tag_id: tag_of(s[1].3).id }
    &&& not_found_answer(s[8].3, "meeting"@)
}

/// Filing under a space sets the space alone, under a project its space
/// too, and clearing returns the meeting to the Inbox.
pub open spec fn assign_ok<S>(s: Seq<Step<S>>) -> bool {
    &&& s.len() == 9
    &&& creates_meeting(s[0].1, "m_assign"@) && met_ok(s[0].3)
    &&& s[1].1 == RegistryCall::CreateSpace { name: "Assignments"@ } && space_answer_ok(s[1].3)
    &&& s[2].1 == RegistryCall::CreateProject { space_id: space_id_of(s[1].3), name: "Nested"@ } && project_ok(s[2].3)
    &&& s[3].1 == RegistryCall::Assign { meeting_id: "m_assign"@, space_id: Some(space_id_of(s[1].3)), project_id: None }
    &&& unit_ok(s[3].3)
    &&& s[4].1 == RegistryCall::ListMeetings
    &&& first_summary(s[4].3, "m_assign"@) matches Some(m) && m.space_id == Some(space_id_of(s[1].3)) && m.project_id is None
    &&& s[5].1 == RegistryCall::Assign {
        meeting_id: "m_assign"@,
        space_id: None,
        project_id: Some(project_of(s[2].3).id),
    }
    &&& unit_ok(s[5].3)
    &&& s[6].1 == RegistryCall::ListMeetings
    &&& first_summary(s[6].3, "m_assign"@) matches Some(m) && m.space_id == Some(space_id_of(s[1].3)) && m.project_id
            == Some(project_of(s[2].3).id)
    &&& s[7].1 == RegistryCall::Assign { meeting_id: "m_assign"@, space_id: None, project_id: None } && unit_ok(s[7].3)
    &&& s[8].1 == RegistryCall::ListMeetings
    &&& first_summary(s[8].3, "m_assign"@) matches Some(m) && m.space_id is None && m.project_id is None
}

/// The Inbox listing holds the unfiled meeting and neither filed one.
pub open spec fn inbox_listing_ok(a: RegistryAnswer) -> bool {
    &&& a matches RegistryAnswer::Summaries(Ok(ls))
    &&& model_listed(ls, "m_filter_inbox"@) && !model_listed(ls, "m_filter_space"@) && !model_listed(ls, "m_filter_project"@)
}

/// The space's listing holds the meetings under the space and under its
/// project, and not the unfiled one.
pub open spec fn space_listing_ok(a: RegistryAnswer) -> bool {
    &&& a matches RegistryAnswer::Summaries(Ok(ls))
    &&& model_listed(ls, "m_filter_space"@) && model_listed(ls, "m_filter_project"@) && !model_listed(ls, "m_filter_inbox"@)
}

/// Of the three meetings, a listing holds only the project's.
pub open spec fn project_listing_ok(a: RegistryAnswer) -> bool {
    &&& a matches RegistryAnswer::Summaries(Ok(ls))
    &&& model_ids_among(ls, filter_ids()) == seq!["m_filter_project"@]
}

/// Three meetings filed (unfiled, under a space, under a project of it and
/// tagged), then listed by Inbox, space, project and tag.
pub open spec fn org_filters_ok<S>(s: Seq<Step<S>>) -> bool {
    &&& s.len() == 13
    &&& creates_meeting(s[0].1, "m_filter_inbox"@) && met_ok(s[0].3)
    &&& creates_meeting(s[1].1, "m_filter_space"@) && met_ok(s[1].3)
    &&& creates_meeting(s[2].1, "m_filter_project"@) && met_ok(s[2].3)
    &&& s[3].1 == RegistryCall::CreateSpace { name: "Filter Space"@ } && space_answer_ok(s[3].3)
    &&& s[4].1 == RegistryCall::CreateProject { space_id: space_id_of(s[3].3), name: "Filter Project"@ } && project_ok(
        s[4].3,
    )
    &&& s[5].1 == RegistryCall::CreateTag { name: "filter-tag"@ } && tag_ok(s[5].3)
    &&& s[6].1 == RegistryCall::Assign {
        meeting_id: "m_filter_space"@,
        space_id: Some(space_id_of(s[3].3)),
        project_id: None,
    } && unit_ok(s[6].3)
    &&& s[7].1 == RegistryCall::Assign {
        meeting_id: "m_filter_project"@,
        space_id: None,
        project_id: Some(project_of(s[4].3).id),
    } && unit_ok(s[7].3)
    &&& s[8].1 == RegistryCall::TagMeeting { meeting_id: "m_filter_project"@, tag_id: tag_of(s[5].3).id } && unit_ok(s[8].3)
    &&& s[9].1 == RegistryCall::ListFiltered { filter: filter_model(None, None, None, true) }
    &&& s[10].1 == RegistryCall::ListFiltered { filter: filter_model(Some(space_id_of(s[3].3)), None, None, false) }
    &&& s[11].1 == RegistryCall::ListFiltered { filter: filter_model(None, Some(project_of(s[4].3).id), None, false) }
    &&& s[12].1 == RegistryCall::ListFiltered { filter: filter_model(None, None, Some(tag_of(s[5].3).id), false) }
    &&& inbox_listing_ok(s[9].3) && space_listing_ok(s[10].3) && project_listing_ok(s[11].3) && project_listing_ok(
        s[12].3,
    )
}

/// Deleting a project keeps its meeting under the project's space,
/// deleting a space returns its meetings to the Inbox, and neither deletes
/// a meeting.
pub open spec fn org_deletes_ok<S>(s: Seq<Step<S>>) -> bool {
    &&& s.len() == 14
    &&& creates_meeting(s[0].1, "m_delete_project_ref"@) && met_ok(s[0].3)
    &&& creates_meeting(s[1].1, "m_delete_space_ref"@) && met_ok(s[1].3)
    &&& s[2].1 == RegistryCall::CreateSpace { name: "Delete Project Space"@ } && space_answer_ok(s[2].3)
    &&& s[3].1 == RegistryCall::CreateProject { space_id: space_id_of(s[2].3), name: "Delete Me"@ } && project_ok(s[3].3)
    &&& s[4].1 == RegistryCall::Assign {
        meeting_id: "m_delete_project_ref"@,
        space_id: None,
        project_id: Some(project_of(s[3].3).id),
    } && unit_ok(s[4].3)
    &&& s[5].1 == RegistryCall::DeleteProject { id: project_of(s[3].3).id } && unit_ok(s[5].3)
    &&& s[6].1 == RegistryCall::ListMeetings
    &&& first_summary(s[6].3, "m_delete_project_ref"@) matches Some(m) && m.space_id == Some(space_id_of(s[2].3))
            && m.project_id is None
    &&& s[7].1 == RegistryCall::CreateSpace { name: "Delete Space"@ } && space_answer_ok(s[7].3)
    &&& s[8].1 == RegistryCall::CreateProject { space_id: space_id_of(s[7].3), name: "Deleted With Space"@ } && project_ok(
        s[8].3,
    )
    &&& s[9].1 == RegistryCall::Assign {
        meeting_id: "m_delete_space_ref"@,
        space_id: None,
        project_id: Some(project_of(s[8].3).id),
    } && unit_ok(s[9].3)
    &&& s[10].1 == RegistryCall::DeleteSpace { id: space_id_of(s[7].3) } && unit_ok(s[10].3)
    &&& s[11].1 == RegistryCall::ListMeetings
    &&& first_summary(s[11].3, "m_delete_space_ref"@) matches Some(m) && m.space_id is None && m.project_id is None
    &&& s[12].1 == RegistryCall::GetMeeting { id: "m_delete_project_ref"@ } && met_ok(s[12].3)
    &&& s[13].1 == RegistryCall::GetMeeting { id: "m_delete_space_ref"@ } && met_ok(s[13].3)
}

/// Step `i` of a check was made exactly when the steps before it were and
/// allowed it.
pub open spec fn made_when<S>(s: Seq<Step<S>>, i: int, allowed: bool) -> bool {
    s.len() > i <==> (s.len() >= i && allowed)
}

/// The calls the check makes, whatever the answers: a meeting created, then read back when the answer is the created row.
pub open spec fn round_trip_calls<S>(s: Seq<Step<S>>) -> bool {
    &&& 1 <= s.len() <= 2
    &&& creates_meeting(s[0].1, "m_round_trip"@)
    &&& made_when(s, 1, met_ok(s[0].3) && met(s[0].3).id == "m_round_trip"@ && met(s[0].3).title == "Round Trip"@ && met(s[0].3).ended_at is None && met(s[0].3).duration_ms is None)
    &&& s.len() > 1 ==> s[1].1 == RegistryCall::GetMeeting { id: "m_round_trip"@ }
}

/// The calls the check makes, whatever the answers: a meeting created, and when it is, a second under its id.
pub open spec fn duplicate_id_calls<S>(s: Seq<Step<S>>) -> bool {
    &&& 1 <= s.len() <= 2
    &&& creates_meeting(s[0].1, "m_dup"@)
    &&& made_when(s, 1, met_ok(s[0].3))
    &&& s.len() > 1 ==> creates_meeting(s[1].1, "m_dup"@)
}

/// The calls the check makes, whatever the answers: a meeting created, and when it is, a second in its directory.
pub open spec fn duplicate_dir_calls<S>(s: Seq<Step<S>>) -> bool {
    &&& 1 <= s.len() <= 2
    &&& (s[0].1 matches RegistryCall::CreateMeeting { draft } && draft.id == "m_dir_a"@ && draft.dir_path == "/tmp/share_this_dir_dup"@)
    &&& made_when(s, 1, met_ok(s[0].3))
    &&& s.len() > 1 ==> (s[1].1 matches RegistryCall::CreateMeeting { draft } && draft.id == "m_dir_b"@ && draft.dir_path == "/tmp/share_this_dir_dup"@)
}

/// The calls the check makes, whatever the answers: a read of an unknown id.
pub open spec fn unknown_get_calls<S>(s: Seq<Step<S>>) -> bool {
    &&& 1 <= s.len() <= 1
    &&& s[0].1 == RegistryCall::GetMeeting { id: "does-not-exist"@ }
}

/// The calls the check makes, whatever the answers: three meetings created whatever the answers; then, each on a passing answer to the one before, `b`'s language and end set, a note created for it, and three listings.
pub open spec fn latest_first_calls<S>(s: Seq<Step<S>>) -> bool {
    &&& 1 <= s.len() <= 9
    &&& creates_meeting(s[0].1, "a"@)
    &&& made_when(s, 1, true)
    &&& s.len() > 1 ==> creates_meeting(s[1].1, "b"@)
    &&& made_when(s, 2, true)
    &&& s.len() > 2 ==> creates_meeting(s[2].1, "c"@)
    &&& made_when(s, 3, true)
    &&& s.len() > 3 ==> s[3].1 == RegistryCall::UpdateLanguage { id: "b"@, language: "es"@ }
    &&& made_when(s, 4, met_ok(s[3].3))
    &&& s.len() > 4 ==> s[4].1 == RegistryCall::UpdateEnded { id: "b"@, ended_at: "2026-05-03T10:30:00+00:00"@, duration_ms: 1_800_000 }
    &&& made_when(s, 5, met_ok(s[4].3))
    &&& s.len() > 5 ==> creates_note(s[5].1, "n_list_b"@, "b"@)
    &&& made_when(s, 6, note_ok(s[5].3))
    &&& s.len() > 6 ==> s[6].1 == RegistryCall::ListMeetings
    &&& made_when(s, 7, (s[6].3 matches RegistryAnswer::Summaries(Ok(ls)) && model_ids_among(ls, seq!["a"@, "b"@, "c"@]) == seq!["b"@, "c"@, "a"@]))
    &&& s.len() > 7 ==> s[7].1 == RegistryCall::ListMeetings
    &&& made_when(s, 8, (first_summary(s[7].3, "b"@) matches Some(m) && m.title == "B"@ && m.started_at == "2026-05-03T10:00:00+00:00"@ && m.ended_at == Some("2026-05-03T10:30:00+00:00"@) && m.duration_ms == 1_800_000 && m.language == "es"@ && m.has_notes))
    &&& s.len() > 8 ==> s[8].1 == RegistryCall::ListMeetings
}

/// The calls the check makes, whatever the answers: a meeting created; on success ended; on a passing answer read back.
pub open spec fn ended_calls<S>(s: Seq<Step<S>>) -> bool {
    &&& 1 <= s.len() <= 3
    &&& creates_meeting(s[0].1, "m_end"@)
    &&& made_when(s, 1, met_ok(s[0].3))
    &&& s.len() > 1 ==> s[1].1 == RegistryCall::UpdateEnded { id: "m_end"@, ended_at: "2026-05-05T11:00:00+00:00"@, duration_ms: 3_600_000 }
    &&& made_when(s, 2, met_ok(s[1].3) && met(s[1].3).ended_at == Some("2026-05-05T11:00:00+00:00"@) && met(s[1].3).duration_ms == Some(3_600_000u64))
    &&& s.len() > 2 ==> s[2].1 == RegistryCall::GetMeeting { id: "m_end"@ }
}

/// The calls the check makes, whatever the answers: a meeting created; on success its language changed; on a passing answer read back.
pub open spec fn language_calls<S>(s: Seq<Step<S>>) -> bool {
    &&& 1 <= s.len() <= 3
    &&& creates_meeting(s[0].1, "m_lang"@)
    &&& made_when(s, 1, met_ok(s[0].3))
    &&& s.len() > 1 ==> s[1].1 == RegistryCall::UpdateLanguage { id: "m_lang"@, language: "es"@ }
    &&& made_when(s, 2, met_ok(s[1].3) && met(s[1].3).language == "es"@)
    &&& s.len() > 2 ==> s[2].1 == RegistryCall::GetMeeting { id: "m_lang"@ }
}

/// The calls the check makes, whatever the answers: a meeting created, renamed, read back and an unknown id renamed, each on a passing answer to the one before.
pub open spec fn rename_calls<S>(s: Seq<Step<S>>) -> bool {
    &&& 1 <= s.len() <= 4
    &&& creates_meeting(s[0].1, "m_rename"@)
    &&& made_when(s, 1, met_ok(s[0].3))
    &&& s.len() > 1 ==> s[1].1 == RegistryCall::Rename { id: "m_rename"@, title: "After"@ }
    &&& made_when(s, 2, met_ok(s[1].3) && met(s[1].3).title == "After"@ && met(s[1].3).id == "m_rename"@ && met(s[1].3).language == "auto"@)
    &&& s.len() > 2 ==> s[2].1 == RegistryCall::GetMeeting { id: "m_rename"@ }
    &&& made_when(s, 3, met_ok(s[2].3) && met(s[2].3).title == "After"@)
    &&& s.len() > 3 ==> s[3].1 == RegistryCall::Rename { id: "does-not-exist"@, title: "X"@ }
}

/// The calls the check makes, whatever the answers: a meeting and its note created, the meeting deleted, read and its notes listed, each on a passing answer to the one before.
pub open spec fn cascade_calls<S>(s: Seq<Step<S>>) -> bool {
    &&& 1 <= s.len() <= 5
    &&& creates_meeting(s[0].1, "m_del"@)
    &&& made_when(s, 1, met_ok(s[0].3))
    &&& s.len() > 1 ==> creates_note(s[1].1, "n_del"@, "m_del"@)
    &&& made_when(s, 2, note_ok(s[1].3))
    &&& s.len() > 2 ==> s[2].1 == RegistryCall::DeleteMeeting { id: "m_del"@ }
    &&& made_when(s, 3, unit_ok(s[2].3))
    &&& s.len() > 3 ==> s[3].1 == RegistryCall::GetMeeting { id: "m_del"@ }
    &&& made_when(s, 4, (s[3].3 matches RegistryAnswer::Meeting(Err(StorageErrorModel::NotFound { .. }))))
    &&& s.len() > 4 ==> s[4].1 == RegistryCall::ListNotes { meeting_id: "m_del"@ }
}

/// The calls the check makes, whatever the answers: a meeting created, a note created for it and its notes listed, each on a passing answer to the one before.
pub open spec fn notes_listed_calls<S>(s: Seq<Step<S>>) -> bool {
    &&& 1 <= s.len() <= 3
    &&& creates_meeting(s[0].1, "m_notes"@)
    &&& made_when(s, 1, met_ok(s[0].3))
    &&& s.len() > 1 ==> creates_note(s[1].1, "n_one"@, "m_notes"@)
    &&& made_when(s, 2, note_ok(s[1].3) && note_of_answer(s[1].3).id == "n_one"@ && note_of_answer(s[1].3).created_at.len() > 0)
    &&& s.len() > 2 ==> s[2].1 == RegistryCall::ListNotes { meeting_id: "m_notes"@ }
}

/// The calls the check makes, whatever the answers: a meeting and its note created, the note replaced and the notes listed, the meeting deleted, a second meeting created, its note replaced and its notes listed, each on a passing answer to the one before.
pub open spec fn replace_calls<S>(s: Seq<Step<S>>) -> bool {
    &&& 1 <= s.len() <= 8
    &&& creates_meeting(s[0].1, "m_replace_note"@)
    &&& made_when(s, 1, met_ok(s[0].3))
    &&& s.len() > 1 ==> creates_note(s[1].1, "n_original"@, "m_replace_note"@)
    &&& made_when(s, 2, note_ok(s[1].3))
    &&& s.len() > 2 ==> (s[2].1 matches RegistryCall::ReplaceNote { meeting_id, draft } && meeting_id == "m_replace_note"@ && draft.id == "n_replaced"@ && draft.content_md == "# edited by user"@ && draft.dialect == "basic"@)
    &&& made_when(s, 3, note_ok(s[2].3) && note_of_answer(s[2].3).id == "n_replaced"@ && note_of_answer(s[2].3).content_md == "# edited by user"@ && note_of_answer(s[2].3).dialect == "basic"@ && note_of_answer(s[2].3).created_at.len() > 0 && !crate::text::text_less(note_of_answer(s[2].3).created_at, note_of_answer(s[1].3).created_at))
    &&& s.len() > 3 ==> s[3].1 == RegistryCall::ListNotes { meeting_id: "m_replace_note"@ }
    &&& made_when(s, 4, (s[3].3 matches RegistryAnswer::Notes(Ok(v)) && v.len() == 1 && v[0].id == "n_replaced"@ && v[0].content_md == "# edited by user"@))
    &&& s.len() > 4 ==> s[4].1 == RegistryCall::DeleteMeeting { id: "m_replace_note"@ }
    &&& made_when(s, 5, unit_ok(s[4].3))
    &&& s.len() > 5 ==> creates_meeting(s[5].1, "m_replace_note_fresh"@)
    &&& made_when(s, 6, met_ok(s[5].3))
    &&& s.len() > 6 ==> (s[6].1 matches RegistryCall::ReplaceNote { meeting_id, draft } && meeting_id == "m_replace_note_fresh"@ && draft.id == "n_fresh"@)
    &&& made_when(s, 7, note_ok(s[6].3))
    &&& s.len() > 7 ==> s[7].1 == RegistryCall::ListNotes { meeting_id: "m_replace_note_fresh"@ }
}

/// The calls the check makes, whatever the answers: a note replaced for an unknown meeting.
pub open spec fn replace_unknown_calls<S>(s: Seq<Step<S>>) -> bool {
    &&& 1 <= s.len() <= 1
    &&& (s[0].1 matches RegistryCall::ReplaceNote { meeting_id, .. } && meeting_id == "does-not-exist"@)
}

/// The calls the check makes, whatever the answers: a meeting inserted with its note and end, then, on a passing answer, its notes listed.
pub open spec fn atomic_calls<S>(s: Seq<Step<S>>) -> bool {
    &&& 1 <= s.len() <= 2
    &&& (s[0].1 matches RegistryCall::CreateWithNote { meeting, note, ended_at, duration_ms } && meeting.id == "m_atomic_ok"@ && note.id == "n_atomic_ok"@ && note.meeting_id == "m_atomic_ok"@ && ended_at == Some("2026-05-05T10:30:00+00:00"@) && duration_ms == Some(1_800_000u64))
    &&& made_when(s, 1, (s[0].3 matches RegistryAnswer::Pair(Ok((m, n))) && m.id == "m_atomic_ok"@ && m.ended_at == Some("2026-05-05T10:30:00+00:00"@) && m.duration_ms == Some(1_800_000u64) && n.id == "n_atomic_ok"@ && n.meeting_id == "m_atomic_ok"@))
    &&& s.len() > 1 ==> s[1].1 == RegistryCall::ListNotes { meeting_id: "m_atomic_ok"@ }
}

/// The calls the check makes, whatever the answers: a meeting and its note created, a meeting inserted with a note under that note id, then, when the insert fails, the new meeting read, each on a passing answer to the one before.
pub open spec fn rollback_run_calls<S>(s: Seq<Step<S>>) -> bool {
    &&& 1 <= s.len() <= 4
    &&& creates_meeting(s[0].1, "m_atomic_pre"@)
    &&& made_when(s, 1, met_ok(s[0].3))
    &&& s.len() > 1 ==> creates_note(s[1].1, "n_atomic_pre"@, "m_atomic_pre"@)
    &&& made_when(s, 2, note_ok(s[1].3))
    &&& s.len() > 2 ==> (s[2].1 matches RegistryCall::CreateWithNote { meeting, note, ended_at, duration_ms } && meeting.id == "m_atomic_rollback"@ && note.id == "n_atomic_pre"@ && ended_at is None && duration_ms is None)
    &&& made_when(s, 3, (s[2].3 matches RegistryAnswer::Pair(Err(_))))
    &&& s.len() > 3 ==> s[3].1 == RegistryCall::GetMeeting { id: "m_atomic_rollback"@ }
}

/// The calls the check makes, whatever the answers: a space created, renamed, listed, deleted, listed and renamed again, each on a passing answer to the one before.
pub open spec fn spaces_calls<S>(s: Seq<Step<S>>) -> bool {
    &&& 1 <= s.len() <= 6
    &&& s[0].1 == RegistryCall::CreateSpace { name: "Work"@ }
    &&& made_when(s, 1, (s[0].3 matches RegistryAnswer::Space(Ok(sp)) && sp.name == "Work"@ && sp.position >= 0))
    &&& s.len() > 1 ==> s[1].1 == RegistryCall::RenameSpace { id: space_id_of(s[0].3), name: "Deep Work"@ }
    &&& made_when(s, 2, unit_ok(s[1].3))
    &&& s.len() > 2 ==> s[2].1 == RegistryCall::ListSpaces
    &&& made_when(s, 3, (s[2].3 matches RegistryAnswer::Spaces(Ok(ls)) && exists|k: int| 0 <= k < ls.len() && (#[trigger] ls[k]).id == space_id_of(s[0].3) && ls[k].name == "Deep Work"@))
    &&& s.len() > 3 ==> s[3].1 == RegistryCall::DeleteSpace { id: space_id_of(s[0].3) }
    &&& made_when(s, 4, unit_ok(s[3].3))
    &&& s.len() > 4 ==> s[4].1 == RegistryCall::ListSpaces
    &&& made_when(s, 5, (s[4].3 matches RegistryAnswer::Spaces(Ok(ls)) && forall|k: int| 0 <= k < ls.len() ==> (#[trigger] ls[k]).id != space_id_of(s[0].3)))
    &&& s.len() > 5 ==> s[5].1 == RegistryCall::RenameSpace { id: space_id_of(s[0].3), name: "Missing"@ }
}

/// The calls the check makes, whatever the answers: two spaces and a project in each created, the first renamed, projects listed per space and in all, the first deleted, listed again and a project created in a missing space, each on a passing answer to the one before.
pub open spec fn projects_calls<S>(s: Seq<Step<S>>) -> bool {
    &&& 1 <= s.len() <= 10
    &&& s[0].1 == RegistryCall::CreateSpace { name: "Projects A"@ }
    &&& made_when(s, 1, space_answer_ok(s[0].3))
    &&& s.len() > 1 ==> s[1].1 == RegistryCall::CreateSpace { name: "Projects B"@ }
    &&& made_when(s, 2, space_answer_ok(s[1].3))
    &&& s.len() > 2 ==> s[2].1 == RegistryCall::CreateProject { space_id: space_id_of(s[0].3), name: "Launch"@ }
    &&& made_when(s, 3, project_ok(s[2].3))
    &&& s.len() > 3 ==> s[3].1 == RegistryCall::CreateProject { space_id: space_id_of(s[1].3), name: "Other"@ }
    &&& made_when(s, 4, project_ok(s[3].3) && project_of(s[2].3).space_id == space_id_of(s[0].3))
    &&& s.len() > 4 ==> s[4].1 == RegistryCall::RenameProject { id: project_of(s[2].3).id, name: "Renamed Launch"@ }
    &&& made_when(s, 5, unit_ok(s[4].3))
    &&& s.len() > 5 ==> s[5].1 == RegistryCall::ListProjects { space_id: Some(space_id_of(s[0].3)) }
    &&& made_when(s, 6, (s[5].3 matches RegistryAnswer::Projects(Ok(v)) && v.len() == 1 && v[0].id == project_of(s[2].3).id && v[0].name == "Renamed Launch"@))
    &&& s.len() > 6 ==> s[6].1 == RegistryCall::ListProjects { space_id: None }
    &&& made_when(s, 7, (s[6].3 matches RegistryAnswer::Projects(Ok(v)) && exists|k: int| 0 <= k < v.len() && (#[trigger] v[k]).id == project_of(s[3].3).id))
    &&& s.len() > 7 ==> s[7].1 == RegistryCall::DeleteProject { id: project_of(s[2].3).id }
    &&& made_when(s, 8, unit_ok(s[7].3))
    &&& s.len() > 8 ==> s[8].1 == RegistryCall::ListProjects { space_id: Some(space_id_of(s[0].3)) }
    &&& made_when(s, 9, (s[8].3 matches RegistryAnswer::Projects(Ok(v)) && v.len() == 0))
    &&& s.len() > 9 ==> s[9].1 == RegistryCall::CreateProject { space_id: "missing-space"@, name: "Nope"@ }
}

/// The calls the check makes, whatever the answers: a tag created, created again by name, listed, deleted and listed, each on a passing answer to the one before.
pub open spec fn tags_calls<S>(s: Seq<Step<S>>) -> bool {
    &&& 1 <= s.len() <= 5
    &&& s[0].1 == RegistryCall::CreateTag { name: "urgent"@ }
    &&& made_when(s, 1, tag_ok(s[0].3))
    &&& s.len() > 1 ==> s[1].1 == RegistryCall::CreateTag { name: "urgent"@ }
    &&& made_when(s, 2, s[1].3 == s[0].3)
    &&& s.len() > 2 ==> s[2].1 == RegistryCall::ListTags
    &&& made_when(s, 3, (s[2].3 matches RegistryAnswer::Tags(Ok(ls)) && exists|k: int| 0 <= k < ls.len() && (#[trigger] ls[k]).id == tag_of(s[0].3).id && ls[k].name == "urgent"@))
    &&& s.len() > 3 ==> s[3].1 == RegistryCall::DeleteTag { id: tag_of(s[0].3).id }
    &&& made_when(s, 4, unit_ok(s[3].3))
    &&& s.len() > 4 ==> s[4].1 == RegistryCall::ListTags
}

/// The calls the check makes, whatever the answers: a meeting and a tag created, the meeting tagged twice, its tags and row listed, untagged, its tags listed and a missing meeting tagged, each on a passing answer to the one before.
pub open spec fn tagging_calls<S>(s: Seq<Step<S>>) -> bool {
    &&& 1 <= s.len() <= 9
    &&& creates_meeting(s[0].1, "m_tagging"@)
    &&& made_when(s, 1, met_ok(s[0].3))
    &&& s.len() > 1 ==> s[1].1 == RegistryCall::CreateTag { name: "customer"@ }
    &&& made_when(s, 2, tag_ok(s[1].3))
    &&& s.len() > 2 ==> s[2].1 == RegistryCall::TagMeeting { meeting_id: "m_tagging"@, tag_id: tag_of(s[1].3).id }
    &&& made_when(s, 3, unit_ok(s[2].3))
    &&& s.len() > 3 ==> s[3].1 == RegistryCall::TagMeeting { meeting_id: "m_tagging"@, tag_id: tag_of(s[1].3).id }
    &&& made_when(s, 4, unit_ok(s[3].3))
    &&& s.len() > 4 ==> s[4].1 == RegistryCall::TagsFor { meeting_id: "m_tagging"@ }
    &&& made_when(s, 5, (s[4].3 matches RegistryAnswer::Tags(Ok(v)) && v.len() == 1 && v[0] == tag_of(s[1].3)))
    &&& s.len() > 5 ==> s[5].1 == RegistryCall::ListMeetings
    &&& made_when(s, 6, (first_summary(s[5].3, "m_tagging"@) matches Some(m) && m.tags.len() == 1 && m.tags[0] == tag_of(s[1].3).id))
    &&& s.len() > 6 ==> s[6].1 == RegistryCall::UntagMeeting { meeting_id: "m_tagging"@, tag_id: tag_of(s[1].3).id }
    &&& made_when(s, 7, unit_ok(s[6].3))
    &&& s.len() > 7 ==> s[7].1 == RegistryCall::TagsFor { meeting_id: "m_tagging"@ }
    &&& made_when(s, 8, (s[7].3 matches RegistryAnswer::Tags(Ok(v)) && v.len() == 0))
    &&& s.len() > 8 ==> s[8].1 == RegistryCall::TagMeeting { meeting_id: "missing-meeting"@, tag_id: tag_of(s[1].3).id }
}

/// The calls the check makes, whatever the answers: a meeting, a space and a project in it created, then the meeting filed under the space, the project and nothing, its row listed after each, each on a passing answer to the one before.
pub open spec fn assign_calls<S>(s: Seq<Step<S>>) -> bool {
    &&& 1 <= s.len() <= 9
    &&& creates_meeting(s[0].1, "m_assign"@)
    &&& made_when(s, 1, met_ok(s[0].3))
    &&& s.len() > 1 ==> s[1].1 == RegistryCall::CreateSpace { name: "Assignments"@ }
    &&& made_when(s, 2, space_answer_ok(s[1].3))
    &&& s.len() > 2 ==> s[2].1 == RegistryCall::CreateProject { space_id: space_id_of(s[1].3), name: "Nested"@ }
    &&& made_when(s, 3, project_ok(s[2].3))
    &&& s.len() > 3 ==> s[3].1 == RegistryCall::Assign { meeting_id: "m_assign"@, space_id: Some(space_id_of(s[1].3)), project_id: None }
    &&& made_when(s, 4, unit_ok(s[3].3))
    &&& s.len() > 4 ==> s[4].1 == RegistryCall::ListMeetings
    &&& made_when(s, 5, (first_summary(s[4].3, "m_assign"@) matches Some(m) && m.space_id == Some(space_id_of(s[1].3)) && m.project_id is None))
    &&& s.len() > 5 ==> s[5].1 == RegistryCall::Assign { meeting_id: "m_assign"@, space_id: None, project_id: Some(project_of(s[2].3).id) }
    &&& made_when(s, 6, unit_ok(s[5].3))
    &&& s.len() > 6 ==> s[6].1 == RegistryCall::ListMeetings
    &&& made_when(s, 7, (first_summary(s[6].3, "m_assign"@) matches Some(m) && m.space_id == Some(space_id_of(s[1].3)) && m.project_id == Some(project_of(s[2].3).id)))
    &&& s.len() > 7 ==> s[7].1 == RegistryCall::Assign { meeting_id: "m_assign"@, space_id: None, project_id: None }
    &&& made_when(s, 8, unit_ok(s[7].3))
    &&& s.len() > 8 ==> s[8].1 == RegistryCall::ListMeetings
}

/// The calls the check makes, whatever the answers: three meetings, a space, a project and a tag created, two meetings filed and one tagged, each on a passing answer to the one before; then the four filtered listings.
pub open spec fn org_filters_calls<S>(s: Seq<Step<S>>) -> bool {
    &&& 1 <= s.len() <= 13
    &&& creates_meeting(s[0].1, "m_filter_inbox"@)
    &&& made_when(s, 1, met_ok(s[0].3))
    &&& s.len() > 1 ==> creates_meeting(s[1].1, "m_filter_space"@)
    &&& made_when(s, 2, met_ok(s[1].3))
    &&& s.len() > 2 ==> creates_meeting(s[2].1, "m_filter_project"@)
    &&& made_when(s, 3, met_ok(s[2].3))
    &&& s.len() > 3 ==> s[3].1 == RegistryCall::CreateSpace { name: "Filter Space"@ }
    &&& made_when(s, 4, space_answer_ok(s[3].3))
    &&& s.len() > 4 ==> s[4].1 == RegistryCall::CreateProject { space_id: space_id_of(s[3].3), name: "Filter Project"@ }
    &&& made_when(s, 5, project_ok(s[4].3))
    &&& s.len() > 5 ==> s[5].1 == RegistryCall::CreateTag { name: "filter-tag"@ }
    &&& made_when(s, 6, tag_ok(s[5].3))
    &&& s.len() > 6 ==> s[6].1 == RegistryCall::Assign { meeting_id: "m_filter_space"@, space_id: Some(space_id_of(s[3].3)), project_id: None }
    &&& made_when(s, 7, unit_ok(s[6].3))
    &&& s.len() > 7 ==> s[7].1 == RegistryCall::Assign { meeting_id: "m_filter_project"@, space_id: None, project_id: Some(project_of(s[4].3).id) }
    &&& made_when(s, 8, unit_ok(s[7].3))
    &&& s.len() > 8 ==> s[8].1 == RegistryCall::TagMeeting { meeting_id: "m_filter_project"@, tag_id: tag_of(s[5].3).id }
    &&& made_when(s, 9, unit_ok(s[8].3))
    &&& s.len() > 9 ==> s[9].1 == RegistryCall::ListFiltered { filter: filter_model(None, None, None, true) }
    &&& made_when(s, 10, true)
    &&& s.len() > 10 ==> s[10].1 == RegistryCall::ListFiltered { filter: filter_model(Some(space_id_of(s[3].3)), None, None, false) }
    &&& made_when(s, 11, true)
    &&& s.len() > 11 ==> s[11].1 == RegistryCall::ListFiltered { filter: filter_model(None, Some(project_of(s[4].3).id), None, false) }
    &&& made_when(s, 12, true)
    &&& s.len() > 12 ==> s[12].1 == RegistryCall::ListFiltered { filter: filter_model(None, None, Some(tag_of(s[5].3).id), false) }
}

/// The calls the check makes, whatever the answers: two meetings, a space and a project in it created, a meeting filed under the project, the project deleted and the row listed, a second space and project created, the other meeting filed there, the space deleted and the row listed, then both meetings read, each on a passing answer to the one before.
pub open spec fn org_deletes_calls<S>(s: Seq<Step<S>>) -> bool {
    &&& 1 <= s.len() <= 14
    &&& creates_meeting(s[0].1, "m_delete_project_ref"@)
    &&& made_when(s, 1, met_ok(s[0].3))
    &&& s.len() > 1 ==> creates_meeting(s[1].1, "m_delete_space_ref"@)
    &&& made_when(s, 2, met_ok(s[1].3))
    &&& s.len() > 2 ==> s[2].1 == RegistryCall::CreateSpace { name: "Delete Project Space"@ }
    &&& made_when(s, 3, space_answer_ok(s[2].3))
    &&& s.len() > 3 ==> s[3].1 == RegistryCall::CreateProject { space_id: space_id_of(s[2].3), name: "Delete Me"@ }
    &&& made_when(s, 4, project_ok(s[3].3))
    &&& s.len() > 4 ==> s[4].1 == RegistryCall::Assign { meeting_id: "m_delete_project_ref"@, space_id: None, project_id: Some(project_of(s[3].3).id) }
    &&& made_when(s, 5, unit_ok(s[4].3))
    &&& s.len() > 5 ==> s[5].1 == RegistryCall::DeleteProject { id: project_of(s[3].3).id }
    &&& made_when(s, 6, unit_ok(s[5].3))
    &&& s.len() > 6 ==> s[6].1 == RegistryCall::ListMeetings
    &&& made_when(s, 7, (first_summary(s[6].3, "m_delete_project_ref"@) matches Some(m) && m.space_id == Some(space_id_of(s[2].3)) && m.project_id is None))
    &&& s.len() > 7 ==> s[7].1 == RegistryCall::CreateSpace { name: "Delete Space"@ }
    &&& made_when(s, 8, space_answer_ok(s[7].3))
    &&& s.len() > 8 ==> s[8].1 == RegistryCall::CreateProject { space_id: space_id_of(s[7].3), name: "Deleted With Space"@ }
    &&& made_when(s, 9, project_ok(s[8].3))
    &&& s.len() > 9 ==> s[9].1 == RegistryCall::Assign { meeting_id: "m_delete_space_ref"@, space_id: None, project_id: Some(project_of(s[8].3).id) }
    &&& made_when(s, 10, unit_ok(s[9].3))
    &&& s.len() > 10 ==> s[10].1 == RegistryCall::DeleteSpace { id: space_id_of(s[7].3) }
    &&& made_when(s, 11, unit_ok(s[10].3))
    &&& s.len() > 11 ==> s[11].1 == RegistryCall::ListMeetings
    &&& made_when(s, 12, (first_summary(s[11].3, "m_delete_space_ref"@) matches Some(m) && m.space_id is None && m.project_id is None))
    &&& s.len() > 12 ==> s[12].1 == RegistryCall::GetMeeting { id: "m_delete_project_ref"@ }
    &&& made_when(s, 13, met_ok(s[12].3))
    &&& s.len() > 13 ==> s[13].1 == RegistryCall::GetMeeting { id: "m_delete_space_ref"@ }
}

/// The calls check `k` of the suite, in the suite's order, makes.
pub open spec fn check_calls<S>(k: int, s: Seq<Step<S>>) -> bool {
    if k == 0 {
        round_trip_calls(s)
    } else if k == 1 {
        duplicate_id_calls(s)
    } else if k == 2 {
        duplicate_dir_calls(s)
    } else if k == 3 {
        unknown_get_calls(s)
    } else if k == 4 {
        latest_first_calls(s)
    } else if k == 5 {
        ended_calls(s)
    } else if k == 6 {
        language_calls(s)
    } else if k == 7 {
        rename_calls(s)
    } else if k == 8 {
        cascade_calls(s)
    } else if k == 9 {
        notes_listed_calls(s)
    } else if k == 10 {
        replace_calls(s)
    } else if k == 11 {
        replace_unknown_calls(s)
    } else if k == 12 {
        atomic_calls(s)
    } else if k == 13 {
        rollback_run_calls(s)
    } else if k == 14 {
        spaces_calls(s)
    } else if k == 15 {
        projects_calls(s)
    } else if k == 16 {
        tags_calls(s)
    } else if k == 17 {
        tagging_calls(s)
    } else if k == 18 {
        assign_calls(s)
    } else if k == 19 {
        org_filters_calls(s)
    } else {
        org_deletes_calls(s)
    }
}

/// Check `k` of the suite, in the suite's order, passes on these steps.
pub open spec fn check_pass<S>(k: int, s: Seq<Step<S>>) -> bool {
    if k == 0 {
        round_trip_ok(s)
    } else if k == 1 {
        duplicate_id_ok(s)
    } else if k == 2 {
        duplicate_dir_ok(s)
    } else if k == 3 {
        unknown_get_ok(s)
    } else if k == 4 {
        latest_first_ok(s)
    } else if k == 5 {
        ended_ok(s)
    } else if k == 6 {
        language_ok(s)
    } else if k == 7 {
        rename_ok(s)
    } else if k == 8 {
        cascade_ok(s)
    } else if k == 9 {
        notes_listed_ok(s)
    } else if k == 10 {
        replace_ok(s)
    } else if k == 11 {
        replace_unknown_ok(s)
    } else if k == 12 {
        atomic_ok(s)
    } else if k == 13 {
        rollback_run_ok(s)
    } else if k == 14 {
        spaces_ok(s)
    } else if k == 15 {
        projects_ok(s)
    } else if k == 16 {
        tags_ok(s)
    } else if k == 17 {
        tagging_ok(s)
    } else if k == 18 {
        assign_ok(s)
    } else if k == 19 {
        org_filters_ok(s)
    } else {
        org_deletes_ok(s)
    }
}

/// What a run of the suite did, whatever the adapter answered: traces
/// `ts[0]` to `ts[n]`, each continuing the one before, the steps between
/// `ts[k - 1]` and `ts[k]` being those of check `k - 1` and making the
/// calls it makes (`check_calls`); every check but the last that ran
/// passed, the run passed exactly when that last check passed, and it
/// passed only when all 21 ran.
pub open spec fn suite_outcome<S>(ts: Seq<Trace<S>>, passed: bool) -> bool {
    let n = ts.len() - 1;
    &&& 1 <= n <= 21
    &&& forall|k: int| 1 <= k <= n ==> extends(ts[k - 1], #[trigger] ts[k])
    &&& forall|k: int| 1 <= k <= n ==> check_calls(k - 1, added(ts[k - 1], #[trigger] ts[k]))
    &&& forall|k: int| 1 <= k < n ==> check_pass(k - 1, added(ts[k - 1], #[trigger] ts[k]))
    &&& passed <==> check_pass(n - 1, added(ts[n - 1], ts[n]))
    &&& passed ==> n == 21
}

/// A passing run of the suite passed every one of its 21 checks, each on
/// its own steps, each check's steps following the one before: among them
/// the rename check (`rename_ok`), the note replacement checks
/// (`replace_ok`, `replace_unknown_ok`), the tag checks (`tags_ok`,
/// `tagging_ok`) and the filing checks (`assign_ok`, `org_deletes_ok`).
pub proof fn law_passing_suite_passes_every_check<S>(ts: Seq<Trace<S>>, k: int)
    requires
        suite_outcome(ts, true),
        0 <= k < 21,
    ensures
        ts.len() == 22,
        extends(ts[k], ts[k + 1]),
        check_pass(k, added(ts[k], ts[k + 1])),
{
    let next = ts[k + 1];
    assert(extends(ts[k + 1 - 1], next));
}

fn run_checks<S: Storage>(adapter: &mut S, t: &mut Ghost<Trace<S>>) -> (r: Result<(), String>)
    requires
        ran(old(t)@.0, old(t)@.1, *old(adapter)),
    ensures
        ran(final(t)@.0, final(t)@.1, *final(adapter)),
        exists|ts: Seq<Trace<S>>| #[trigger] suite_outcome(ts, r is Ok) && ts[0] == old(t)@ && ts.last() == final(t)@,
{
    let ghost t0 = t@;
    let r = create_get_round_trip(adapter, t);
    let ghost t1 = t@;
    if r.is_err() {
        assert(suite_outcome(seq![t0, t1], false));
        return r;
    }
    let r = create_duplicate_id_is_already_exists(adapter, t);
    let ghost t2 = t@;
    if r.is_err() {
        assert(suite_outcome(seq![t0, t1, t2], false));
        return r;
    }
    let r = create_duplicate_dir_path_is_unique_conflict(adapter, t);
    let ghost t3 = t@;
    if r.is_err() {
        assert(suite_outcome(seq![t0, t1, t2, t3], false));
        return r;
    }
    let r = get_unknown_id_is_not_found(adapter, t);
    let ghost t4 = t@;
    if r.is_err() {
        assert(suite_outcome(seq![t0, t1, t2, t3, t4], false));
        return r;
    }
    let r = list_returns_started_at_desc(adapter, t);
    let ghost t5 = t@;
    if r.is_err() {
        assert(suite_outcome(seq![t0, t1, t2, t3, t4, t5], false));
        return r;
    }
    let r = update_meeting_ended_writes_duration(adapter, t);
    let ghost t6 = t@;
    if r.is_err() {
        assert(suite_outcome(seq![t0, t1, t2, t3, t4, t5, t6], false));
        return r;
    }
    let r = update_meeting_language_persists(adapter, t);
    let ghost t7 = t@;
    if r.is_err() {
        assert(suite_outcome(seq![t0, t1, t2, t3, t4, t5, t6, t7], false));
        return r;
    }
    let r = rename_meeting_persists_title(adapter, t);
    let ghost t8 = t@;
    if r.is_err() {
        assert(suite_outcome(seq![t0, t1, t2, t3, t4, t5, t6, t7, t8], false));
        return r;
    }
    let r = delete_meeting_cascades_to_notes(adapter, t);
    let ghost t9 = t@;
    if r.is_err() {
        assert(suite_outcome(seq![t0, t1, t2, t3, t4, t5, t6, t7, t8, t9], false));
        return r;
    }
    let r = create_and_list_notes_for_meeting(adapter, t);
    let ghost t10 = t@;
    if r.is_err() {
        assert(suite_outcome(seq![t0, t1, t2, t3, t4, t5, t6, t7, t8, t9, t10], false));
        return r;
    }
    let r = replace_meeting_note_replaces_existing(adapter, t);
    let ghost t11 = t@;
    if r.is_err() {
        assert(suite_outcome(seq![t0, t1, t2, t3, t4, t5, t6, t7, t8, t9, t10, t11], false));
        return r;
    }
    let r = replace_meeting_note_unknown_meeting_is_not_found(adapter, t);
    let ghost t12 = t@;
    if r.is_err() {
        assert(suite_outcome(seq![t0, t1, t2, t3, t4, t5, t6, t7, t8, t9, t10, t11, t12], false));
        return r;
    }
    let r = create_meeting_with_note_atomic_happy_path(adapter, t);
    let ghost t13 = t@;
    if r.is_err() {
        assert(suite_outcome(seq![t0, t1, t2, t3, t4, t5, t6, t7, t8, t9, t10, t11, t12, t13], false));
        return r;
    }
    let r = create_meeting_with_note_rolls_back_on_note_collision(adapter, t);
    let ghost t14 = t@;
    if r.is_err() {
        assert(suite_outcome(seq![t0, t1, t2, t3, t4, t5, t6, t7, t8, t9, t10, t11, t12, t13, t14], false));
        return r;
    }
    let r = spaces_create_list_rename_delete(adapter, t);
    let ghost t15 = t@;
    if r.is_err() {
        assert(suite_outcome(seq![t0, t1, t2, t3, t4, t5, t6, t7, t8, t9, t10, t11, t12, t13, t14, t15], false));
        return r;
    }
    let r = projects_create_list_rename_delete(adapter, t);
    let ghost t16 = t@;
    if r.is_err() {
        assert(suite_outcome(seq![t0, t1, t2, t3, t4, t5, t6, t7, t8, t9, t10, t11, t12, t13, t14, t15, t16], false));
        return r;
    }
    let r = tags_create_list_delete_and_idempotent_name(adapter, t);
    let ghost t17 = t@;
    if r.is_err() {
        assert(suite_outcome(seq![t0, t1, t2, t3, t4, t5, t6, t7, t8, t9, t10, t11, t12, t13, t14, t15, t16, t17], false));
        return r;
    }
    let r = tag_meeting_untag_and_list_tags_for_meeting(adapter, t);
    let ghost t18 = t@;
    if r.is_err() {
        assert(suite_outcome(seq![t0, t1, t2, t3, t4, t5, t6, t7, t8, t9, t10, t11, t12, t13, t14, t15, t16, t17, t18], false));
        return r;
    }
    let r = assign_meeting_handles_space_and_project_sets_space(adapter, t);
    let ghost t19 = t@;
    if r.is_err() {
        assert(suite_outcome(seq![t0, t1, t2, t3, t4, t5, t6, t7, t8, t9, t10, t11, t12, t13, t14, t15, t16, t17, t18, t19], false));
        return r;
    }
    let r = list_meetings_supports_org_filters(adapter, t);
    let ghost t20 = t@;
    if r.is_err() {
        assert(suite_outcome(seq![t0, t1, t2, t3, t4, t5, t6, t7, t8, t9, t10, t11, t12, t13, t14, t15, t16, t17, t18, t19, t20], false));
        return r;
    }
    let r = deleting_org_rows_preserves_meetings_and_clears_refs(adapter, t);
    assert(suite_outcome(seq![t0, t1, t2, t3, t4, t5, t6, t7, t8, t9, t10, t11, t12, t13, t14, t15, t16, t17, t18, t19, t20, t@], r is Ok));
    r
}

/// The whole suite run against `adapter`; `Err` names the first check that
/// failed. Whatever the adapter answers, its calls are recorded as steps
/// from the adapter it was given to the one it leaves, split by check, and
/// the run is `Ok` exactly when every check passed on its own steps (see
/// `suite_outcome` and `check_pass`).
pub fn run_suite<S: Storage>(adapter: &mut S) -> (r: Result<(), String>)
    ensures
        exists|ts: Seq<Trace<S>>|
            #[trigger] suite_outcome(ts, r is Ok) && ts[0] == (*old(adapter), Seq::<Step<S>>::empty())
                && ran(ts.last().0, ts.last().1, *final(adapter)),
{
    let mut t: Ghost<Trace<S>> = Ghost((*adapter, Seq::empty()));
    run_checks(adapter, &mut t)
}

} // verus!
