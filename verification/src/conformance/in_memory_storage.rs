//! An in-process registry: every `Storage` operation on plain vectors,
//! with each operation's effect stated over `RegistryModel`.

use vstd::prelude::*;

use crate::search::{
    any_where, first_where, found_at, lemma_first_where, lemma_first_where_none,
};
use crate::segment::copy_opt_string;
use crate::storage::{
    Meeting, MeetingSummary, MeetingDraft, MeetingDraftModel, MeetingModel, Note, NoteDraft, NoteDraftModel,
    NoteModel, Project, ProjectModel, Space, SpaceModel, StorageError, StorageErrorModel,
    Storage, SummaryModel, Tag, TagModel, FilterModel, RegistryCall, RegistryAnswer,
};
use crate::text::{decimal, text_less};

verus! {

/// A meeting with the space and project it is filed under.
pub struct RowModel {
    pub meeting: MeetingModel,
    pub space_id: Option<Seq<char>>,
    pub project_id: Option<Seq<char>>,
}

/// A tag put on a meeting.
pub struct LinkModel {
    pub meeting_id: Seq<char>,
    pub tag_id: Seq<char>,
}

/// The registry's contents. Rows keep their insertion order; `next_id`
/// numbers the identifiers the registry hands out.
pub struct RegistryModel {
    pub meetings: Seq<RowModel>,
    pub notes: Seq<NoteModel>,
    pub spaces: Seq<SpaceModel>,
    pub projects: Seq<ProjectModel>,
    pub tags: Seq<TagModel>,
    pub links: Seq<LinkModel>,
    pub next_id: u64,
}

/// The largest counter value for which an identifier is still handed out
/// (positions are `i64`).
pub const LAST_ID: u64 = 9223372036854775806;

pub open spec fn empty_registry() -> RegistryModel {
    RegistryModel {
        meetings: Seq::empty(),
        notes: Seq::empty(),
        spaces: Seq::empty(),
        projects: Seq::empty(),
        tags: Seq::empty(),
        links: Seq::empty(),
        next_id: 1,
    }
}

// ---- predicates -------------------------------------------------------

pub open spec fn meeting_is(id: Seq<char>) -> spec_fn(RowModel) -> bool {
    |r: RowModel| r.meeting.id == id
}

/// A row of another meeting than `id`.
pub open spec fn meeting_not(id: Seq<char>) -> spec_fn(RowModel) -> bool {
    |r: RowModel| r.meeting.id != id
}

pub open spec fn dir_is(dir: Seq<char>) -> spec_fn(RowModel) -> bool {
    |r: RowModel| r.meeting.dir_path == dir
}

pub open spec fn note_is(id: Seq<char>) -> spec_fn(NoteModel) -> bool {
    |n: NoteModel| n.id == id
}

pub open spec fn note_of(meeting_id: Seq<char>) -> spec_fn(NoteModel) -> bool {
    |n: NoteModel| n.meeting_id == meeting_id
}

pub open spec fn note_not_of(meeting_id: Seq<char>) -> spec_fn(NoteModel) -> bool {
    |n: NoteModel| n.meeting_id != meeting_id
}

pub open spec fn space_is(id: Seq<char>) -> spec_fn(SpaceModel) -> bool {
    |s: SpaceModel| s.id == id
}

pub open spec fn project_is(id: Seq<char>) -> spec_fn(ProjectModel) -> bool {
    |p: ProjectModel| p.id == id
}

pub open spec fn project_in(space_id: Seq<char>) -> spec_fn(ProjectModel) -> bool {
    |p: ProjectModel| p.space_id == space_id
}

pub open spec fn project_not_in(space_id: Seq<char>) -> spec_fn(ProjectModel) -> bool {
    |p: ProjectModel| p.space_id != space_id
}

pub open spec fn tag_is(id: Seq<char>) -> spec_fn(TagModel) -> bool {
    |t: TagModel| t.id == id
}

pub open spec fn tag_named(name: Seq<char>) -> spec_fn(TagModel) -> bool {
    |t: TagModel| t.name == name
}

pub open spec fn link_of(meeting_id: Seq<char>) -> spec_fn(LinkModel) -> bool {
    |l: LinkModel| l.meeting_id == meeting_id
}

pub open spec fn link_not_of(meeting_id: Seq<char>) -> spec_fn(LinkModel) -> bool {
    |l: LinkModel| l.meeting_id != meeting_id
}

pub open spec fn link_not_to(tag_id: Seq<char>) -> spec_fn(LinkModel) -> bool {
    |l: LinkModel| l.tag_id != tag_id
}

pub open spec fn link_is(meeting_id: Seq<char>, tag_id: Seq<char>) -> spec_fn(LinkModel) -> bool {
    |l: LinkModel| l.meeting_id == meeting_id && l.tag_id == tag_id
}

pub open spec fn link_is_not(meeting_id: Seq<char>, tag_id: Seq<char>) -> spec_fn(LinkModel) -> bool {
    |l: LinkModel| !(l.meeting_id == meeting_id && l.tag_id == tag_id)
}

pub open spec fn not_found(id: Seq<char>, kind: Seq<char>) -> StorageErrorModel {
    StorageErrorModel::NotFound { id, kind }
}

pub open spec fn ids_exhausted() -> StorageErrorModel {
    StorageErrorModel::Sql { message: "identifier counter exhausted"@ }
}

// ---- meetings ---------------------------------------------------------

/// The meeting a draft describes.
pub open spec fn drafted_meeting(
    d: MeetingDraftModel,
    ended_at: Option<Seq<char>>,
    duration_ms: Option<u64>,
) -> MeetingModel {
    MeetingModel {
        id: d.id,
        title: d.title,
        started_at: d.started_at,
        ended_at,
        duration_ms,
        language: d.language,
        dir_path: d.dir_path,
    }
}

/// A meeting in the Inbox.
pub open spec fn unfiled(m: MeetingModel) -> RowModel {
    RowModel { meeting: m, space_id: None, project_id: None }
}

/// Why a new meeting `d` cannot be registered, if it cannot: its id or its
/// directory is taken.
pub open spec fn meeting_conflict(st: RegistryModel, d: MeetingDraftModel) -> Option<
    StorageErrorModel,
> {
    if any_where(st.meetings, meeting_is(d.id)) {
        Some(StorageErrorModel::AlreadyExists { id: d.id, kind: "meeting"@ })
    } else if any_where(st.meetings, dir_is(d.dir_path)) {
        Some(
            StorageErrorModel::UniqueConflict {
                kind: "meeting"@,
                field: "dir_path"@,
                value: d.dir_path,
            },
        )
    } else {
        None
    }
}

pub open spec fn spec_create_meeting(st: RegistryModel, d: MeetingDraftModel) -> Result<
    (RegistryModel, MeetingModel),
    StorageErrorModel,
> {
    match meeting_conflict(st, d) {
        Some(e) => Err(e),
        None => {
            let m = drafted_meeting(d, None, None);
            Ok((RegistryModel { meetings: st.meetings.push(unfiled(m)), ..st }, m))
        },
    }
}

pub open spec fn spec_get_meeting(st: RegistryModel, id: Seq<char>) -> Result<
    MeetingModel,
    StorageErrorModel,
> {
    match first_where(st.meetings, meeting_is(id)) {
        Some(i) => Ok(st.meetings[i].meeting),
        None => Err(not_found(id, "meeting"@)),
    }
}

/// Replaces the first meeting with id `id` by `f` of it.
pub open spec fn spec_update_meeting(
    st: RegistryModel,
    id: Seq<char>,
    f: spec_fn(MeetingModel) -> MeetingModel,
) -> Result<(RegistryModel, MeetingModel), StorageErrorModel> {
    match first_where(st.meetings, meeting_is(id)) {
        Some(i) => {
            let m = f(st.meetings[i].meeting);
            Ok(
                (
                    RegistryModel {
                        meetings: st.meetings.update(i, RowModel { meeting: m, ..st.meetings[i] }),
                        ..st
                    },
                    m,
                ),
            )
        },
        None => Err(not_found(id, "meeting"@)),
    }
}

pub open spec fn spec_update_meeting_ended(
    st: RegistryModel,
    id: Seq<char>,
    ended_at: Seq<char>,
    duration_ms: u64,
) -> Result<(RegistryModel, MeetingModel), StorageErrorModel> {
    spec_update_meeting(
        st,
        id,
        |m: MeetingModel|
            MeetingModel { ended_at: Some(ended_at), duration_ms: Some(duration_ms), ..m },
    )
}

pub open spec fn spec_update_meeting_language(
    st: RegistryModel,
    id: Seq<char>,
    language: Seq<char>,
) -> Result<(RegistryModel, MeetingModel), StorageErrorModel> {
    spec_update_meeting(st, id, |m: MeetingModel| MeetingModel { language, ..m })
}

pub open spec fn spec_rename_meeting(st: RegistryModel, id: Seq<char>, title: Seq<char>) -> Result<
    (RegistryModel, MeetingModel),
    StorageErrorModel,
> {
    spec_update_meeting(st, id, |m: MeetingModel| MeetingModel { title, ..m })
}

/// Removes the meeting (every row with its id), its notes and its tags.
pub open spec fn spec_delete_meeting(st: RegistryModel, id: Seq<char>) -> Result<
    (RegistryModel, ()),
    StorageErrorModel,
> {
    match first_where(st.meetings, meeting_is(id)) {
        Some(i) => Ok(
            (
                RegistryModel {
                    meetings: st.meetings.filter(meeting_not(id)),
                    notes: st.notes.filter(note_not_of(id)),
                    links: st.links.filter(link_not_of(id)),
                    ..st
                },
                (),
            ),
        ),
        None => Err(not_found(id, "meeting"@)),
    }
}

// ---- notes ------------------------------------------------------------

/// The note a draft describes, stamped `created_at`.
pub open spec fn drafted_note(d: NoteDraftModel, created_at: Seq<char>) -> NoteModel {
    NoteModel {
        id: d.id,
        meeting_id: d.meeting_id,
        dialect: d.dialect,
        content_md: d.content_md,
        primary_path: d.primary_path,
        created_at,
    }
}

pub open spec fn spec_create_note(st: RegistryModel, d: NoteDraftModel, created_at: Seq<char>) -> Result<
    (RegistryModel, NoteModel),
    StorageErrorModel,
> {
    if !any_where(st.meetings, meeting_is(d.meeting_id)) {
        Err(not_found(d.meeting_id, "meeting"@))
    } else if any_where(st.notes, note_is(d.id)) {
        Err(StorageErrorModel::AlreadyExists { id: d.id, kind: "note"@ })
    } else {
        let n = drafted_note(d, created_at);
        Ok((RegistryModel { notes: st.notes.push(n), ..st }, n))
    }
}

pub open spec fn spec_notes_for_meeting(st: RegistryModel, meeting_id: Seq<char>) -> Seq<NoteModel> {
    st.notes.filter(note_of(meeting_id))
}

/// The error of a replacement whose draft names another meeting.
pub open spec fn replace_mismatch() -> StorageErrorModel {
    StorageErrorModel::Sql {
        message: "replace_meeting_note: note.meeting_id must match meeting_id"@,
    }
}

pub open spec fn spec_replace_meeting_note(
    st: RegistryModel,
    meeting_id: Seq<char>,
    d: NoteDraftModel,
    created_at: Seq<char>,
) -> Result<(RegistryModel, NoteModel), StorageErrorModel> {
    let kept = st.notes.filter(note_not_of(meeting_id));
    if !any_where(st.meetings, meeting_is(meeting_id)) {
        Err(not_found(meeting_id, "meeting"@))
    } else if d.meeting_id != meeting_id {
        Err(replace_mismatch())
    } else if any_where(kept, note_is(d.id)) {
        Err(StorageErrorModel::AlreadyExists { id: d.id, kind: "note"@ })
    } else {
        let n = drafted_note(d, created_at);
        Ok((RegistryModel { notes: kept.push(n), ..st }, n))
    }
}

/// The error of a combined insert whose note names another meeting.
pub open spec fn combined_mismatch() -> StorageErrorModel {
    StorageErrorModel::Sql {
        message: "create_meeting_with_note: note.meeting_id must match meeting.id"@,
    }
}

pub open spec fn spec_create_meeting_with_note(
    st: RegistryModel,
    md: MeetingDraftModel,
    nd: NoteDraftModel,
    ended_at: Option<Seq<char>>,
    duration_ms: Option<u64>,
    created_at: Seq<char>,
) -> Result<(RegistryModel, (MeetingModel, NoteModel)), StorageErrorModel> {
    match meeting_conflict(st, md) {
        Some(e) => Err(e),
        None => if nd.meeting_id != md.id {
            Err(combined_mismatch())
        } else if any_where(st.notes, note_is(nd.id)) {
            Err(StorageErrorModel::AlreadyExists { id: nd.id, kind: "note"@ })
        } else {
            let m = drafted_meeting(md, ended_at, duration_ms);
            let n = drafted_note(nd, created_at);
            Ok(
                (
                    RegistryModel {
                        meetings: st.meetings.push(unfiled(m)),
                        notes: st.notes.push(n),
                        ..st
                    },
                    (m, n),
                ),
            )
        },
    }
}

// ---- spaces, projects, tags ------------------------------------------

/// `prefix` followed by the counter in decimal.
pub open spec fn minted_id(prefix: Seq<char>, n: u64) -> Seq<char> {
    prefix + decimal(n as nat)
}

pub open spec fn spec_create_space(st: RegistryModel, name: Seq<char>) -> Result<
    (RegistryModel, SpaceModel),
    StorageErrorModel,
> {
    if st.next_id > LAST_ID {
        Err(ids_exhausted())
    } else {
        let s = SpaceModel {
            id: minted_id("space-"@, st.next_id),
            name,
            position: st.next_id as i64,
        };
        Ok(
            (
                RegistryModel {
                    spaces: st.spaces.push(s),
                    next_id: (st.next_id + 1) as u64,
                    ..st
                },
                s,
            ),
        )
    }
}

pub open spec fn spec_rename_space(st: RegistryModel, id: Seq<char>, name: Seq<char>) -> Result<
    (RegistryModel, ()),
    StorageErrorModel,
> {
    match first_where(st.spaces, space_is(id)) {
        Some(i) => Ok(
            (
                RegistryModel {
                    spaces: st.spaces.update(i, SpaceModel { name, ..st.spaces[i] }),
                    ..st
                },
                (),
            ),
        ),
        None => Err(not_found(id, "space"@)),
    }
}

/// A meeting filed under the space `space_id` goes back to the Inbox.
pub open spec fn unfile_space(r: RowModel, space_id: Seq<char>) -> RowModel {
    if r.space_id == Some(space_id) {
        RowModel { space_id: None, project_id: None, ..r }
    } else {
        r
    }
}

/// A meeting filed under the project `project_id` keeps only its space.
pub open spec fn unfile_project(r: RowModel, project_id: Seq<char>) -> RowModel {
    if r.project_id == Some(project_id) {
        RowModel { project_id: None, ..r }
    } else {
        r
    }
}

/// Removes the space and its projects; its meetings go back to the Inbox.
pub open spec fn spec_delete_space(st: RegistryModel, id: Seq<char>) -> Result<
    (RegistryModel, ()),
    StorageErrorModel,
> {
    match first_where(st.spaces, space_is(id)) {
        Some(i) => Ok(
            (
                RegistryModel {
                    spaces: st.spaces.remove(i),
                    projects: st.projects.filter(project_not_in(id)),
                    meetings: st.meetings.map_values(|r: RowModel| unfile_space(r, id)),
                    ..st
                },
                (),
            ),
        ),
        None => Err(not_found(id, "space"@)),
    }
}

pub open spec fn spec_create_project(st: RegistryModel, space_id: Seq<char>, name: Seq<char>) -> Result<
    (RegistryModel, ProjectModel),
    StorageErrorModel,
> {
    if !any_where(st.spaces, space_is(space_id)) {
        Err(not_found(space_id, "space"@))
    } else if st.next_id > LAST_ID {
        Err(ids_exhausted())
    } else {
        let p = ProjectModel {
            id: minted_id("project-"@, st.next_id),
            space_id,
            name,
            position: st.next_id as i64,
        };
        Ok(
            (
                RegistryModel {
                    projects: st.projects.push(p),
                    next_id: (st.next_id + 1) as u64,
                    ..st
                },
                p,
            ),
        )
    }
}

pub open spec fn spec_list_projects(st: RegistryModel, space_id: Option<Seq<char>>) -> Seq<
    ProjectModel,
> {
    match space_id {
        Some(s) => st.projects.filter(project_in(s)),
        None => st.projects,
    }
}

pub open spec fn spec_rename_project(st: RegistryModel, id: Seq<char>, name: Seq<char>) -> Result<
    (RegistryModel, ()),
    StorageErrorModel,
> {
    match first_where(st.projects, project_is(id)) {
        Some(i) => Ok(
            (
                RegistryModel {
                    projects: st.projects.update(i, ProjectModel { name, ..st.projects[i] }),
                    ..st
                },
                (),
            ),
        ),
        None => Err(not_found(id, "project"@)),
    }
}

/// Removes the project; its meetings stay in the project's space.
pub open spec fn spec_delete_project(st: RegistryModel, id: Seq<char>) -> Result<
    (RegistryModel, ()),
    StorageErrorModel,
> {
    match first_where(st.projects, project_is(id)) {
        Some(i) => Ok(
            (
                RegistryModel {
                    projects: st.projects.remove(i),
                    meetings: st.meetings.map_values(|r: RowModel| unfile_project(r, id)),
                    ..st
                },
                (),
            ),
        ),
        None => Err(not_found(id, "project"@)),
    }
}

/// A tag's name is unique: creating an existing name returns that tag.
pub open spec fn spec_create_tag(st: RegistryModel, name: Seq<char>) -> Result<
    (RegistryModel, TagModel),
    StorageErrorModel,
> {
    match first_where(st.tags, tag_named(name)) {
        Some(i) => Ok((st, st.tags[i])),
        None => if st.next_id > LAST_ID {
            Err(ids_exhausted())
        } else {
            let t = TagModel { id: minted_id("tag-"@, st.next_id), name };
            Ok(
                (
                    RegistryModel {
                        tags: st.tags.push(t),
                        next_id: (st.next_id + 1) as u64,
                        ..st
                    },
                    t,
                ),
            )
        },
    }
}

/// Removes the tag from the registry and from every meeting.
pub open spec fn spec_delete_tag(st: RegistryModel, id: Seq<char>) -> Result<
    (RegistryModel, ()),
    StorageErrorModel,
> {
    match first_where(st.tags, tag_is(id)) {
        Some(i) => Ok(
            (
                RegistryModel {
                    tags: st.tags.remove(i),
                    links: st.links.filter(link_not_to(id)),
                    ..st
                },
                (),
            ),
        ),
        None => Err(not_found(id, "tag"@)),
    }
}

/// Tagging twice is the same as tagging once.
pub open spec fn spec_tag_meeting(st: RegistryModel, meeting_id: Seq<char>, tag_id: Seq<char>) -> Result<
    (RegistryModel, ()),
    StorageErrorModel,
> {
    if !any_where(st.meetings, meeting_is(meeting_id)) {
        Err(not_found(meeting_id, "meeting"@))
    } else if !any_where(st.tags, tag_is(tag_id)) {
        Err(not_found(tag_id, "tag"@))
    } else if any_where(st.links, link_is(meeting_id, tag_id)) {
        Ok((st, ()))
    } else {
        Ok(
            (
                RegistryModel {
                    links: st.links.push(LinkModel { meeting_id, tag_id }),
                    ..st
                },
                (),
            ),
        )
    }
}

pub open spec fn spec_untag_meeting(st: RegistryModel, meeting_id: Seq<char>, tag_id: Seq<char>) -> Result<
    (RegistryModel, ()),
    StorageErrorModel,
> {
    if !any_where(st.meetings, meeting_is(meeting_id)) {
        Err(not_found(meeting_id, "meeting"@))
    } else {
        Ok(
            (
                RegistryModel { links: st.links.filter(link_is_not(meeting_id, tag_id)), ..st },
                (),
            ),
        )
    }
}

/// The link's tag exists.
pub open spec fn link_resolves(tags: Seq<TagModel>) -> spec_fn(LinkModel) -> bool {
    |l: LinkModel| any_where(tags, tag_is(l.tag_id))
}

/// The tag a link names.
pub open spec fn linked_tag(tags: Seq<TagModel>, l: LinkModel) -> TagModel {
    tags[first_where(tags, tag_is(l.tag_id))->0]
}

/// The tags on a meeting, in the order they were put on it.
pub open spec fn spec_tags_for_meeting(st: RegistryModel, meeting_id: Seq<char>) -> Seq<TagModel> {
    st.links.filter(link_of(meeting_id)).filter(link_resolves(st.tags)).map_values(
        |l: LinkModel| linked_tag(st.tags, l),
    )
}

/// Files a meeting: under a project (and so that project's space), under a
/// space alone, or in the Inbox when neither is given.
pub open spec fn spec_assign_meeting(
    st: RegistryModel,
    meeting_id: Seq<char>,
    space_id: Option<Seq<char>>,
    project_id: Option<Seq<char>>,
) -> Result<(RegistryModel, ()), StorageErrorModel> {
    match first_where(st.meetings, meeting_is(meeting_id)) {
        None => Err(not_found(meeting_id, "meeting"@)),
        Some(i) => {
            let filed = match project_id {
                Some(p) => match first_where(st.projects, project_is(p)) {
                    Some(j) => Ok((Some(st.projects[j].space_id), Some(p))),
                    None => Err(not_found(p, "project"@)),
                },
                None => match space_id {
                    Some(s) => if any_where(st.spaces, space_is(s)) {
                        Ok((Some(s), None))
                    } else {
                        Err(not_found(s, "space"@))
                    },
                    None => Ok((None, None)),
                },
            };
            match filed {
                Ok((s, p)) => Ok(
                    (
                        RegistryModel {
                            meetings: st.meetings.update(
                                i,
                                RowModel { space_id: s, project_id: p, ..st.meetings[i] },
                            ),
                            ..st
                        },
                        (),
                    ),
                ),
                Err(e) => Err(e),
            }
        },
    }
}

// ---- listings ---------------------------------------------------------

/// The listing row of a meeting.
pub open spec fn summary_of(st: RegistryModel, r: RowModel) -> SummaryModel {
    SummaryModel {
        id: r.meeting.id,
        title: r.meeting.title,
        started_at: r.meeting.started_at,
        ended_at: r.meeting.ended_at,
        duration_ms: match r.meeting.duration_ms {
            Some(d) => d,
            None => 0,
        },
        language: r.meeting.language,
        has_notes: any_where(st.notes, note_of(r.meeting.id)),
        space_id: r.space_id,
        project_id: r.project_id,
        tags: st.links.filter(link_of(r.meeting.id)).map_values(|l: LinkModel| l.tag_id),
    }
}

/// Inserts `x` after every row that did not start earlier than it.
pub open spec fn insert_desc(s: Seq<SummaryModel>, x: SummaryModel) -> Seq<SummaryModel>
    decreases s.len(),
{
    if s.len() == 0 || !text_less(s.last().started_at, x.started_at) {
        s.push(x)
    } else {
        insert_desc(s.drop_last(), x).push(s.last())
    }
}

/// Stable sort, latest `started_at` first.
pub open spec fn sort_desc(s: Seq<SummaryModel>) -> Seq<SummaryModel>
    decreases s.len(),
{
    if s.len() == 0 {
        s
    } else {
        insert_desc(sort_desc(s.drop_last()), s.last())
    }
}

pub open spec fn spec_list_meetings(st: RegistryModel) -> Seq<SummaryModel> {
    sort_desc(st.meetings.map_values(|r: RowModel| summary_of(st, r)))
}

/// A listing row passes every restriction the filter sets.
pub open spec fn passes(f: FilterModel, s: SummaryModel) -> bool {
    &&& (f.space_id is Some ==> s.space_id == f.space_id)
    &&& (f.project_id is Some ==> s.project_id == f.project_id)
    &&& (f.tag_id is Some ==> s.tags.contains(f.tag_id->0))
    &&& (f.unsorted ==> s.space_id is None)
}

pub open spec fn spec_list_meetings_filtered(st: RegistryModel, f: FilterModel) -> Seq<SummaryModel> {
    spec_list_meetings(st).filter(|s: SummaryModel| passes(f, s))
}

// ---- agreement of a call with its specification ----------------------

/// The error model of a call's result.
pub open spec fn result_view<T: View>(r: Result<T, StorageError>) -> Result<T::V, StorageErrorModel> {
    match r {
        Ok(v) => Ok(v@),
        Err(e) => Err(e@),
    }
}

pub open spec fn unit_view(r: Result<(), StorageError>) -> Result<(), StorageErrorModel> {
    match r {
        Ok(_) => Ok(()),
        Err(e) => Err(e@),
    }
}

/// A call that went from `old` to `new` and returned `got` did what `want`
/// says: on success the new state and the value, on failure the error
/// with the state untouched.
pub open spec fn agrees<V>(
    old: RegistryModel,
    new: RegistryModel,
    got: Result<V, StorageErrorModel>,
    want: Result<(RegistryModel, V), StorageErrorModel>,
) -> bool {
    match want {
        Ok((s, v)) => new == s && got == Ok::<V, StorageErrorModel>(v),
        Err(e) => new == old && got == Err::<V, StorageErrorModel>(e),
    }
}

} // verus!

verus! {

/// A stored meeting and where it is filed.
struct MeetingRow {
    meeting: Meeting,
    space_id: Option<String>,
    project_id: Option<String>,
}

impl View for MeetingRow {
    type V = RowModel;

    closed spec fn view(&self) -> RowModel {
        RowModel {
            meeting: self.meeting@,
            space_id: crate::storage::opt_view(self.space_id),
            project_id: crate::storage::opt_view(self.project_id),
        }
    }
}

/// A tag put on a meeting.
struct TagLink {
    meeting_id: String,
    tag_id: String,
}

impl View for TagLink {
    type V = LinkModel;

    closed spec fn view(&self) -> LinkModel {
        LinkModel { meeting_id: self.meeting_id@, tag_id: self.tag_id@ }
    }
}

/// An in-process `Storage`: plain vectors in insertion order, for tests
/// and callers that need no database.
pub struct InMemoryStorage {
    meetings: Vec<MeetingRow>,
    notes: Vec<Note>,
    spaces: Vec<Space>,
    projects: Vec<Project>,
    tags: Vec<Tag>,
    links: Vec<TagLink>,
    next_id: u64,
}

impl View for InMemoryStorage {
    type V = RegistryModel;

    closed spec fn view(&self) -> RegistryModel {
        RegistryModel {
            meetings: self.meetings@.map_values(|r: MeetingRow| r@),
            notes: self.notes@.map_values(|n: Note| n@),
            spaces: self.spaces@.map_values(|s: Space| s@),
            projects: self.projects@.map_values(|p: Project| p@),
            tags: self.tags@.map_values(|t: Tag| t@),
            links: self.links@.map_values(|l: TagLink| l@),
            next_id: self.next_id,
        }
    }
}

/// Where the first note with id `id` is in `notes`.
fn note_pos(notes: &Vec<Note>, id: &String) -> (r: Option<usize>)
    ensures
        found_at(r, notes@.map_values(|n: Note| n@), note_is(id@)),
{
    let ghost s = notes@.map_values(|n: Note| n@);
    let mut i: usize = 0;
    while i < notes.len()
        invariant
            i <= notes.len(),
            s == notes@.map_values(|n: Note| n@),
            forall|j: int| 0 <= j < i ==> !note_is(id@)(#[trigger] s[j]),
        decreases notes.len() - i,
    {
        if notes[i].id == *id {
            proof {
                lemma_first_where(s, note_is(id@), i as int);
            }
            return Some(i);
        }
        i = i + 1;
    }
    proof {
        lemma_first_where_none(s, note_is(id@));
    }
    None
}

impl InMemoryStorage {
    /// An empty registry.
    pub fn new() -> (r: Self)
        ensures
            r@ == empty_registry(),
    {
        let r = InMemoryStorage {
            meetings: Vec::new(),
            notes: Vec::new(),
            spaces: Vec::new(),
            projects: Vec::new(),
            tags: Vec::new(),
            links: Vec::new(),
            next_id: 1,
        };
        assert(r@.meetings =~= Seq::<RowModel>::empty());
        assert(r@.notes =~= Seq::<NoteModel>::empty());
        assert(r@.spaces =~= Seq::<SpaceModel>::empty());
        assert(r@.projects =~= Seq::<ProjectModel>::empty());
        assert(r@.tags =~= Seq::<TagModel>::empty());
        assert(r@.links =~= Seq::<LinkModel>::empty());
        r
    }

    /// Where the first meeting with id `id` is.
    fn meeting_pos(&self, id: &String) -> (r: Option<usize>)
        ensures
            found_at(r, self@.meetings, meeting_is(id@)),
    {
        let ghost s = self@.meetings;
        let mut i: usize = 0;
        while i < self.meetings.len()
            invariant
                i <= self.meetings.len(),
                s == self@.meetings,
                forall|j: int| 0 <= j < i ==> !meeting_is(id@)(#[trigger] s[j]),
            decreases self.meetings.len() - i,
        {
            if self.meetings[i].meeting.id == *id {
                proof {
                    lemma_first_where(s, meeting_is(id@), i as int);
                }
                return Some(i);
            }
            i = i + 1;
        }
        proof {
            lemma_first_where_none(s, meeting_is(id@));
        }
        None
    }

    /// Whether some meeting already uses the directory `dir`.
    fn dir_taken(&self, dir: &String) -> (r: bool)
        ensures
            r == any_where(self@.meetings, dir_is(dir@)),
    {
        let ghost s = self@.meetings;
        let mut i: usize = 0;
        while i < self.meetings.len()
            invariant
                i <= self.meetings.len(),
                s == self@.meetings,
                forall|j: int| 0 <= j < i ==> !dir_is(dir@)(#[trigger] s[j]),
            decreases self.meetings.len() - i,
        {
            if self.meetings[i].meeting.dir_path == *dir {
                assert(dir_is(dir@)(s[i as int]));
                return true;
            }
            i = i + 1;
        }
        false
    }

    /// The error that keeps the draft from being registered, if any.
    fn meeting_conflict(&self, d: &MeetingDraft) -> (r: Option<StorageError>)
        ensures
            match meeting_conflict(self@, d@) {
                Some(e) => r is Some && r->0@ == e,
                None => r is None,
            },
    {
        if self.meeting_pos(&d.id).is_some() {
            return Some(StorageError::AlreadyExists { id: d.id.clone(), kind: "meeting" });
        }
        if self.dir_taken(&d.dir_path) {
            return Some(
                StorageError::UniqueConflict {
                    kind: "meeting",
                    field: "dir_path",
                    value: d.dir_path.clone(),
                },
            );
        }
        None
    }
}


/// Only the notes of the registry differ between `a` and `b`.
pub open spec fn same_but_notes(a: RegistryModel, b: RegistryModel) -> bool {
    a == RegistryModel { notes: a.notes, ..b }
}

/// Only the tag links differ between `a` and `b`.
pub open spec fn same_but_links(a: RegistryModel, b: RegistryModel) -> bool {
    a == RegistryModel { links: a.links, ..b }
}

/// Only the projects differ between `a` and `b`.
pub open spec fn same_but_projects(a: RegistryModel, b: RegistryModel) -> bool {
    a == RegistryModel { projects: a.projects, ..b }
}

/// Only the meeting rows differ between `a` and `b`.
pub open spec fn same_but_meetings(a: RegistryModel, b: RegistryModel) -> bool {
    a == RegistryModel { meetings: a.meetings, ..b }
}

impl InMemoryStorage {
    /// Removes the notes of `meeting_id`.
    fn drop_meetings_of(&mut self, id: &String)
        ensures
            final(self)@ == (RegistryModel {
                meetings: old(self)@.meetings.filter(meeting_not(id@)),
                ..old(self)@
            }),
    {
        let mut taken: Vec<MeetingRow> = Vec::new();
        std::mem::swap(&mut taken, &mut self.meetings);
        let ghost input = taken@;
        let ghost p = meeting_not(id@);
        assert(input.map_values(|r: MeetingRow| r@) == old(self)@.meetings);
        for row in it: taken.into_iter()
            invariant
                it.seq() == input,
                self@.meetings == input.take(it.index() as int).map_values(|r: MeetingRow| r@).filter(p),
                same_but_meetings(self@, old(self)@),
                p == meeting_not(id@),
        {
            let ghost k = it.index() as int;
            let ghost before = self@.meetings;
            assert(input.take(k + 1) =~= input.take(k).push(row));
            assert(input.take(k + 1).map_values(|r: MeetingRow| r@) =~= input.take(k).map_values(
                |r: MeetingRow| r@,
            ).push(row@));
            proof {
                input.take(k).map_values(|r: MeetingRow| r@).lemma_filter_push(row@, p);
            }
            if !(row.meeting.id == *id) {
                self.meetings.push(row);
                assert(self@.meetings =~= before.push(self@.meetings.last()));
            } else {
                assert(self@.meetings =~= before);
            }
        }
        assert(input.take(input.len() as int) =~= input);
    }

    fn drop_notes_of(&mut self, meeting_id: &String)
        ensures
            final(self)@ == (RegistryModel {
                notes: old(self)@.notes.filter(note_not_of(meeting_id@)),
                ..old(self)@
            }),
    {
        let mut taken: Vec<Note> = Vec::new();
        std::mem::swap(&mut taken, &mut self.notes);
        let ghost input = taken@;
        let ghost p = note_not_of(meeting_id@);
        assert(input.map_values(|n: Note| n@) == old(self)@.notes);
        for n in it: taken.into_iter()
            invariant
                it.seq() == input,
                self@.notes == input.take(it.index() as int).map_values(|n: Note| n@).filter(p),
                same_but_notes(self@, old(self)@),
                p == note_not_of(meeting_id@),
        {
            let ghost k = it.index() as int;
            let ghost before = self@.notes;
            assert(input.take(k + 1) =~= input.take(k).push(n));
            assert(input.take(k + 1).map_values(|n: Note| n@) =~= input.take(k).map_values(
                |n: Note| n@,
            ).push(n@));
            proof {
                input.take(k).map_values(|n: Note| n@).lemma_filter_push(n@, p);
            }
            if !(n.meeting_id == *meeting_id) {
                self.notes.push(n);
                assert(self@.notes =~= before.push(n@));
            } else {
                assert(self@.notes =~= before);
            }
        }
        assert(input.take(input.len() as int) =~= input);
    }
}


impl InMemoryStorage {
    /// Removes the tags put on the meeting `key`.
    fn drop_links_of(&mut self, key: &String)
        ensures
            final(self)@ == (RegistryModel {
                links: old(self)@.links.filter(link_not_of(key@)),
                ..old(self)@
            }),
    {
        let mut taken: Vec<TagLink> = Vec::new();
        std::mem::swap(&mut taken, &mut self.links);
        let ghost input = taken@;
        let ghost p = link_not_of(key@);
        assert(input.map_values(|x: TagLink| x@) == old(self)@.links);
        for x in it: taken.into_iter()
            invariant
                it.seq() == input,
                self@.links == input.take(it.index() as int).map_values(|x: TagLink| x@).filter(p),
                same_but_links(self@, old(self)@),
                p == link_not_of(key@),
        {
            let ghost k = it.index() as int;
            let ghost before = self@.links;
            assert(input.take(k + 1) =~= input.take(k).push(x));
            assert(input.take(k + 1).map_values(|x: TagLink| x@) =~= input.take(k).map_values(
                |x: TagLink| x@,
            ).push(x@));
            proof {
                input.take(k).map_values(|x: TagLink| x@).lemma_filter_push(x@, p);
            }
            if !(x.meeting_id == *key) {
                self.links.push(x);
                assert(self@.links =~= before.push(x@));
            } else {
                assert(self@.links =~= before);
            }
        }
        assert(input.take(input.len() as int) =~= input);
    }

    /// Removes the tag `key` from every meeting.
    fn drop_links_to(&mut self, key: &String)
        ensures
            final(self)@ == (RegistryModel {
                links: old(self)@.links.filter(link_not_to(key@)),
                ..old(self)@
            }),
    {
        let mut taken: Vec<TagLink> = Vec::new();
        std::mem::swap(&mut taken, &mut self.links);
        let ghost input = taken@;
        let ghost p = link_not_to(key@);
        assert(input.map_values(|x: TagLink| x@) == old(self)@.links);
        for x in it: taken.into_iter()
            invariant
                it.seq() == input,
                self@.links == input.take(it.index() as int).map_values(|x: TagLink| x@).filter(p),
                same_but_links(self@, old(self)@),
                p == link_not_to(key@),
        {
            let ghost k = it.index() as int;
            let ghost before = self@.links;
            assert(input.take(k + 1) =~= input.take(k).push(x));
            assert(input.take(k + 1).map_values(|x: TagLink| x@) =~= input.take(k).map_values(
                |x: TagLink| x@,
            ).push(x@));
            proof {
                input.take(k).map_values(|x: TagLink| x@).lemma_filter_push(x@, p);
            }
            if !(x.tag_id == *key) {
                self.links.push(x);
                assert(self@.links =~= before.push(x@));
            } else {
                assert(self@.links =~= before);
            }
        }
        assert(input.take(input.len() as int) =~= input);
    }

    /// Removes the projects of the space `key`.
    fn drop_projects_in(&mut self, key: &String)
        ensures
            final(self)@ == (RegistryModel {
                projects: old(self)@.projects.filter(project_not_in(key@)),
                ..old(self)@
            }),
    {
        let mut taken: Vec<Project> = Vec::new();
        std::mem::swap(&mut taken, &mut self.projects);
        let ghost input = taken@;
        let ghost p = project_not_in(key@);
        assert(input.map_values(|x: Project| x@) == old(self)@.projects);
        for x in it: taken.into_iter()
            invariant
                it.seq() == input,
                self@.projects == input.take(it.index() as int).map_values(|x: Project| x@).filter(p),
                same_but_projects(self@, old(self)@),
                p == project_not_in(key@),
        {
            let ghost k = it.index() as int;
            let ghost before = self@.projects;
            assert(input.take(k + 1) =~= input.take(k).push(x));
            assert(input.take(k + 1).map_values(|x: Project| x@) =~= input.take(k).map_values(
                |x: Project| x@,
            ).push(x@));
            proof {
                input.take(k).map_values(|x: Project| x@).lemma_filter_push(x@, p);
            }
            if !(x.space_id == *key) {
                self.projects.push(x);
                assert(self@.projects =~= before.push(x@));
            } else {
                assert(self@.projects =~= before);
            }
        }
        assert(input.take(input.len() as int) =~= input);
    }

    /// Where the first space with id `key` is.
    fn space_pos(&self, key: &String) -> (r: Option<usize>)
        ensures
            found_at(r, self@.spaces, space_is(key@)),
    {
        let ghost s = self@.spaces;
        let mut i: usize = 0;
        while i < self.spaces.len()
            invariant
                i <= self.spaces.len(),
                s == self@.spaces,
                forall|j: int| 0 <= j < i ==> !space_is(key@)(#[trigger] s[j]),
            decreases self.spaces.len() - i,
        {
            if self.spaces[i].id == *key {
                proof {
                    lemma_first_where(s, space_is(key@), i as int);
                }
                return Some(i);
            }
            i = i + 1;
        }
        proof {
            lemma_first_where_none(s, space_is(key@));
        }
        None
    }

    /// Where the first project with id `key` is.
    fn project_pos(&self, key: &String) -> (r: Option<usize>)
        ensures
            found_at(r, self@.projects, project_is(key@)),
    {
        let ghost s = self@.projects;
        let mut i: usize = 0;
        while i < self.projects.len()
            invariant
                i <= self.projects.len(),
                s == self@.projects,
                forall|j: int| 0 <= j < i ==> !project_is(key@)(#[trigger] s[j]),
            decreases self.projects.len() - i,
        {
            if self.projects[i].id == *key {
                proof {
                    lemma_first_where(s, project_is(key@), i as int);
                }
                return Some(i);
            }
            i = i + 1;
        }
        proof {
            lemma_first_where_none(s, project_is(key@));
        }
        None
    }

    /// Where the first tag with id `key` is.
    fn tag_pos(&self, key: &String) -> (r: Option<usize>)
        ensures
            found_at(r, self@.tags, tag_is(key@)),
    {
        let ghost s = self@.tags;
        let mut i: usize = 0;
        while i < self.tags.len()
            invariant
                i <= self.tags.len(),
                s == self@.tags,
                forall|j: int| 0 <= j < i ==> !tag_is(key@)(#[trigger] s[j]),
            decreases self.tags.len() - i,
        {
            if self.tags[i].id == *key {
                proof {
                    lemma_first_where(s, tag_is(key@), i as int);
                }
                return Some(i);
            }
            i = i + 1;
        }
        proof {
            lemma_first_where_none(s, tag_is(key@));
        }
        None
    }

    /// Where the first tag named `key` is.
    fn tag_named_pos(&self, key: &String) -> (r: Option<usize>)
        ensures
            found_at(r, self@.tags, tag_named(key@)),
    {
        let ghost s = self@.tags;
        let mut i: usize = 0;
        while i < self.tags.len()
            invariant
                i <= self.tags.len(),
                s == self@.tags,
                forall|j: int| 0 <= j < i ==> !tag_named(key@)(#[trigger] s[j]),
            decreases self.tags.len() - i,
        {
            if self.tags[i].name == *key {
                proof {
                    lemma_first_where(s, tag_named(key@), i as int);
                }
                return Some(i);
            }
            i = i + 1;
        }
        proof {
            lemma_first_where_none(s, tag_named(key@));
        }
        None
    }

    /// Whether the tag `tag_id` is on the meeting `meeting_id`.
    fn is_linked(&self, meeting_id: &String, tag_id: &String) -> (r: bool)
        ensures
            r == any_where(self@.links, link_is(meeting_id@, tag_id@)),
    {
        let ghost s = self@.links;
        let mut i: usize = 0;
        while i < self.links.len()
            invariant
                i <= self.links.len(),
                s == self@.links,
                forall|j: int|
                    0 <= j < i ==> !link_is(meeting_id@, tag_id@)(#[trigger] s[j]),
            decreases self.links.len() - i,
        {
            if self.links[i].meeting_id == *meeting_id && self.links[i].tag_id == *tag_id {
                assert(link_is(meeting_id@, tag_id@)(s[i as int]));
                return true;
            }
            i = i + 1;
        }
        false
    }

    /// Removes the tag `tag_id` from the meeting `meeting_id`.
    fn drop_link(&mut self, meeting_id: &String, tag_id: &String)
        ensures
            final(self)@ == (RegistryModel {
                links: old(self)@.links.filter(link_is_not(meeting_id@, tag_id@)),
                ..old(self)@
            }),
    {
        let mut taken: Vec<TagLink> = Vec::new();
        std::mem::swap(&mut taken, &mut self.links);
        let ghost input = taken@;
        let ghost p = link_is_not(meeting_id@, tag_id@);
        assert(input.map_values(|x: TagLink| x@) == old(self)@.links);
        for x in it: taken.into_iter()
            invariant
                it.seq() == input,
                self@.links == input.take(it.index() as int).map_values(|x: TagLink| x@).filter(p),
                same_but_links(self@, old(self)@),
                p == link_is_not(meeting_id@, tag_id@),
        {
            let ghost k = it.index() as int;
            let ghost before = self@.links;
            assert(input.take(k + 1) =~= input.take(k).push(x));
            assert(input.take(k + 1).map_values(|x: TagLink| x@) =~= input.take(k).map_values(
                |x: TagLink| x@,
            ).push(x@));
            proof {
                input.take(k).map_values(|x: TagLink| x@).lemma_filter_push(x@, p);
            }
            if !(x.meeting_id == *meeting_id && x.tag_id == *tag_id) {
                self.links.push(x);
                assert(self@.links =~= before.push(x@));
            } else {
                assert(self@.links =~= before);
            }
        }
        assert(input.take(input.len() as int) =~= input);
    }

    /// Sends the meetings filed under the space `key` back to the Inbox.
    fn unfile_space_rows(&mut self, key: &String)
        ensures
            final(self)@ == (RegistryModel {
                meetings: old(self)@.meetings.map_values(|r: RowModel| unfile_space(r, key@)),
                ..old(self)@
            }),
    {
        let mut taken: Vec<MeetingRow> = Vec::new();
        std::mem::swap(&mut taken, &mut self.meetings);
        let ghost input = taken@;
        assert(input.map_values(|x: MeetingRow| x@) == old(self)@.meetings);
        for x in it: taken.into_iter()
            invariant
                it.seq() == input,
                self@.meetings == input.take(it.index() as int).map_values(
                    |x: MeetingRow| unfile_space(x@, key@),
                ),
                same_but_meetings(self@, old(self)@),
        {
            let ghost k = it.index() as int;
            let mut row = x;
            let hit = match &row.space_id {
                Some(s) => *s == *key,
                None => false,
            };
            if hit {
                row.space_id = None;
                row.project_id = None;
            }
            assert(row@ == unfile_space(x@, key@));
            let ghost before = self@.meetings;
            self.meetings.push(row);
            assert(self@.meetings =~= before.push(row@));
            assert(input.take(k + 1) =~= input.take(k).push(x));
            assert(self@.meetings =~= input.take(k + 1).map_values(
                |x: MeetingRow| unfile_space(x@, key@),
            ));
        }
        assert(input.take(input.len() as int) =~= input);
        assert(self@.meetings =~= old(self)@.meetings.map_values(
            |r: RowModel| unfile_space(r, key@),
        ));
    }

    /// Takes the meetings filed under the project `key` out of it.
    fn unfile_project_rows(&mut self, key: &String)
        ensures
            final(self)@ == (RegistryModel {
                meetings: old(self)@.meetings.map_values(|r: RowModel| unfile_project(r, key@)),
                ..old(self)@
            }),
    {
        let mut taken: Vec<MeetingRow> = Vec::new();
        std::mem::swap(&mut taken, &mut self.meetings);
        let ghost input = taken@;
        assert(input.map_values(|x: MeetingRow| x@) == old(self)@.meetings);
        for x in it: taken.into_iter()
            invariant
                it.seq() == input,
                self@.meetings == input.take(it.index() as int).map_values(
                    |x: MeetingRow| unfile_project(x@, key@),
                ),
                same_but_meetings(self@, old(self)@),
        {
            let ghost k = it.index() as int;
            let mut row = x;
            let hit = match &row.project_id {
                Some(p) => *p == *key,
                None => false,
            };
            if hit {
                row.project_id = None;
            }
            assert(row@ == unfile_project(x@, key@));
            let ghost before = self@.meetings;
            self.meetings.push(row);
            assert(self@.meetings =~= before.push(row@));
            assert(input.take(k + 1) =~= input.take(k).push(x));
            assert(self@.meetings =~= input.take(k + 1).map_values(
                |x: MeetingRow| unfile_project(x@, key@),
            ));
        }
        assert(input.take(input.len() as int) =~= input);
        assert(self@.meetings =~= old(self)@.meetings.map_values(
            |r: RowModel| unfile_project(r, key@),
        ));
    }
}


/// The contents of a listing.
pub open spec fn summaries_view(v: Seq<MeetingSummary>) -> Seq<SummaryModel> {
    v.map_values(|s: MeetingSummary| s@)
}

proof fn lemma_insert_desc_at(s: Seq<SummaryModel>, x: SummaryModel, p: int)
    requires
        0 <= p <= s.len(),
        p == 0 || !text_less(s[p - 1].started_at, x.started_at),
        forall|k: int| p <= k < s.len() ==> text_less(#[trigger] s[k].started_at, x.started_at),
    ensures
        insert_desc(s, x) == s.subrange(0, p).push(x) + s.subrange(p, s.len() as int),
    decreases s.len() - p,
{
    if p == s.len() {
        assert(s.subrange(0, p) == s);
        assert(s.subrange(p, s.len() as int) =~= Seq::<SummaryModel>::empty());
        assert(s.push(x) =~= s.subrange(0, p).push(x) + s.subrange(p, s.len() as int));
    } else {
        let d = s.drop_last();
        assert(text_less(s[s.len() - 1].started_at, x.started_at));
        assert forall|k: int| p <= k < d.len() implies text_less(
            #[trigger] d[k].started_at,
            x.started_at,
        ) by {
            assert(d[k] == s[k]);
        }
        if p > 0 {
            assert(d[p - 1] == s[p - 1]);
        }
        lemma_insert_desc_at(d, x, p);
        assert(d.subrange(0, p) == s.subrange(0, p));
        assert(s.subrange(0, p).push(x) + s.subrange(p, s.len() as int) =~= (d.subrange(0, p).push(
            x,
        ) + d.subrange(p, d.len() as int)).push(s.last()));
    }
}

/// Inserts `x` into a listing kept latest-first, after the rows that did not
/// start earlier.
fn insert_summary_desc(out: &mut Vec<MeetingSummary>, x: MeetingSummary)
    ensures
        summaries_view(final(out)@) == insert_desc(summaries_view(old(out)@), x@),
{
    let ghost s = summaries_view(out@);
    let mut p: usize = out.len();
    while p > 0 && crate::text::text_lt(out[p - 1].started_at.as_str(), x.started_at.as_str())
        invariant
            0 <= p <= out.len(),
            s == summaries_view(out@),
            forall|k: int|
                p <= k < s.len() ==> text_less(#[trigger] s[k].started_at, x@.started_at),
        decreases p,
    {
        p = p - 1;
    }
    proof {
        lemma_insert_desc_at(s, x@, p as int);
    }
    out.insert(p, x);
    assert(summaries_view(out@) =~= s.subrange(0, p as int).push(x@) + s.subrange(
        p as int,
        s.len() as int,
    ));
}

impl InMemoryStorage {
    /// Whether the meeting `meeting_id` has a note.
    fn has_notes(&self, meeting_id: &String) -> (r: bool)
        ensures
            r == any_where(self@.notes, note_of(meeting_id@)),
    {
        let ghost s = self@.notes;
        let mut i: usize = 0;
        while i < self.notes.len()
            invariant
                i <= self.notes.len(),
                s == self@.notes,
                forall|j: int| 0 <= j < i ==> !note_of(meeting_id@)(#[trigger] s[j]),
            decreases self.notes.len() - i,
        {
            if self.notes[i].meeting_id == *meeting_id {
                assert(note_of(meeting_id@)(s[i as int]));
                return true;
            }
            i = i + 1;
        }
        false
    }

    /// The ids of the tags on the meeting, in the order they were put on it.
    fn tag_ids_of(&self, meeting_id: &String) -> (r: Vec<String>)
        ensures
            r@.map_values(|t: String| t@) == self@.links.filter(link_of(meeting_id@)).map_values(
                |l: LinkModel| l.tag_id,
            ),
    {
        let ghost s = self@.links;
        let ghost p = link_of(meeting_id@);
        let mut out: Vec<String> = Vec::new();
        let mut i: usize = 0;
        while i < self.links.len()
            invariant
                i <= self.links.len(),
                s == self@.links,
                p == link_of(meeting_id@),
                out@.map_values(|t: String| t@) == s.take(i as int).filter(p).map_values(
                    |l: LinkModel| l.tag_id,
                ),
            decreases self.links.len() - i,
        {
            let ghost before = out@.map_values(|t: String| t@);
            assert(s.take(i + 1) =~= s.take(i as int).push(s[i as int]));
            proof {
                s.take(i as int).lemma_filter_push(s[i as int], p);
            }
            if self.links[i].meeting_id == *meeting_id {
                out.push(self.links[i].tag_id.clone());
                assert(out@.map_values(|t: String| t@) =~= before.push(s[i as int].tag_id));
                assert(s.take(i + 1).filter(p) == s.take(i as int).filter(p).push(s[i as int]));
                assert(s.take(i + 1).filter(p).map_values(|l: LinkModel| l.tag_id) =~= s.take(
                    i as int,
                ).filter(p).map_values(|l: LinkModel| l.tag_id).push(s[i as int].tag_id));
            }
            i = i + 1;
        }
        assert(s.take(s.len() as int) =~= s);
        out
    }

    /// The listing row of the meeting at `i`.
    fn summary_at(&self, i: usize) -> (r: MeetingSummary)
        requires
            i < self@.meetings.len(),
        ensures
            r@ == summary_of(self@, self@.meetings[i as int]),
    {
        let row = &self.meetings[i];
        let m = &row.meeting;
        let tags = self.tag_ids_of(&m.id);
        let r = MeetingSummary {
            id: m.id.clone(),
            title: m.title.clone(),
            started_at: m.started_at.clone(),
            ended_at: copy_opt_string(&m.ended_at),
            duration_ms: match m.duration_ms {
                Some(d) => d,
                None => 0,
            },
            language: m.language.clone(),
            has_notes: self.has_notes(&m.id),
            space_id: copy_opt_string(&row.space_id),
            project_id: copy_opt_string(&row.project_id),
            tags,
        };
        assert(r@.tags =~= summary_of(self@, self@.meetings[i as int]).tags);
        r
    }

    /// Every meeting, latest `started_at` first.
    fn list_all(&self) -> (r: Vec<MeetingSummary>)
        ensures
            summaries_view(r@) == spec_list_meetings(self@),
    {
        let ghost st = self@;
        let ghost unsorted = st.meetings.map_values(|r: RowModel| summary_of(st, r));
        let mut out: Vec<MeetingSummary> = Vec::new();
        let mut i: usize = 0;
        assert(unsorted.take(0) =~= Seq::<SummaryModel>::empty());
        assert(summaries_view(out@) =~= Seq::<SummaryModel>::empty());
        while i < self.meetings.len()
            invariant
                i <= self.meetings.len(),
                st == self@,
                unsorted == st.meetings.map_values(|r: RowModel| summary_of(st, r)),
                summaries_view(out@) == sort_desc(unsorted.take(i as int)),
            decreases self.meetings.len() - i,
        {
            let x = self.summary_at(i);
            assert(unsorted.take(i + 1).drop_last() =~= unsorted.take(i as int));
            assert(unsorted.take(i + 1).last() == x@);
            insert_summary_desc(&mut out, x);
            i = i + 1;
        }
        assert(unsorted.take(unsorted.len() as int) =~= unsorted);
        out
    }
}


/// Whether two optional strings hold the same text.
fn same_opt(a: &Option<String>, b: &Option<String>) -> (r: bool)
    ensures
        r == (crate::storage::opt_view(*a) == crate::storage::opt_view(*b)),
{
    match (a, b) {
        (Some(x), Some(y)) => *x == *y,
        (None, None) => true,
        _ => false,
    }
}

/// Whether `v` holds the text `t`.
fn holds_text(v: &Vec<String>, t: &String) -> (r: bool)
    ensures
        r == v@.map_values(|x: String| x@).contains(t@),
{
    let ghost s = v@.map_values(|x: String| x@);
    let mut i: usize = 0;
    while i < v.len()
        invariant
            i <= v.len(),
            s == v@.map_values(|x: String| x@),
            forall|j: int| 0 <= j < i ==> s[j] != t@,
        decreases v.len() - i,
    {
        if v[i] == *t {
            assert(s[i as int] == t@);
            return true;
        }
        i = i + 1;
    }
    false
}

/// Whether the listing row passes the filter.
fn row_passes(f: &crate::storage::MeetingListFilter, s: &MeetingSummary) -> (r: bool)
    ensures
        r == passes(f@, s@),
{
    if f.space_id.is_some() && !same_opt(&s.space_id, &f.space_id) {
        return false;
    }
    if f.project_id.is_some() && !same_opt(&s.project_id, &f.project_id) {
        return false;
    }
    match &f.tag_id {
        Some(t) => {
            if !holds_text(&s.tags, t) {
                return false;
            }
        },
        None => {},
    }
    if f.unsorted && s.space_id.is_some() {
        return false;
    }
    true
}

impl InMemoryStorage {
    /// Every space, in creation order.
    fn all_spaces(&self) -> (r: Vec<Space>)
        ensures
            r@.map_values(|x: Space| x@) == self@.spaces,
    {
        let mut out: Vec<Space> = Vec::new();
        let mut i: usize = 0;
        while i < self.spaces.len()
            invariant
                i <= self.spaces.len(),
                out@.map_values(|x: Space| x@) == self@.spaces.take(i as int),
            decreases self.spaces.len() - i,
        {
            let ghost before = out@.map_values(|x: Space| x@);
            out.push(self.spaces[i].duplicate());
            assert(out@.map_values(|x: Space| x@) =~= before.push(self@.spaces[i as int]));
            assert(self@.spaces.take(i + 1) =~= self@.spaces.take(i as int).push(self@.spaces[i as int]));
            i = i + 1;
        }
        assert(self@.spaces.take(i as int) =~= self@.spaces);
        out
    }

    /// Every tag, in creation order.
    fn all_tags(&self) -> (r: Vec<Tag>)
        ensures
            r@.map_values(|x: Tag| x@) == self@.tags,
    {
        let mut out: Vec<Tag> = Vec::new();
        let mut i: usize = 0;
        while i < self.tags.len()
            invariant
                i <= self.tags.len(),
                out@.map_values(|x: Tag| x@) == self@.tags.take(i as int),
            decreases self.tags.len() - i,
        {
            let ghost before = out@.map_values(|x: Tag| x@);
            out.push(self.tags[i].duplicate());
            assert(out@.map_values(|x: Tag| x@) =~= before.push(self@.tags[i as int]));
            assert(self@.tags.take(i + 1) =~= self@.tags.take(i as int).push(self@.tags[i as int]));
            i = i + 1;
        }
        assert(self@.tags.take(i as int) =~= self@.tags);
        out
    }

    /// The projects of `space_id`, or all of them.
    fn projects_of(&self, space_id: Option<&String>) -> (r: Vec<Project>)
        ensures
            r@.map_values(|x: Project| x@) == spec_list_projects(
                self@,
                match space_id {
                    Some(k) => Some(k@),
                    None => None,
                },
            ),
    {
        let ghost s = self@.projects;
        let ghost key = match space_id {
            Some(k) => Some(k@),
            None => None::<Seq<char>>,
        };
        let mut out: Vec<Project> = Vec::new();
        let mut i: usize = 0;
        while i < self.projects.len()
            invariant
                i <= self.projects.len(),
                s == self@.projects,
                key == (match space_id {
                    Some(k) => Some(k@),
                    None => None::<Seq<char>>,
                }),
                out@.map_values(|x: Project| x@) == spec_list_projects(
                    RegistryModel { projects: s.take(i as int), ..self@ },
                    key,
                ),
            decreases self.projects.len() - i,
        {
            let ghost before = out@.map_values(|x: Project| x@);
            assert(s.take(i + 1) =~= s.take(i as int).push(s[i as int]));
            let keep = match space_id {
                Some(k) => self.projects[i].space_id == *k,
                None => true,
            };
            match space_id {
                Some(k) => {
                    proof {
                        s.take(i as int).lemma_filter_push(s[i as int], project_in(k@));
                    }
                },
                None => {},
            }
            if keep {
                out.push(self.projects[i].duplicate());
                assert(out@.map_values(|x: Project| x@) =~= before.push(s[i as int]));
            } else {
                assert(out@.map_values(|x: Project| x@) =~= before);
            }
            i = i + 1;
        }
        assert(s.take(s.len() as int) =~= s);
        assert(RegistryModel { projects: s, ..self@ } == self@);
        out
    }

    /// The notes of the meeting, in creation order.
    fn notes_of(&self, meeting_id: &String) -> (r: Vec<Note>)
        ensures
            r@.map_values(|x: Note| x@) == spec_notes_for_meeting(self@, meeting_id@),
    {
        let ghost s = self@.notes;
        let ghost p = note_of(meeting_id@);
        let mut out: Vec<Note> = Vec::new();
        let mut i: usize = 0;
        while i < self.notes.len()
            invariant
                i <= self.notes.len(),
                s == self@.notes,
                p == note_of(meeting_id@),
                out@.map_values(|x: Note| x@) == s.take(i as int).filter(p),
            decreases self.notes.len() - i,
        {
            let ghost before = out@.map_values(|x: Note| x@);
            assert(s.take(i + 1) =~= s.take(i as int).push(s[i as int]));
            proof {
                s.take(i as int).lemma_filter_push(s[i as int], p);
            }
            if self.notes[i].meeting_id == *meeting_id {
                out.push(self.notes[i].duplicate());
                assert(out@.map_values(|x: Note| x@) =~= before.push(s[i as int]));
            } else {
                assert(out@.map_values(|x: Note| x@) =~= before);
            }
            i = i + 1;
        }
        assert(s.take(s.len() as int) =~= s);
        out
    }

    /// The tags on the meeting, in the order they were put on it.
    fn tags_of(&self, meeting_id: &String) -> (r: Vec<Tag>)
        ensures
            r@.map_values(|x: Tag| x@) == spec_tags_for_meeting(self@, meeting_id@),
    {
        let ghost st = self@;
        let ghost s = self@.links;
        let ghost p = link_of(meeting_id@);
        let ghost q = link_resolves(st.tags);
        let mut out: Vec<Tag> = Vec::new();
        let mut i: usize = 0;
        while i < self.links.len()
            invariant
                i <= self.links.len(),
                st == self@,
                s == self@.links,
                p == link_of(meeting_id@),
                q == link_resolves(st.tags),
                out@.map_values(|x: Tag| x@) == s.take(i as int).filter(p).filter(q).map_values(
                    |l: LinkModel| linked_tag(st.tags, l),
                ),
            decreases self.links.len() - i,
        {
            let ghost before = out@.map_values(|x: Tag| x@);
            let ghost l = s[i as int];
            assert(s.take(i + 1) =~= s.take(i as int).push(l));
            proof {
                s.take(i as int).lemma_filter_push(l, p);
                s.take(i as int).filter(p).lemma_filter_push(l, q);
            }
            if self.links[i].meeting_id == *meeting_id {
                match self.tag_pos(&self.links[i].tag_id) {
                    Some(j) => {
                        out.push(self.tags[j].duplicate());
                        assert(out@.map_values(|x: Tag| x@) =~= before.push(
                            linked_tag(st.tags, l),
                        ));
                        assert(s.take(i as int).filter(p).push(l).filter(q).map_values(
                            |l: LinkModel| linked_tag(st.tags, l),
                        ) =~= s.take(i as int).filter(p).filter(q).map_values(
                            |l: LinkModel| linked_tag(st.tags, l),
                        ).push(linked_tag(st.tags, l)));
                    },
                    None => {
                        assert(out@.map_values(|x: Tag| x@) =~= before);
                    },
                }
            } else {
                assert(out@.map_values(|x: Tag| x@) =~= before);
            }
            i = i + 1;
        }
        assert(s.take(s.len() as int) =~= s);
        out
    }

    /// The listing narrowed by `f`.
    fn list_filtered(&self, f: &crate::storage::MeetingListFilter) -> (r: Vec<MeetingSummary>)
        ensures
            summaries_view(r@) == spec_list_meetings_filtered(self@, f@),
    {
        let all = self.list_all();
        let ghost s = summaries_view(all@);
        let ghost p = |x: SummaryModel| passes(f@, x);
        let mut out: Vec<MeetingSummary> = Vec::new();
        for x in it: all.into_iter()
            invariant
                it.seq() == all@,
                s == summaries_view(all@),
                p == (|x: SummaryModel| passes(f@, x)),
                summaries_view(out@) == s.take(it.index() as int).filter(p),
        {
            let ghost k = it.index() as int;
            let ghost before = summaries_view(out@);
            assert(s.take(k + 1) =~= s.take(k).push(x@));
            proof {
                s.take(k).lemma_filter_push(x@, p);
            }
            if row_passes(f, &x) {
                out.push(x);
                assert(summaries_view(out@) =~= before.push(x@));
            } else {
                assert(summaries_view(out@) =~= before);
            }
        }
        assert(s.take(s.len() as int) =~= s);
        out
    }
}


/// The timestamp of a created note, or nothing when the call failed.
pub open spec fn stamp_of(r: Result<Note, StorageError>) -> Seq<char> {
    match r {
        Ok(n) => n.created_at@,
        Err(_) => Seq::empty(),
    }
}

/// The timestamp of the note of a combined insert, or nothing.
pub open spec fn pair_stamp_of(r: Result<(Meeting, Note), StorageError>) -> Seq<char> {
    match r {
        Ok((_, n)) => n.created_at@,
        Err(_) => Seq::empty(),
    }
}

/// The time stamp of a created note, or nothing.
pub open spec fn note_stamp(got: Result<NoteModel, StorageErrorModel>) -> Seq<char> {
    match got {
        Ok(n) => n.created_at,
        Err(_) => Seq::empty(),
    }
}

/// The time stamp of the note of a combined insert, or nothing.
pub open spec fn pair_note_stamp(got: Result<(MeetingModel, NoteModel), StorageErrorModel>) -> Seq<char> {
    match got {
        Ok((_, n)) => n.created_at,
        Err(_) => Seq::empty(),
    }
}

/// An optional string slice's contents.
pub open spec fn opt_str_view(o: Option<&str>) -> Option<Seq<char>> {
    match o {
        Some(s) => Some(s@),
        None => None,
    }
}

impl InMemoryStorage {
    /// Whether a note with id `id` exists among the notes of meetings other
    /// than `meeting_id`.
    fn note_taken_elsewhere(&self, id: &String, meeting_id: &String) -> (r: bool)
        ensures
            r == any_where(self@.notes.filter(note_not_of(meeting_id@)), note_is(id@)),
    {
        let ghost s = self@.notes;
        let ghost p = note_not_of(meeting_id@);
        let mut found = false;
        let mut i: usize = 0;
        while i < self.notes.len()
            invariant
                i <= self.notes.len(),
                s == self@.notes,
                p == note_not_of(meeting_id@),
                found == any_where(s.take(i as int).filter(p), note_is(id@)),
            decreases self.notes.len() - i,
        {
            let ghost x = s[i as int];
            assert(s.take(i + 1) =~= s.take(i as int).push(x));
            proof {
                s.take(i as int).lemma_filter_push(x, p);
                crate::search::lemma_any_where_push(s.take(i as int).filter(p), x, note_is(id@));
            }
            if !(self.notes[i].meeting_id == *meeting_id) && self.notes[i].id == *id {
                found = true;
            }
            i = i + 1;
        }
        assert(s.take(s.len() as int) =~= s);
        found
    }

    /// The next identifier with `prefix`, advancing the counter.
    fn mint_id(&mut self, prefix: &str) -> (r: String)
        requires
            old(self)@.next_id <= LAST_ID,
        ensures
            r@ == minted_id(prefix@, old(self)@.next_id),
            final(self)@ == (RegistryModel { next_id: (old(self)@.next_id + 1) as u64, ..old(self)@ }),
    {
        let mut id = String::new();
        crate::text::push_str(&mut id, prefix);
        crate::text::push_decimal(&mut id, self.next_id);
        self.next_id = self.next_id + 1;
        id
    }
}

impl Storage for InMemoryStorage {
    /// The registry model's step: what the `spec_` function of the call
    /// answers, and the registry it leaves (a note's time stamp is the one
    /// the answer carries).
    open spec fn step(&self, call: RegistryCall, next: Self, answer: RegistryAnswer) -> bool {
        let st = self@;
        match call {
            RegistryCall::CreateMeeting { draft } => answer matches RegistryAnswer::Meeting(got) && agrees(
                st,
                next@,
                got,
                spec_create_meeting(st, draft),
            ),
            RegistryCall::GetMeeting { id } => answer matches RegistryAnswer::Meeting(got) && got == spec_get_meeting(
                st,
                id,
            ) && next == *self,
            RegistryCall::ListMeetings => answer == RegistryAnswer::Summaries(Ok(spec_list_meetings(st)))
                && next == *self,
            RegistryCall::ListFiltered { filter } => answer == RegistryAnswer::Summaries(
                Ok(spec_list_meetings_filtered(st, filter)),
            ) && next == *self,
            RegistryCall::UpdateEnded { id, ended_at, duration_ms } => answer matches RegistryAnswer::Meeting(got)
                && agrees(st, next@, got, spec_update_meeting_ended(st, id, ended_at, duration_ms)),
            RegistryCall::UpdateLanguage { id, language } => answer matches RegistryAnswer::Meeting(got) && agrees(
                st,
                next@,
                got,
                spec_update_meeting_language(st, id, language),
            ),
            RegistryCall::Rename { id, title } => answer matches RegistryAnswer::Meeting(got) && agrees(
                st,
                next@,
                got,
                spec_rename_meeting(st, id, title),
            ),
            RegistryCall::DeleteMeeting { id } => answer matches RegistryAnswer::Unit(got) && agrees(
                st,
                next@,
                got,
                spec_delete_meeting(st, id),
            ),
            RegistryCall::CreateNote { draft } => answer matches RegistryAnswer::Note(got) && agrees(
                st,
                next@,
                got,
                spec_create_note(st, draft, note_stamp(got)),
            ),
            RegistryCall::ListNotes { meeting_id } => answer == RegistryAnswer::Notes(
                Ok(spec_notes_for_meeting(st, meeting_id)),
            ) && next == *self,
            RegistryCall::ReplaceNote { meeting_id, draft } => answer matches RegistryAnswer::Note(got) && agrees(
                st,
                next@,
                got,
                spec_replace_meeting_note(st, meeting_id, draft, note_stamp(got)),
            ),
            RegistryCall::CreateSpace { name } => answer matches RegistryAnswer::Space(got) && agrees(
                st,
                next@,
                got,
                spec_create_space(st, name),
            ),
            RegistryCall::ListSpaces => answer == RegistryAnswer::Spaces(Ok(st.spaces)) && next == *self,
            RegistryCall::RenameSpace { id, name } => answer matches RegistryAnswer::Unit(got) && agrees(
                st,
                next@,
                got,
                spec_rename_space(st, id, name),
            ),
            RegistryCall::DeleteSpace { id } => answer matches RegistryAnswer::Unit(got) && agrees(
                st,
                next@,
                got,
                spec_delete_space(st, id),
            ),
            RegistryCall::CreateProject { space_id, name } => answer matches RegistryAnswer::Project(got) && agrees(
                st,
                next@,
                got,
                spec_create_project(st, space_id, name),
            ),
            RegistryCall::ListProjects { space_id } => answer == RegistryAnswer::Projects(
                Ok(spec_list_projects(st, space_id)),
            ) && next == *self,
            RegistryCall::RenameProject { id, name } => answer matches RegistryAnswer::Unit(got) && agrees(
                st,
                next@,
                got,
                spec_rename_project(st, id, name),
            ),
            RegistryCall::DeleteProject { id } => answer matches RegistryAnswer::Unit(got) && agrees(
                st,
                next@,
                got,
                spec_delete_project(st, id),
            ),
            RegistryCall::CreateTag { name } => answer matches RegistryAnswer::Tag(got) && agrees(
                st,
                next@,
                got,
                spec_create_tag(st, name),
            ),
            RegistryCall::ListTags => answer == RegistryAnswer::Tags(Ok(st.tags)) && next == *self,
            RegistryCall::DeleteTag { id } => answer matches RegistryAnswer::Unit(got) && agrees(
                st,
                next@,
                got,
                spec_delete_tag(st, id),
            ),
            RegistryCall::TagMeeting { meeting_id, tag_id } => answer matches RegistryAnswer::Unit(got) && agrees(
                st,
                next@,
                got,
                spec_tag_meeting(st, meeting_id, tag_id),
            ),
            RegistryCall::UntagMeeting { meeting_id, tag_id } => answer matches RegistryAnswer::Unit(got)
                && agrees(st, next@, got, spec_untag_meeting(st, meeting_id, tag_id)),
            RegistryCall::TagsFor { meeting_id } => answer == RegistryAnswer::Tags(
                Ok(spec_tags_for_meeting(st, meeting_id)),
            ) && next == *self,
            RegistryCall::Assign { meeting_id, space_id, project_id } => answer matches RegistryAnswer::Unit(got)
                && agrees(st, next@, got, spec_assign_meeting(st, meeting_id, space_id, project_id)),
            RegistryCall::CreateWithNote { meeting, note, ended_at, duration_ms } => answer matches RegistryAnswer::Pair(
                got,
            ) && agrees(
                st,
                next@,
                got,
                spec_create_meeting_with_note(st, meeting, note, ended_at, duration_ms, pair_note_stamp(got)),
            ),
        }
    }

    fn create_meeting(&mut self, draft: MeetingDraft) -> (r: Result<Meeting, StorageError>)
        ensures
            agrees(old(self)@, final(self)@, result_view(r), spec_create_meeting(old(self)@, draft@)),
    {
        match self.meeting_conflict(&draft) {
            Some(e) => Err(e),
            None => {
                let m = Meeting {
                    id: draft.id,
                    title: draft.title,
                    started_at: draft.started_at,
                    ended_at: None,
                    duration_ms: None,
                    language: draft.language,
                    dir_path: draft.dir_path,
                };
                let out = m.duplicate();
                let ghost before = self@;
                self.meetings.push(MeetingRow { meeting: m, space_id: None, project_id: None });
                assert(self@.meetings =~= before.meetings.push(unfiled(out@)));
                Ok(out)
            },
        }
    }

    fn get_meeting(&self, id: &str) -> (r: Result<Meeting, StorageError>)
        ensures
            result_view(r) == spec_get_meeting(self@, id@),
    {
        let key = id.to_owned();
        match self.meeting_pos(&key) {
            Some(i) => Ok(self.meetings[i].meeting.duplicate()),
            None => Err(StorageError::NotFound { id: key, kind: "meeting" }),
        }
    }

    fn list_meetings(&self) -> (r: Result<Vec<MeetingSummary>, StorageError>)
        ensures
            r is Ok,
            summaries_view(r->Ok_0@) == spec_list_meetings(self@),
    {
        Ok(self.list_all())
    }

    fn list_meetings_filtered(&self, filter: crate::storage::MeetingListFilter) -> (r: Result<
        Vec<MeetingSummary>,
        StorageError,
    >)
        ensures
            r is Ok,
            summaries_view(r->Ok_0@) == spec_list_meetings_filtered(self@, filter@),
    {
        Ok(self.list_filtered(&filter))
    }

    fn update_meeting_ended(&mut self, id: &str, ended_at: &str, duration_ms: u64) -> (r: Result<
        Meeting,
        StorageError,
    >)
        ensures
            agrees(
                old(self)@,
                final(self)@,
                result_view(r),
                spec_update_meeting_ended(old(self)@, id@, ended_at@, duration_ms),
            ),
    {
        let key = id.to_owned();
        match self.meeting_pos(&key) {
            None => Err(StorageError::NotFound { id: key, kind: "meeting" }),
            Some(i) => {
                let ghost before = self@;
                let mut row = self.meetings.remove(i);
                row.meeting.ended_at = Some(ended_at.to_owned());
                row.meeting.duration_ms = Some(duration_ms);
                let out = row.meeting.duplicate();
                self.meetings.insert(i, row);
                assert(self@.meetings =~= before.meetings.update(
                    i as int,
                    RowModel { meeting: out@, ..before.meetings[i as int] },
                ));
                Ok(out)
            },
        }
    }

    fn update_meeting_language(&mut self, id: &str, language: &str) -> (r: Result<
        Meeting,
        StorageError,
    >)
        ensures
            agrees(
                old(self)@,
                final(self)@,
                result_view(r),
                spec_update_meeting_language(old(self)@, id@, language@),
            ),
    {
        let key = id.to_owned();
        match self.meeting_pos(&key) {
            None => Err(StorageError::NotFound { id: key, kind: "meeting" }),
            Some(i) => {
                let ghost before = self@;
                let mut row = self.meetings.remove(i);
                row.meeting.language = language.to_owned();
                let out = row.meeting.duplicate();
                self.meetings.insert(i, row);
                assert(self@.meetings =~= before.meetings.update(
                    i as int,
                    RowModel { meeting: out@, ..before.meetings[i as int] },
                ));
                Ok(out)
            },
        }
    }

    fn rename_meeting(&mut self, id: &str, title: &str) -> (r: Result<Meeting, StorageError>)
        ensures
            agrees(
                old(self)@,
                final(self)@,
                result_view(r),
                spec_rename_meeting(old(self)@, id@, title@),
            ),
    {
        let key = id.to_owned();
        match self.meeting_pos(&key) {
            None => Err(StorageError::NotFound { id: key, kind: "meeting" }),
            Some(i) => {
                let ghost before = self@;
                let mut row = self.meetings.remove(i);
                row.meeting.title = title.to_owned();
                let out = row.meeting.duplicate();
                self.meetings.insert(i, row);
                assert(self@.meetings =~= before.meetings.update(
                    i as int,
                    RowModel { meeting: out@, ..before.meetings[i as int] },
                ));
                Ok(out)
            },
        }
    }

    fn delete_meeting(&mut self, id: &str) -> (r: Result<(), StorageError>)
        ensures
            agrees(old(self)@, final(self)@, unit_view(r), spec_delete_meeting(old(self)@, id@)),
    {
        let key = id.to_owned();
        match self.meeting_pos(&key) {
            None => Err(StorageError::NotFound { id: key, kind: "meeting" }),
            Some(i) => {
                self.drop_meetings_of(&key);
                self.drop_notes_of(&key);
                self.drop_links_of(&key);
                Ok(())
            },
        }
    }

    fn create_note(&mut self, draft: NoteDraft) -> (r: Result<Note, StorageError>)
        ensures
            agrees(
                old(self)@,
                final(self)@,
                result_view(r),
                spec_create_note(old(self)@, draft@, stamp_of(r)),
            ),
            r is Ok ==> crate::clock::is_timestamp_text(r->Ok_0.created_at@),
    {
        if self.meeting_pos(&draft.meeting_id).is_none() {
            return Err(StorageError::NotFound { id: draft.meeting_id, kind: "meeting" });
        }
        if note_pos(&self.notes, &draft.id).is_some() {
            return Err(StorageError::AlreadyExists { id: draft.id, kind: "note" });
        }
        let n = Note {
            id: draft.id,
            meeting_id: draft.meeting_id,
            dialect: draft.dialect,
            content_md: draft.content_md,
            primary_path: draft.primary_path,
            created_at: crate::clock::now_rfc3339(),
        };
        let out = n.duplicate();
        let ghost before = self@;
        self.notes.push(n);
        assert(self@.notes =~= before.notes.push(out@));
        Ok(out)
    }

    fn list_notes_for_meeting(&self, meeting_id: &str) -> (r: Result<Vec<Note>, StorageError>)
        ensures
            r is Ok,
            r->Ok_0@.map_values(|x: Note| x@) == spec_notes_for_meeting(self@, meeting_id@),
    {
        let key = meeting_id.to_owned();
        Ok(self.notes_of(&key))
    }

    fn replace_meeting_note(&mut self, meeting_id: &str, draft: NoteDraft) -> (r: Result<
        Note,
        StorageError,
    >)
        ensures
            agrees(
                old(self)@,
                final(self)@,
                result_view(r),
                spec_replace_meeting_note(old(self)@, meeting_id@, draft@, stamp_of(r)),
            ),
            r is Ok ==> crate::clock::is_timestamp_text(r->Ok_0.created_at@),
    {
        let key = meeting_id.to_owned();
        if self.meeting_pos(&key).is_none() {
            return Err(StorageError::NotFound { id: key, kind: "meeting" });
        }
        if !(draft.meeting_id == key) {
            return Err(
                StorageError::Sql {
                    message: "replace_meeting_note: note.meeting_id must match meeting_id".to_owned(),
                },
            );
        }
        if self.note_taken_elsewhere(&draft.id, &key) {
            return Err(StorageError::AlreadyExists { id: draft.id, kind: "note" });
        }
        self.drop_notes_of(&key);
        let n = Note {
            id: draft.id,
            meeting_id: draft.meeting_id,
            dialect: draft.dialect,
            content_md: draft.content_md,
            primary_path: draft.primary_path,
            created_at: crate::clock::now_rfc3339(),
        };
        let out = n.duplicate();
        let ghost before = self@;
        self.notes.push(n);
        assert(self@.notes =~= before.notes.push(out@));
        Ok(out)
    }

    fn create_space(&mut self, name: &str) -> (r: Result<Space, StorageError>)
        ensures
            agrees(old(self)@, final(self)@, result_view(r), spec_create_space(old(self)@, name@)),
    {
        if self.next_id > LAST_ID {
            return Err(StorageError::Sql { message: "identifier counter exhausted".to_owned() });
        }
        let position = self.next_id as i64;
        let id = self.mint_id("space-");
        let sp = Space { id, name: name.to_owned(), position };
        let out = sp.duplicate();
        let ghost before = self@;
        self.spaces.push(sp);
        assert(self@.spaces =~= before.spaces.push(out@));
        Ok(out)
    }

    fn list_spaces(&self) -> (r: Result<Vec<Space>, StorageError>)
        ensures
            r is Ok,
            r->Ok_0@.map_values(|x: Space| x@) == self@.spaces,
    {
        Ok(self.all_spaces())
    }

    fn rename_space(&mut self, id: &str, name: &str) -> (r: Result<(), StorageError>)
        ensures
            agrees(old(self)@, final(self)@, unit_view(r), spec_rename_space(old(self)@, id@, name@)),
    {
        let key = id.to_owned();
        match self.space_pos(&key) {
            None => Err(StorageError::NotFound { id: key, kind: "space" }),
            Some(i) => {
                let ghost before = self@;
                let mut sp = self.spaces.remove(i);
                sp.name = name.to_owned();
                let ghost after = sp@;
                self.spaces.insert(i, sp);
                assert(self@.spaces =~= before.spaces.update(i as int, after));
                Ok(())
            },
        }
    }

    fn delete_space(&mut self, id: &str) -> (r: Result<(), StorageError>)
        ensures
            agrees(old(self)@, final(self)@, unit_view(r), spec_delete_space(old(self)@, id@)),
    {
        let key = id.to_owned();
        match self.space_pos(&key) {
            None => Err(StorageError::NotFound { id: key, kind: "space" }),
            Some(i) => {
                let ghost before = self@;
                self.spaces.remove(i);
                assert(self@.spaces =~= before.spaces.remove(i as int));
                self.drop_projects_in(&key);
                self.unfile_space_rows(&key);
                Ok(())
            },
        }
    }

    fn create_project(&mut self, space_id: &str, name: &str) -> (r: Result<Project, StorageError>)
        ensures
            agrees(
                old(self)@,
                final(self)@,
                result_view(r),
                spec_create_project(old(self)@, space_id@, name@),
            ),
    {
        let key = space_id.to_owned();
        if self.space_pos(&key).is_none() {
            return Err(StorageError::NotFound { id: key, kind: "space" });
        }
        if self.next_id > LAST_ID {
            return Err(StorageError::Sql { message: "identifier counter exhausted".to_owned() });
        }
        let position = self.next_id as i64;
        let id = self.mint_id("project-");
        let p = Project { id, space_id: key, name: name.to_owned(), position };
        let out = p.duplicate();
        let ghost before = self@;
        self.projects.push(p);
        assert(self@.projects =~= before.projects.push(out@));
        Ok(out)
    }

    fn list_projects(&self, space_id: Option<&str>) -> (r: Result<Vec<Project>, StorageError>)
        ensures
            r is Ok,
            r->Ok_0@.map_values(|x: Project| x@) == spec_list_projects(
                self@,
                opt_str_view(space_id),
            ),
    {
        match space_id {
            Some(s) => {
                let key = s.to_owned();
                Ok(self.projects_of(Some(&key)))
            },
            None => Ok(self.projects_of(None)),
        }
    }

    fn rename_project(&mut self, id: &str, name: &str) -> (r: Result<(), StorageError>)
        ensures
            agrees(
                old(self)@,
                final(self)@,
                unit_view(r),
                spec_rename_project(old(self)@, id@, name@),
            ),
    {
        let key = id.to_owned();
        match self.project_pos(&key) {
            None => Err(StorageError::NotFound { id: key, kind: "project" }),
            Some(i) => {
                let ghost before = self@;
                let mut p = self.projects.remove(i);
                p.name = name.to_owned();
                let ghost after = p@;
                self.projects.insert(i, p);
                assert(self@.projects =~= before.projects.update(i as int, after));
                Ok(())
            },
        }
    }

    fn delete_project(&mut self, id: &str) -> (r: Result<(), StorageError>)
        ensures
            agrees(old(self)@, final(self)@, unit_view(r), spec_delete_project(old(self)@, id@)),
    {
        let key = id.to_owned();
        match self.project_pos(&key) {
            None => Err(StorageError::NotFound { id: key, kind: "project" }),
            Some(i) => {
                let ghost before = self@;
                self.projects.remove(i);
                assert(self@.projects =~= before.projects.remove(i as int));
                self.unfile_project_rows(&key);
                Ok(())
            },
        }
    }

    fn create_tag(&mut self, name: &str) -> (r: Result<Tag, StorageError>)
        ensures
            agrees(old(self)@, final(self)@, result_view(r), spec_create_tag(old(self)@, name@)),
    {
        let key = name.to_owned();
        match self.tag_named_pos(&key) {
            Some(i) => Ok(self.tags[i].duplicate()),
            None => {
                if self.next_id > LAST_ID {
                    return Err(
                        StorageError::Sql { message: "identifier counter exhausted".to_owned() },
                    );
                }
                let id = self.mint_id("tag-");
                let t = Tag { id, name: key };
                let out = t.duplicate();
                let ghost before = self@;
                self.tags.push(t);
                assert(self@.tags =~= before.tags.push(out@));
                Ok(out)
            },
        }
    }

    fn list_tags(&self) -> (r: Result<Vec<Tag>, StorageError>)
        ensures
            r is Ok,
            r->Ok_0@.map_values(|x: Tag| x@) == self@.tags,
    {
        Ok(self.all_tags())
    }

    fn delete_tag(&mut self, id: &str) -> (r: Result<(), StorageError>)
        ensures
            agrees(old(self)@, final(self)@, unit_view(r), spec_delete_tag(old(self)@, id@)),
    {
        let key = id.to_owned();
        match self.tag_pos(&key) {
            None => Err(StorageError::NotFound { id: key, kind: "tag" }),
            Some(i) => {
                let ghost before = self@;
                self.tags.remove(i);
                assert(self@.tags =~= before.tags.remove(i as int));
                self.drop_links_to(&key);
                Ok(())
            },
        }
    }

    fn tag_meeting(&mut self, meeting_id: &str, tag_id: &str) -> (r: Result<(), StorageError>)
        ensures
            agrees(
                old(self)@,
                final(self)@,
                unit_view(r),
                spec_tag_meeting(old(self)@, meeting_id@, tag_id@),
            ),
    {
        let m = meeting_id.to_owned();
        let t = tag_id.to_owned();
        if self.meeting_pos(&m).is_none() {
            return Err(StorageError::NotFound { id: m, kind: "meeting" });
        }
        if self.tag_pos(&t).is_none() {
            return Err(StorageError::NotFound { id: t, kind: "tag" });
        }
        if self.is_linked(&m, &t) {
            return Ok(());
        }
        let ghost before = self@;
        let link = TagLink { meeting_id: m, tag_id: t };
        let ghost lv = link@;
        self.links.push(link);
        assert(self@.links =~= before.links.push(lv));
        Ok(())
    }

    fn untag_meeting(&mut self, meeting_id: &str, tag_id: &str) -> (r: Result<(), StorageError>)
        ensures
            agrees(
                old(self)@,
                final(self)@,
                unit_view(r),
                spec_untag_meeting(old(self)@, meeting_id@, tag_id@),
            ),
    {
        let m = meeting_id.to_owned();
        let t = tag_id.to_owned();
        if self.meeting_pos(&m).is_none() {
            return Err(StorageError::NotFound { id: m, kind: "meeting" });
        }
        self.drop_link(&m, &t);
        Ok(())
    }

    fn list_tags_for_meeting(&self, meeting_id: &str) -> (r: Result<Vec<Tag>, StorageError>)
        ensures
            r is Ok,
            r->Ok_0@.map_values(|x: Tag| x@) == spec_tags_for_meeting(self@, meeting_id@),
    {
        let key = meeting_id.to_owned();
        Ok(self.tags_of(&key))
    }

    fn assign_meeting(
        &mut self,
        meeting_id: &str,
        space_id: Option<String>,
        project_id: Option<String>,
    ) -> (r: Result<(), StorageError>)
        ensures
            agrees(
                old(self)@,
                final(self)@,
                unit_view(r),
                spec_assign_meeting(
                    old(self)@,
                    meeting_id@,
                    crate::storage::opt_view(space_id),
                    crate::storage::opt_view(project_id),
                ),
            ),
    {
        let key = meeting_id.to_owned();
        let i = match self.meeting_pos(&key) {
            None => {
                return Err(StorageError::NotFound { id: key, kind: "meeting" });
            },
            Some(i) => i,
        };
        let filed: (Option<String>, Option<String>) = match project_id {
            Some(p) => match self.project_pos(&p) {
                Some(j) => (Some(self.projects[j].space_id.clone()), Some(p)),
                None => {
                    return Err(StorageError::NotFound { id: p, kind: "project" });
                },
            },
            None => match space_id {
                Some(s) => {
                    if self.space_pos(&s).is_some() {
                        (Some(s), None)
                    } else {
                        return Err(StorageError::NotFound { id: s, kind: "space" });
                    }
                },
                None => (None, None),
            },
        };
        let ghost before = self@;
        let mut row = self.meetings.remove(i);
        row.space_id = filed.0;
        row.project_id = filed.1;
        let ghost after = row@;
        self.meetings.insert(i, row);
        assert(self@.meetings =~= before.meetings.update(i as int, after));
        Ok(())
    }

    fn create_meeting_with_note(
        &mut self,
        meeting: MeetingDraft,
        note: NoteDraft,
        ended_at: Option<&str>,
        duration_ms: Option<u64>,
    ) -> (r: Result<(Meeting, Note), StorageError>)
        ensures
            agrees(
                old(self)@,
                final(self)@,
                result_view(r),
                spec_create_meeting_with_note(
                    old(self)@,
                    meeting@,
                    note@,
                    opt_str_view(ended_at),
                    duration_ms,
                    pair_stamp_of(r),
                ),
            ),
            r is Ok ==> crate::clock::is_timestamp_text(r->Ok_0.1.created_at@),
    {
        match self.meeting_conflict(&meeting) {
            Some(e) => {
                return Err(e);
            },
            None => {},
        }
        if !(note.meeting_id == meeting.id) {
            return Err(
                StorageError::Sql {
                    message: "create_meeting_with_note: note.meeting_id must match meeting.id".to_owned(),
                },
            );
        }
        if note_pos(&self.notes, &note.id).is_some() {
            return Err(StorageError::AlreadyExists { id: note.id, kind: "note" });
        }
        let m = Meeting {
            id: meeting.id,
            title: meeting.title,
            started_at: meeting.started_at,
            ended_at: match ended_at {
                Some(e) => Some(e.to_owned()),
                None => None,
            },
            duration_ms,
            language: meeting.language,
            dir_path: meeting.dir_path,
        };
        let n = Note {
            id: note.id,
            meeting_id: note.meeting_id,
            dialect: note.dialect,
            content_md: note.content_md,
            primary_path: note.primary_path,
            created_at: crate::clock::now_rfc3339(),
        };
        let out_m = m.duplicate();
        let out_n = n.duplicate();
        let ghost before = self@;
        self.meetings.push(MeetingRow { meeting: m, space_id: None, project_id: None });
        self.notes.push(n);
        assert(self@.meetings =~= before.meetings.push(unfiled(out_m@)));
        assert(self@.notes =~= before.notes.push(out_n@));
        Ok((out_m, out_n))
    }
}

} // verus!
