//! The cross-meeting registry port: meetings, their notes, and the
//! organisation of meetings into spaces, projects and tags.

use vstd::prelude::*;
use vstd::std_specs::convert::FromSpecImpl;

use crate::segment::copy_opt_string;
use crate::stdtypes::io_error_to_string;
use crate::text::{push_decimal, push_str};

verus! {

/// What a caller supplies to create a meeting.
#[derive(Debug, Clone, PartialEq, Eq)]
pub struct MeetingDraft {
    pub id: String,
    pub title: String,
    pub started_at: String,
    pub language: String,
    pub dir_path: String,
}

/// A registered meeting.
#[derive(Debug, Clone, PartialEq, Eq)]
pub struct Meeting {
    pub id: String,
    pub title: String,
    pub started_at: String,
    pub ended_at: Option<String>,
    pub duration_ms: Option<u64>,
    pub language: String,
    pub dir_path: String,
}

/// One row of a meeting listing.
#[derive(Debug, Clone, PartialEq, Eq)]
pub struct MeetingSummary {
    pub id: String,
    pub title: String,
    pub started_at: String,
    pub ended_at: Option<String>,
    pub duration_ms: u64,
    pub language: String,
    pub has_notes: bool,
    pub space_id: Option<String>,
    pub project_id: Option<String>,
    /// Tag ids assigned to this meeting.
    pub tags: Vec<String>,
}

/// Narrows a meeting listing; every field that is set must hold.
#[derive(Debug, Clone, PartialEq, Eq)]
pub struct MeetingListFilter {
    pub space_id: Option<String>,
    pub project_id: Option<String>,
    pub tag_id: Option<String>,
    /// When true, only meetings in the implicit Inbox (no space).
    pub unsorted: bool,
}

impl Default for MeetingListFilter {
    /// No restriction.
    fn default() -> (r: Self)
        ensures
            r.space_id is None,
            r.project_id is None,
            r.tag_id is None,
            !r.unsorted,
    {
        MeetingListFilter { space_id: None, project_id: None, tag_id: None, unsorted: false }
    }
}

/// A top-level grouping of meetings.
#[derive(Debug, Clone, PartialEq, Eq)]
pub struct Space {
    pub id: String,
    pub name: String,
    pub position: i64,
}

/// A grouping of meetings inside a space.
#[derive(Debug, Clone, PartialEq, Eq)]
pub struct Project {
    pub id: String,
    pub space_id: String,
    pub name: String,
    pub position: i64,
}

/// A label that can be put on meetings.
#[derive(Debug, Clone, PartialEq, Eq)]
pub struct Tag {
    pub id: String,
    pub name: String,
}

/// What a caller supplies to create a note.
#[derive(Debug, Clone, PartialEq, Eq)]
pub struct NoteDraft {
    pub id: String,
    pub meeting_id: String,
    pub dialect: String,
    pub content_md: String,
    pub primary_path: String,
}

/// A stored note of a meeting.
#[derive(Debug, Clone, PartialEq, Eq)]
pub struct Note {
    pub id: String,
    pub meeting_id: String,
    pub dialect: String,
    pub content_md: String,
    pub primary_path: String,
    pub created_at: String,
}

/// Registry errors.
#[derive(Debug)]
pub enum StorageError {
    NotFound { id: String, kind: &'static str },
    /// Primary-key collision: a row with this `id` already exists.
    AlreadyExists { id: String, kind: &'static str },
    /// Collision on another unique column: `field` of `kind` already holds
    /// `value`.
    UniqueConflict { kind: &'static str, field: &'static str, value: String },
    SchemaMismatch { actual: u32, expected: u32 },
    Io { source: std::io::Error },
    Sql { message: String },
}

/// The mathematical value of a `StorageError`.
pub enum StorageErrorModel {
    NotFound { id: Seq<char>, kind: Seq<char> },
    AlreadyExists { id: Seq<char>, kind: Seq<char> },
    UniqueConflict { kind: Seq<char>, field: Seq<char>, value: Seq<char> },
    SchemaMismatch { actual: u32, expected: u32 },
    Io,
    Sql { message: Seq<char> },
}

impl View for StorageError {
    type V = StorageErrorModel;

    open spec fn view(&self) -> StorageErrorModel {
        match self {
            StorageError::NotFound { id, kind } => StorageErrorModel::NotFound {
                id: id@,
                kind: kind@,
            },
            StorageError::AlreadyExists { id, kind } => StorageErrorModel::AlreadyExists {
                id: id@,
                kind: kind@,
            },
            StorageError::UniqueConflict { kind, field, value } => StorageErrorModel::UniqueConflict {
                kind: kind@,
                field: field@,
                value: value@,
            },
            StorageError::SchemaMismatch { actual, expected } => StorageErrorModel::SchemaMismatch {
                actual: *actual,
                expected: *expected,
            },
            StorageError::Io { .. } => StorageErrorModel::Io,
            StorageError::Sql { message } => StorageErrorModel::Sql { message: message@ },
        }
    }
}

impl StorageError {
    /// A `Sql` error carrying `message`.
    pub fn sql(message: &str) -> (r: Self)
        ensures
            r@ == (StorageErrorModel::Sql { message: message@ }),
    {
        StorageError::Sql { message: message.to_owned() }
    }

    /// The error's message: `{kind} not found: {id}`, `{kind} already
    /// exists: {id}`, `{kind}.{field} already in use: {value}`, `storage
    /// schema mismatch: actual {a}, expected {e}`, `io: {source}` or
    /// `sql: {message}`.
    pub fn message(&self) -> (r: String)
        ensures
            match self {
                StorageError::NotFound { id, kind } => r@ == kind@ + " not found: "@ + id@,
                StorageError::AlreadyExists { id, kind } => r@ == kind@ + " already exists: "@ + id@,
                StorageError::UniqueConflict { kind, field, value } => r@ == kind@ + "."@ + field@
                    + " already in use: "@ + value@,
                StorageError::SchemaMismatch { actual, expected } => r@
                    == "storage schema mismatch: actual "@ + crate::text::decimal(*actual as nat)
                    + ", expected "@ + crate::text::decimal(*expected as nat),
                StorageError::Io { .. } => "io: "@.is_prefix_of(r@),
                StorageError::Sql { message } => r@ == "sql: "@ + message@,
            },
    {
        let mut s = String::new();
        match self {
            StorageError::NotFound { id, kind } => {
                push_str(&mut s, kind);
                push_str(&mut s, " not found: ");
                push_str(&mut s, id.as_str());
            },
            StorageError::AlreadyExists { id, kind } => {
                push_str(&mut s, kind);
                push_str(&mut s, " already exists: ");
                push_str(&mut s, id.as_str());
            },
            StorageError::UniqueConflict { kind, field, value } => {
                push_str(&mut s, kind);
                push_str(&mut s, ".");
                push_str(&mut s, field);
                push_str(&mut s, " already in use: ");
                push_str(&mut s, value.as_str());
            },
            StorageError::SchemaMismatch { actual, expected } => {
                push_str(&mut s, "storage schema mismatch: actual ");
                push_decimal(&mut s, *actual as u64);
                push_str(&mut s, ", expected ");
                push_decimal(&mut s, *expected as u64);
            },
            StorageError::Io { source } => {
                push_str(&mut s, "io: ");
                let t = io_error_to_string(source);
                let ghost before = s@;
                push_str(&mut s, t.as_str());
                assert(before.is_prefix_of(s@));
            },
            StorageError::Sql { message } => {
                push_str(&mut s, "sql: ");
                push_str(&mut s, message.as_str());
            },
        }
        s
    }
}

impl From<std::io::Error> for StorageError {
    fn from(source: std::io::Error) -> (r: Self) {
        StorageError::Io { source }
    }
}

impl FromSpecImpl<std::io::Error> for StorageError {
    open spec fn obeys_from_spec() -> bool {
        true
    }

    open spec fn from_spec(v: std::io::Error) -> Self {
        StorageError::Io { source: v }
    }
}

} // verus!

verus! {

/// An optional string's contents.
pub open spec fn opt_view(o: Option<String>) -> Option<Seq<char>> {
    match o {
        Some(s) => Some(s@),
        None => None,
    }
}

pub struct MeetingDraftModel {
    pub id: Seq<char>,
    pub title: Seq<char>,
    pub started_at: Seq<char>,
    pub language: Seq<char>,
    pub dir_path: Seq<char>,
}

impl View for MeetingDraft {
    type V = MeetingDraftModel;

    open spec fn view(&self) -> MeetingDraftModel {
        MeetingDraftModel {
            id: self.id@,
            title: self.title@,
            started_at: self.started_at@,
            language: self.language@,
            dir_path: self.dir_path@,
        }
    }
}

pub struct MeetingModel {
    pub id: Seq<char>,
    pub title: Seq<char>,
    pub started_at: Seq<char>,
    pub ended_at: Option<Seq<char>>,
    pub duration_ms: Option<u64>,
    pub language: Seq<char>,
    pub dir_path: Seq<char>,
}

impl View for Meeting {
    type V = MeetingModel;

    open spec fn view(&self) -> MeetingModel {
        MeetingModel {
            id: self.id@,
            title: self.title@,
            started_at: self.started_at@,
            ended_at: opt_view(self.ended_at),
            duration_ms: self.duration_ms,
            language: self.language@,
            dir_path: self.dir_path@,
        }
    }
}

pub struct SummaryModel {
    pub id: Seq<char>,
    pub title: Seq<char>,
    pub started_at: Seq<char>,
    pub ended_at: Option<Seq<char>>,
    pub duration_ms: u64,
    pub language: Seq<char>,
    pub has_notes: bool,
    pub space_id: Option<Seq<char>>,
    pub project_id: Option<Seq<char>>,
    pub tags: Seq<Seq<char>>,
}

impl View for MeetingSummary {
    type V = SummaryModel;

    open spec fn view(&self) -> SummaryModel {
        SummaryModel {
            id: self.id@,
            title: self.title@,
            started_at: self.started_at@,
            ended_at: opt_view(self.ended_at),
            duration_ms: self.duration_ms,
            language: self.language@,
            has_notes: self.has_notes,
            space_id: opt_view(self.space_id),
            project_id: opt_view(self.project_id),
            tags: self.tags@.map_values(|t: String| t@),
        }
    }
}

pub struct FilterModel {
    pub space_id: Option<Seq<char>>,
    pub project_id: Option<Seq<char>>,
    pub tag_id: Option<Seq<char>>,
    pub unsorted: bool,
}

impl View for MeetingListFilter {
    type V = FilterModel;

    open spec fn view(&self) -> FilterModel {
        FilterModel {
            space_id: opt_view(self.space_id),
            project_id: opt_view(self.project_id),
            tag_id: opt_view(self.tag_id),
            unsorted: self.unsorted,
        }
    }
}

pub struct SpaceModel {
    pub id: Seq<char>,
    pub name: Seq<char>,
    pub position: i64,
}

impl View for Space {
    type V = SpaceModel;

    open spec fn view(&self) -> SpaceModel {
        SpaceModel { id: self.id@, name: self.name@, position: self.position }
    }
}

pub struct ProjectModel {
    pub id: Seq<char>,
    pub space_id: Seq<char>,
    pub name: Seq<char>,
    pub position: i64,
}

impl View for Project {
    type V = ProjectModel;

    open spec fn view(&self) -> ProjectModel {
        ProjectModel {
            id: self.id@,
            space_id: self.space_id@,
            name: self.name@,
            position: self.position,
        }
    }
}

pub struct TagModel {
    pub id: Seq<char>,
    pub name: Seq<char>,
}

impl View for Tag {
    type V = TagModel;

    open spec fn view(&self) -> TagModel {
        TagModel { id: self.id@, name: self.name@ }
    }
}

pub struct NoteDraftModel {
    pub id: Seq<char>,
    pub meeting_id: Seq<char>,
    pub dialect: Seq<char>,
    pub content_md: Seq<char>,
    pub primary_path: Seq<char>,
}

impl View for NoteDraft {
    type V = NoteDraftModel;

    open spec fn view(&self) -> NoteDraftModel {
        NoteDraftModel {
            id: self.id@,
            meeting_id: self.meeting_id@,
            dialect: self.dialect@,
            content_md: self.content_md@,
            primary_path: self.primary_path@,
        }
    }
}

pub struct NoteModel {
    pub id: Seq<char>,
    pub meeting_id: Seq<char>,
    pub dialect: Seq<char>,
    pub content_md: Seq<char>,
    pub primary_path: Seq<char>,
    pub created_at: Seq<char>,
}

impl View for Note {
    type V = NoteModel;

    open spec fn view(&self) -> NoteModel {
        NoteModel {
            id: self.id@,
            meeting_id: self.meeting_id@,
            dialect: self.dialect@,
            content_md: self.content_md@,
            primary_path: self.primary_path@,
            created_at: self.created_at@,
        }
    }
}

/// One call to a registry adapter, its arguments as values.
pub ghost enum RegistryCall {
    CreateMeeting { draft: MeetingDraftModel },
    GetMeeting { id: Seq<char> },
    ListMeetings,
    ListFiltered { filter: FilterModel },
    UpdateEnded { id: Seq<char>, ended_at: Seq<char>, duration_ms: u64 },
    UpdateLanguage { id: Seq<char>, language: Seq<char> },
    Rename { id: Seq<char>, title: Seq<char> },
    DeleteMeeting { id: Seq<char> },
    CreateNote { draft: NoteDraftModel },
    ListNotes { meeting_id: Seq<char> },
    ReplaceNote { meeting_id: Seq<char>, draft: NoteDraftModel },
    CreateSpace { name: Seq<char> },
    ListSpaces,
    RenameSpace { id: Seq<char>, name: Seq<char> },
    DeleteSpace { id: Seq<char> },
    CreateProject { space_id: Seq<char>, name: Seq<char> },
    ListProjects { space_id: Option<Seq<char>> },
    RenameProject { id: Seq<char>, name: Seq<char> },
    DeleteProject { id: Seq<char> },
    CreateTag { name: Seq<char> },
    ListTags,
    DeleteTag { id: Seq<char> },
    TagMeeting { meeting_id: Seq<char>, tag_id: Seq<char> },
    UntagMeeting { meeting_id: Seq<char>, tag_id: Seq<char> },
    TagsFor { meeting_id: Seq<char> },
    Assign { meeting_id: Seq<char>, space_id: Option<Seq<char>>, project_id: Option<Seq<char>> },
    CreateWithNote {
        meeting: MeetingDraftModel,
        note: NoteDraftModel,
        ended_at: Option<Seq<char>>,
        duration_ms: Option<u64>,
    },
}

/// What a call to a registry adapter answered, as values.
pub ghost enum RegistryAnswer {
    Meeting(Result<MeetingModel, StorageErrorModel>),
    Summaries(Result<Seq<SummaryModel>, StorageErrorModel>),
    Unit(Result<(), StorageErrorModel>),
    Note(Result<NoteModel, StorageErrorModel>),
    Notes(Result<Seq<NoteModel>, StorageErrorModel>),
    Space(Result<SpaceModel, StorageErrorModel>),
    Spaces(Result<Seq<SpaceModel>, StorageErrorModel>),
    Project(Result<ProjectModel, StorageErrorModel>),
    Projects(Result<Seq<ProjectModel>, StorageErrorModel>),
    Tag(Result<TagModel, StorageErrorModel>),
    Tags(Result<Seq<TagModel>, StorageErrorModel>),
    Pair(Result<(MeetingModel, NoteModel), StorageErrorModel>),
}

/// A result as values.
pub open spec fn res<T: View>(r: Result<T, StorageError>) -> Result<T::V, StorageErrorModel> {
    match r {
        Ok(v) => Ok(v@),
        Err(e) => Err(e@),
    }
}

/// A list result as values.
pub open spec fn rows<T: View>(r: Result<Vec<T>, StorageError>) -> Result<Seq<T::V>, StorageErrorModel> {
    match r {
        Ok(v) => Ok(v@.map_values(|x: T| x@)),
        Err(e) => Err(e@),
    }
}

/// A result without a value, as values.
pub open spec fn unit_res(r: Result<(), StorageError>) -> Result<(), StorageErrorModel> {
    match r {
        Ok(_) => Ok(()),
        Err(e) => Err(e@),
    }
}

/// An optional string slice as a value.
pub open spec fn opt_str(o: Option<&str>) -> Option<Seq<char>> {
    match o {
        Some(s) => Some(s@),
        None => None,
    }
}

/// The registry port. Adapters (an SQLite registry, the in-memory one in
/// this library) implement it; ids are strings chosen by the caller for
/// meetings and notes, and by the adapter for spaces, projects and tags.
/// Every method ensures that it made a `step` of the adapter: from the
/// state before the call, for the call's arguments, to the state after it,
/// with the answer it gave.
pub trait Storage: Sized {
    /// Whether this adapter, as it stood (`self`), may answer `call` with
    /// `answer` and be `next` afterwards. Unless an implementation says
    /// more, any answer and any next state.
    closed spec fn step(&self, call: RegistryCall, next: Self, answer: RegistryAnswer) -> bool {
        true
    }

    fn create_meeting(&mut self, draft: MeetingDraft) -> (r: Result<Meeting, StorageError>)
        ensures
            old(self).step(RegistryCall::CreateMeeting { draft: draft@ }, *final(self), RegistryAnswer::Meeting(res(r))),
    ;

    fn get_meeting(&self, id: &str) -> (r: Result<Meeting, StorageError>)
        ensures
            self.step(RegistryCall::GetMeeting { id: id@ }, *self, RegistryAnswer::Meeting(res(r))),
    ;

    /// All meetings, most recently started first.
    fn list_meetings(&self) -> (r: Result<Vec<MeetingSummary>, StorageError>)
        ensures
            self.step(RegistryCall::ListMeetings, *self, RegistryAnswer::Summaries(rows(r))),
    ;

    fn list_meetings_filtered(&self, filter: MeetingListFilter) -> (r: Result<
        Vec<MeetingSummary>,
        StorageError,
    >)
        ensures
            self.step(RegistryCall::ListFiltered { filter: filter@ }, *self, RegistryAnswer::Summaries(rows(r))),
    ;

    fn update_meeting_ended(&mut self, id: &str, ended_at: &str, duration_ms: u64) -> (r: Result<
        Meeting,
        StorageError,
    >)
        ensures
            old(self).step(
                RegistryCall::UpdateEnded { id: id@, ended_at: ended_at@, duration_ms },
                *final(self),
                RegistryAnswer::Meeting(res(r)),
            ),
    ;

    fn update_meeting_language(&mut self, id: &str, language: &str) -> (r: Result<Meeting, StorageError>)
        ensures
            old(self).step(
                RegistryCall::UpdateLanguage { id: id@, language: language@ },
                *final(self),
                RegistryAnswer::Meeting(res(r)),
            ),
    ;

    fn rename_meeting(&mut self, id: &str, title: &str) -> (r: Result<Meeting, StorageError>)
        ensures
            old(self).step(RegistryCall::Rename { id: id@, title: title@ }, *final(self), RegistryAnswer::Meeting(res(r))),
    ;

    /// Deletes the meeting together with its notes.
    fn delete_meeting(&mut self, id: &str) -> (r: Result<(), StorageError>)
        ensures
            old(self).step(RegistryCall::DeleteMeeting { id: id@ }, *final(self), RegistryAnswer::Unit(unit_res(r))),
    ;

    fn create_note(&mut self, draft: NoteDraft) -> (r: Result<Note, StorageError>)
        ensures
            old(self).step(RegistryCall::CreateNote { draft: draft@ }, *final(self), RegistryAnswer::Note(res(r))),
    ;

    fn list_notes_for_meeting(&self, meeting_id: &str) -> (r: Result<Vec<Note>, StorageError>)
        ensures
            self.step(RegistryCall::ListNotes { meeting_id: meeting_id@ }, *self, RegistryAnswer::Notes(rows(r))),
    ;

    /// Deletes every note of `meeting_id` and inserts `draft` as its single
    /// current note.
    fn replace_meeting_note(&mut self, meeting_id: &str, draft: NoteDraft) -> (r: Result<
        Note,
        StorageError,
    >)
        ensures
            old(self).step(
                RegistryCall::ReplaceNote { meeting_id: meeting_id@, draft: draft@ },
                *final(self),
                RegistryAnswer::Note(res(r)),
            ),
    ;

    fn create_space(&mut self, name: &str) -> (r: Result<Space, StorageError>)
        ensures
            old(self).step(RegistryCall::CreateSpace { name: name@ }, *final(self), RegistryAnswer::Space(res(r))),
    ;

    fn list_spaces(&self) -> (r: Result<Vec<Space>, StorageError>)
        ensures
            self.step(RegistryCall::ListSpaces, *self, RegistryAnswer::Spaces(rows(r))),
    ;

    fn rename_space(&mut self, id: &str, name: &str) -> (r: Result<(), StorageError>)
        ensures
            old(self).step(RegistryCall::RenameSpace { id: id@, name: name@ }, *final(self), RegistryAnswer::Unit(unit_res(r))),
    ;

    fn delete_space(&mut self, id: &str) -> (r: Result<(), StorageError>)
        ensures
            old(self).step(RegistryCall::DeleteSpace { id: id@ }, *final(self), RegistryAnswer::Unit(unit_res(r))),
    ;

    fn create_project(&mut self, space_id: &str, name: &str) -> (r: Result<Project, StorageError>)
        ensures
            old(self).step(
                RegistryCall::CreateProject { space_id: space_id@, name: name@ },
                *final(self),
                RegistryAnswer::Project(res(r)),
            ),
    ;

    fn list_projects(&self, space_id: Option<&str>) -> (r: Result<Vec<Project>, StorageError>)
        ensures
            self.step(RegistryCall::ListProjects { space_id: opt_str(space_id) }, *self, RegistryAnswer::Projects(rows(r))),
    ;

    fn rename_project(&mut self, id: &str, name: &str) -> (r: Result<(), StorageError>)
        ensures
            old(self).step(RegistryCall::RenameProject { id: id@, name: name@ }, *final(self), RegistryAnswer::Unit(unit_res(r))),
    ;

    fn delete_project(&mut self, id: &str) -> (r: Result<(), StorageError>)
        ensures
            old(self).step(RegistryCall::DeleteProject { id: id@ }, *final(self), RegistryAnswer::Unit(unit_res(r))),
    ;

    /// Creating a tag whose name exists returns the existing tag.
    fn create_tag(&mut self, name: &str) -> (r: Result<Tag, StorageError>)
        ensures
            old(self).step(RegistryCall::CreateTag { name: name@ }, *final(self), RegistryAnswer::Tag(res(r))),
    ;

    fn list_tags(&self) -> (r: Result<Vec<Tag>, StorageError>)
        ensures
            self.step(RegistryCall::ListTags, *self, RegistryAnswer::Tags(rows(r))),
    ;

    fn delete_tag(&mut self, id: &str) -> (r: Result<(), StorageError>)
        ensures
            old(self).step(RegistryCall::DeleteTag { id: id@ }, *final(self), RegistryAnswer::Unit(unit_res(r))),
    ;

    fn tag_meeting(&mut self, meeting_id: &str, tag_id: &str) -> (r: Result<(), StorageError>)
        ensures
            old(self).step(
                RegistryCall::TagMeeting { meeting_id: meeting_id@, tag_id: tag_id@ },
                *final(self),
                RegistryAnswer::Unit(unit_res(r)),
            ),
    ;

    fn untag_meeting(&mut self, meeting_id: &str, tag_id: &str) -> (r: Result<(), StorageError>)
        ensures
            old(self).step(
                RegistryCall::UntagMeeting { meeting_id: meeting_id@, tag_id: tag_id@ },
                *final(self),
                RegistryAnswer::Unit(unit_res(r)),
            ),
    ;

    fn list_tags_for_meeting(&self, meeting_id: &str) -> (r: Result<Vec<Tag>, StorageError>)
        ensures
            self.step(RegistryCall::TagsFor { meeting_id: meeting_id@ }, *self, RegistryAnswer::Tags(rows(r))),
    ;

    /// Files the meeting under a project (and that project's space), under
    /// a space alone, or back in the Inbox when both are `None`.
    fn assign_meeting(
        &mut self,
        meeting_id: &str,
        space_id: Option<String>,
        project_id: Option<String>,
    ) -> (r: Result<(), StorageError>)
        ensures
            old(self).step(
                RegistryCall::Assign {
                    meeting_id: meeting_id@,
                    space_id: opt_view(space_id),
                    project_id: opt_view(project_id),
                },
                *final(self),
                RegistryAnswer::Unit(unit_res(r)),
            ),
    ;

    /// Meeting, note and (optional) end in one step: all or nothing.
    fn create_meeting_with_note(
        &mut self,
        meeting: MeetingDraft,
        note: NoteDraft,
        ended_at: Option<&str>,
        duration_ms: Option<u64>,
    ) -> (r: Result<(Meeting, Note), StorageError>)
        ensures
            old(self).step(
                RegistryCall::CreateWithNote {
                    meeting: meeting@,
                    note: note@,
                    ended_at: opt_str(ended_at),
                    duration_ms,
                },
                *final(self),
                RegistryAnswer::Pair(res(r)),
            ),
    ;
}

impl Meeting {
    /// A field-by-field copy.
    pub fn duplicate(&self) -> (r: Meeting)
        ensures
            r@ == self@,
    {
        Meeting {
            id: self.id.clone(),
            title: self.title.clone(),
            started_at: self.started_at.clone(),
            ended_at: copy_opt_string(&self.ended_at),
            duration_ms: self.duration_ms,
            language: self.language.clone(),
            dir_path: self.dir_path.clone(),
        }
    }
}

impl Note {
    /// A field-by-field copy.
    pub fn duplicate(&self) -> (r: Note)
        ensures
            r@ == self@,
    {
        Note {
            id: self.id.clone(),
            meeting_id: self.meeting_id.clone(),
            dialect: self.dialect.clone(),
            content_md: self.content_md.clone(),
            primary_path: self.primary_path.clone(),
            created_at: self.created_at.clone(),
        }
    }
}

impl Space {
    /// A field-by-field copy.
    pub fn duplicate(&self) -> (r: Space)
        ensures
            r@ == self@,
    {
        Space { id: self.id.clone(), name: self.name.clone(), position: self.position }
    }
}

impl Project {
    /// A field-by-field copy.
    pub fn duplicate(&self) -> (r: Project)
        ensures
            r@ == self@,
    {
        Project {
            id: self.id.clone(),
            space_id: self.space_id.clone(),
            name: self.name.clone(),
            position: self.position,
        }
    }
}

impl Tag {
    /// A field-by-field copy.
    pub fn duplicate(&self) -> (r: Tag)
        ensures
            r@ == self@,
    {
        Tag { id: self.id.clone(), name: self.name.clone() }
    }
}

} // verus!
