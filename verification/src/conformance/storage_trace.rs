//! Traces of calls to a registry adapter: each call recorded as a step
//! from the adapter before it to the adapter after it, with the call's
//! arguments and its answer as values. The storage conformance suite
//! records its calls here, so that what it judges is tied to the adapter's
//! own successive states.

use vstd::prelude::*;

use crate::storage::{
    opt_str, opt_view, res, rows, unit_res, Meeting, MeetingDraft, MeetingListFilter, MeetingSummary, Note,
    NoteDraft, Project, RegistryAnswer, RegistryCall, Space, Storage, StorageError, Tag,
};

verus! {

/// One recorded call: the adapter before, the call, the adapter after and
/// the answer.
pub type Step<S> = (S, RegistryCall, S, RegistryAnswer);

/// A trace: the adapter it started from, and the steps since.
pub type Trace<S> = (S, Seq<Step<S>>);

/// The steps run from `start`, each one a `step` the adapter may make,
/// each starting where the one before ended, the last ending at `end`.
pub open spec fn ran<S: Storage>(start: S, t: Seq<Step<S>>, end: S) -> bool
    decreases t.len(),
{
    if t.len() == 0 {
        start == end
    } else {
        &&& ran(start, t.drop_last(), t.last().0)
        &&& t.last().0.step(t.last().1, t.last().2, t.last().3)
        &&& t.last().2 == end
    }
}

/// `later` continues `earlier`: same start, and the earlier steps first.
pub open spec fn extends<S>(earlier: Trace<S>, later: Trace<S>) -> bool {
    &&& later.0 == earlier.0
    &&& earlier.1.len() <= later.1.len()
    &&& forall|i: int| 0 <= i < earlier.1.len() ==> #[trigger] later.1[i] == earlier.1[i]
}

/// The steps `later` added to `earlier`.
pub open spec fn added<S>(earlier: Trace<S>, later: Trace<S>) -> Seq<Step<S>> {
    later.1.skip(earlier.1.len() as int)
}

/// `create_meeting` on the adapter, recorded as the next step of the trace.
pub(crate) fn t_create_meeting<S: Storage>(adapter: &mut S, t: &mut Ghost<Trace<S>>, draft: MeetingDraft) -> (r: Result<Meeting, StorageError>)
    requires
        ran(old(t)@.0, old(t)@.1, *old(adapter)),
    ensures
        final(t)@ == (old(t)@.0, old(t)@.1.push((*old(adapter), RegistryCall::CreateMeeting { draft: draft@ }, *final(adapter), RegistryAnswer::Meeting(res(r))))),
        ran(final(t)@.0, final(t)@.1, *final(adapter)),
{
    let ghost before = *adapter;
    let ghost g_draft = draft@;
    let r = adapter.create_meeting(draft);
    let ghost s: Step<S> = (before, RegistryCall::CreateMeeting { draft: g_draft }, *adapter, RegistryAnswer::Meeting(res(r)));
    assert(t@.1.push(s).drop_last() =~= t@.1);
    *t = Ghost((t@.0, t@.1.push(s)));
    r
}

/// `get_meeting` on the adapter, recorded as the next step of the trace.
pub(crate) fn t_get_meeting<S: Storage>(adapter: &mut S, t: &mut Ghost<Trace<S>>, id: &str) -> (r: Result<Meeting, StorageError>)
    requires
        ran(old(t)@.0, old(t)@.1, *old(adapter)),
    ensures
        final(t)@ == (old(t)@.0, old(t)@.1.push((*old(adapter), RegistryCall::GetMeeting { id: id@ }, *final(adapter), RegistryAnswer::Meeting(res(r))))),
        ran(final(t)@.0, final(t)@.1, *final(adapter)),
{
    let ghost before = *adapter;
    let ghost g_id = id@;
    let r = adapter.get_meeting(id);
    let ghost s: Step<S> = (before, RegistryCall::GetMeeting { id: g_id }, *adapter, RegistryAnswer::Meeting(res(r)));
    assert(t@.1.push(s).drop_last() =~= t@.1);
    *t = Ghost((t@.0, t@.1.push(s)));
    r
}

/// `list_meetings` on the adapter, recorded as the next step of the trace.
pub(crate) fn t_list_meetings<S: Storage>(adapter: &mut S, t: &mut Ghost<Trace<S>>) -> (r: Result<Vec<MeetingSummary>, StorageError>)
    requires
        ran(old(t)@.0, old(t)@.1, *old(adapter)),
    ensures
        final(t)@ == (old(t)@.0, old(t)@.1.push((*old(adapter), RegistryCall::ListMeetings, *final(adapter), RegistryAnswer::Summaries(rows(r))))),
        ran(final(t)@.0, final(t)@.1, *final(adapter)),
{
    let ghost before = *adapter;
    let r = adapter.list_meetings();
    let ghost s: Step<S> = (before, RegistryCall::ListMeetings, *adapter, RegistryAnswer::Summaries(rows(r)));
    assert(t@.1.push(s).drop_last() =~= t@.1);
    *t = Ghost((t@.0, t@.1.push(s)));
    r
}

/// `list_meetings_filtered` on the adapter, recorded as the next step of the trace.
pub(crate) fn t_list_meetings_filtered<S: Storage>(adapter: &mut S, t: &mut Ghost<Trace<S>>, filter: MeetingListFilter) -> (r: Result<Vec<MeetingSummary>, StorageError>)
    requires
        ran(old(t)@.0, old(t)@.1, *old(adapter)),
    ensures
        final(t)@ == (old(t)@.0, old(t)@.1.push((*old(adapter), RegistryCall::ListFiltered { filter: filter@ }, *final(adapter), RegistryAnswer::Summaries(rows(r))))),
        ran(final(t)@.0, final(t)@.1, *final(adapter)),
{
    let ghost before = *adapter;
    let ghost g_filter = filter@;
    let r = adapter.list_meetings_filtered(filter);
    let ghost s: Step<S> = (before, RegistryCall::ListFiltered { filter: g_filter }, *adapter, RegistryAnswer::Summaries(rows(r)));
    assert(t@.1.push(s).drop_last() =~= t@.1);
    *t = Ghost((t@.0, t@.1.push(s)));
    r
}

/// `update_meeting_ended` on the adapter, recorded as the next step of the trace.
pub(crate) fn t_update_meeting_ended<S: Storage>(adapter: &mut S, t: &mut Ghost<Trace<S>>, id: &str, ended_at: &str, duration_ms: u64) -> (r: Result<Meeting, StorageError>)
    requires
        ran(old(t)@.0, old(t)@.1, *old(adapter)),
    ensures
        final(t)@ == (old(t)@.0, old(t)@.1.push((*old(adapter), RegistryCall::UpdateEnded { id: id@, ended_at: ended_at@, duration_ms: duration_ms }, *final(adapter), RegistryAnswer::Meeting(res(r))))),
        ran(final(t)@.0, final(t)@.1, *final(adapter)),
{
    let ghost before = *adapter;
    let ghost g_id = id@;
    let ghost g_ended_at = ended_at@;
    let ghost g_duration_ms = duration_ms;
    let r = adapter.update_meeting_ended(id, ended_at, duration_ms);
    let ghost s: Step<S> = (before, RegistryCall::UpdateEnded { id: g_id, ended_at: g_ended_at, duration_ms: g_duration_ms }, *adapter, RegistryAnswer::Meeting(res(r)));
    assert(t@.1.push(s).drop_last() =~= t@.1);
    *t = Ghost((t@.0, t@.1.push(s)));
    r
}

/// `update_meeting_language` on the adapter, recorded as the next step of the trace.
pub(crate) fn t_update_meeting_language<S: Storage>(adapter: &mut S, t: &mut Ghost<Trace<S>>, id: &str, language: &str) -> (r: Result<Meeting, StorageError>)
    requires
        ran(old(t)@.0, old(t)@.1, *old(adapter)),
    ensures
        final(t)@ == (old(t)@.0, old(t)@.1.push((*old(adapter), RegistryCall::UpdateLanguage { id: id@, language: language@ }, *final(adapter), RegistryAnswer::Meeting(res(r))))),
        ran(final(t)@.0, final(t)@.1, *final(adapter)),
{
    let ghost before = *adapter;
    let ghost g_id = id@;
    let ghost g_language = language@;
    let r = adapter.update_meeting_language(id, language);
    let ghost s: Step<S> = (before, RegistryCall::UpdateLanguage { id: g_id, language: g_language }, *adapter, RegistryAnswer::Meeting(res(r)));
    assert(t@.1.push(s).drop_last() =~= t@.1);
    *t = Ghost((t@.0, t@.1.push(s)));
    r
}

/// `rename_meeting` on the adapter, recorded as the next step of the trace.
pub(crate) fn t_rename_meeting<S: Storage>(adapter: &mut S, t: &mut Ghost<Trace<S>>, id: &str, title: &str) -> (r: Result<Meeting, StorageError>)
    requires
        ran(old(t)@.0, old(t)@.1, *old(adapter)),
    ensures
        final(t)@ == (old(t)@.0, old(t)@.1.push((*old(adapter), RegistryCall::Rename { id: id@, title: title@ }, *final(adapter), RegistryAnswer::Meeting(res(r))))),
        ran(final(t)@.0, final(t)@.1, *final(adapter)),
{
    let ghost before = *adapter;
    let ghost g_id = id@;
    let ghost g_title = title@;
    let r = adapter.rename_meeting(id, title);
    let ghost s: Step<S> = (before, RegistryCall::Rename { id: g_id, title: g_title }, *adapter, RegistryAnswer::Meeting(res(r)));
    assert(t@.1.push(s).drop_last() =~= t@.1);
    *t = Ghost((t@.0, t@.1.push(s)));
    r
}

/// `delete_meeting` on the adapter, recorded as the next step of the trace.
pub(crate) fn t_delete_meeting<S: Storage>(adapter: &mut S, t: &mut Ghost<Trace<S>>, id: &str) -> (r: Result<(), StorageError>)
    requires
        ran(old(t)@.0, old(t)@.1, *old(adapter)),
    ensures
        final(t)@ == (old(t)@.0, old(t)@.1.push((*old(adapter), RegistryCall::DeleteMeeting { id: id@ }, *final(adapter), RegistryAnswer::Unit(unit_res(r))))),
        ran(final(t)@.0, final(t)@.1, *final(adapter)),
{
    let ghost before = *adapter;
    let ghost g_id = id@;
    let r = adapter.delete_meeting(id);
    let ghost s: Step<S> = (before, RegistryCall::DeleteMeeting { id: g_id }, *adapter, RegistryAnswer::Unit(unit_res(r)));
    assert(t@.1.push(s).drop_last() =~= t@.1);
    *t = Ghost((t@.0, t@.1.push(s)));
    r
}

/// `create_note` on the adapter, recorded as the next step of the trace.
pub(crate) fn t_create_note<S: Storage>(adapter: &mut S, t: &mut Ghost<Trace<S>>, draft: NoteDraft) -> (r: Result<Note, StorageError>)
    requires
        ran(old(t)@.0, old(t)@.1, *old(adapter)),
    ensures
        final(t)@ == (old(t)@.0, old(t)@.1.push((*old(adapter), RegistryCall::CreateNote { draft: draft@ }, *final(adapter), RegistryAnswer::Note(res(r))))),
        ran(final(t)@.0, final(t)@.1, *final(adapter)),
{
    let ghost before = *adapter;
    let ghost g_draft = draft@;
    let r = adapter.create_note(draft);
    let ghost s: Step<S> = (before, RegistryCall::CreateNote { draft: g_draft }, *adapter, RegistryAnswer::Note(res(r)));
    assert(t@.1.push(s).drop_last() =~= t@.1);
    *t = Ghost((t@.0, t@.1.push(s)));
    r
}

/// `list_notes_for_meeting` on the adapter, recorded as the next step of the trace.
pub(crate) fn t_list_notes_for_meeting<S: Storage>(adapter: &mut S, t: &mut Ghost<Trace<S>>, meeting_id: &str) -> (r: Result<Vec<Note>, StorageError>)
    requires
        ran(old(t)@.0, old(t)@.1, *old(adapter)),
    ensures
        final(t)@ == (old(t)@.0, old(t)@.1.push((*old(adapter), RegistryCall::ListNotes { meeting_id: meeting_id@ }, *final(adapter), RegistryAnswer::Notes(rows(r))))),
        ran(final(t)@.0, final(t)@.1, *final(adapter)),
{
    let ghost before = *adapter;
    let ghost g_meeting_id = meeting_id@;
    let r = adapter.list_notes_for_meeting(meeting_id);
    let ghost s: Step<S> = (before, RegistryCall::ListNotes { meeting_id: g_meeting_id }, *adapter, RegistryAnswer::Notes(rows(r)));
    assert(t@.1.push(s).drop_last() =~= t@.1);
    *t = Ghost((t@.0, t@.1.push(s)));
    r
}

/// `replace_meeting_note` on the adapter, recorded as the next step of the trace.
pub(crate) fn t_replace_meeting_note<S: Storage>(adapter: &mut S, t: &mut Ghost<Trace<S>>, meeting_id: &str, draft: NoteDraft) -> (r: Result<Note, StorageError>)
    requires
        ran(old(t)@.0, old(t)@.1, *old(adapter)),
    ensures
        final(t)@ == (old(t)@.0, old(t)@.1.push((*old(adapter), RegistryCall::ReplaceNote { meeting_id: meeting_id@, draft: draft@ }, *final(adapter), RegistryAnswer::Note(res(r))))),
        ran(final(t)@.0, final(t)@.1, *final(adapter)),
{
    let ghost before = *adapter;
    let ghost g_meeting_id = meeting_id@;
    let ghost g_draft = draft@;
    let r = adapter.replace_meeting_note(meeting_id, draft);
    let ghost s: Step<S> = (before, RegistryCall::ReplaceNote { meeting_id: g_meeting_id, draft: g_draft }, *adapter, RegistryAnswer::Note(res(r)));
    assert(t@.1.push(s).drop_last() =~= t@.1);
    *t = Ghost((t@.0, t@.1.push(s)));
    r
}

/// `create_space` on the adapter, recorded as the next step of the trace.
pub(crate) fn t_create_space<S: Storage>(adapter: &mut S, t: &mut Ghost<Trace<S>>, name: &str) -> (r: Result<Space, StorageError>)
    requires
        ran(old(t)@.0, old(t)@.1, *old(adapter)),
    ensures
        final(t)@ == (old(t)@.0, old(t)@.1.push((*old(adapter), RegistryCall::CreateSpace { name: name@ }, *final(adapter), RegistryAnswer::Space(res(r))))),
        ran(final(t)@.0, final(t)@.1, *final(adapter)),
{
    let ghost before = *adapter;
    let ghost g_name = name@;
    let r = adapter.create_space(name);
    let ghost s: Step<S> = (before, RegistryCall::CreateSpace { name: g_name }, *adapter, RegistryAnswer::Space(res(r)));
    assert(t@.1.push(s).drop_last() =~= t@.1);
    *t = Ghost((t@.0, t@.1.push(s)));
    r
}

/// `list_spaces` on the adapter, recorded as the next step of the trace.
pub(crate) fn t_list_spaces<S: Storage>(adapter: &mut S, t: &mut Ghost<Trace<S>>) -> (r: Result<Vec<Space>, StorageError>)
    requires
        ran(old(t)@.0, old(t)@.1, *old(adapter)),
    ensures
        final(t)@ == (old(t)@.0, old(t)@.1.push((*old(adapter), RegistryCall::ListSpaces, *final(adapter), RegistryAnswer::Spaces(rows(r))))),
        ran(final(t)@.0, final(t)@.1, *final(adapter)),
{
    let ghost before = *adapter;
    let r = adapter.list_spaces();
    let ghost s: Step<S> = (before, RegistryCall::ListSpaces, *adapter, RegistryAnswer::Spaces(rows(r)));
    assert(t@.1.push(s).drop_last() =~= t@.1);
    *t = Ghost((t@.0, t@.1.push(s)));
    r
}

/// `rename_space` on the adapter, recorded as the next step of the trace.
pub(crate) fn t_rename_space<S: Storage>(adapter: &mut S, t: &mut Ghost<Trace<S>>, id: &str, name: &str) -> (r: Result<(), StorageError>)
    requires
        ran(old(t)@.0, old(t)@.1, *old(adapter)),
    ensures
        final(t)@ == (old(t)@.0, old(t)@.1.push((*old(adapter), RegistryCall::RenameSpace { id: id@, name: name@ }, *final(adapter), RegistryAnswer::Unit(unit_res(r))))),
        ran(final(t)@.0, final(t)@.1, *final(adapter)),
{
    let ghost before = *adapter;
    let ghost g_id = id@;
    let ghost g_name = name@;
    let r = adapter.rename_space(id, name);
    let ghost s: Step<S> = (before, RegistryCall::RenameSpace { id: g_id, name: g_name }, *adapter, RegistryAnswer::Unit(unit_res(r)));
    assert(t@.1.push(s).drop_last() =~= t@.1);
    *t = Ghost((t@.0, t@.1.push(s)));
    r
}

/// `delete_space` on the adapter, recorded as the next step of the trace.
pub(crate) fn t_delete_space<S: Storage>(adapter: &mut S, t: &mut Ghost<Trace<S>>, id: &str) -> (r: Result<(), StorageError>)
    requires
        ran(old(t)@.0, old(t)@.1, *old(adapter)),
    ensures
        final(t)@ == (old(t)@.0, old(t)@.1.push((*old(adapter), RegistryCall::DeleteSpace { id: id@ }, *final(adapter), RegistryAnswer::Unit(unit_res(r))))),
        ran(final(t)@.0, final(t)@.1, *final(adapter)),
{
    let ghost before = *adapter;
    let ghost g_id = id@;
    let r = adapter.delete_space(id);
    let ghost s: Step<S> = (before, RegistryCall::DeleteSpace { id: g_id }, *adapter, RegistryAnswer::Unit(unit_res(r)));
    assert(t@.1.push(s).drop_last() =~= t@.1);
    *t = Ghost((t@.0, t@.1.push(s)));
    r
}

/// `create_project` on the adapter, recorded as the next step of the trace.
pub(crate) fn t_create_project<S: Storage>(adapter: &mut S, t: &mut Ghost<Trace<S>>, space_id: &str, name: &str) -> (r: Result<Project, StorageError>)
    requires
        ran(old(t)@.0, old(t)@.1, *old(adapter)),
    ensures
        final(t)@ == (old(t)@.0, old(t)@.1.push((*old(adapter), RegistryCall::CreateProject { space_id: space_id@, name: name@ }, *final(adapter), RegistryAnswer::Project(res(r))))),
        ran(final(t)@.0, final(t)@.1, *final(adapter)),
{
    let ghost before = *adapter;
    let ghost g_space_id = space_id@;
    let ghost g_name = name@;
    let r = adapter.create_project(space_id, name);
    let ghost s: Step<S> = (before, RegistryCall::CreateProject { space_id: g_space_id, name: g_name }, *adapter, RegistryAnswer::Project(res(r)));
    assert(t@.1.push(s).drop_last() =~= t@.1);
    *t = Ghost((t@.0, t@.1.push(s)));
    r
}

/// `list_projects` on the adapter, recorded as the next step of the trace.
pub(crate) fn t_list_projects<S: Storage>(adapter: &mut S, t: &mut Ghost<Trace<S>>, space_id: Option<&str>) -> (r: Result<Vec<Project>, StorageError>)
    requires
        ran(old(t)@.0, old(t)@.1, *old(adapter)),
    ensures
        final(t)@ == (old(t)@.0, old(t)@.1.push((*old(adapter), RegistryCall::ListProjects { space_id: opt_str(space_id) }, *final(adapter), RegistryAnswer::Projects(rows(r))))),
        ran(final(t)@.0, final(t)@.1, *final(adapter)),
{
    let ghost before = *adapter;
    let ghost g_space_id = opt_str(space_id);
    let r = adapter.list_projects(space_id);
    let ghost s: Step<S> = (before, RegistryCall::ListProjects { space_id: g_space_id }, *adapter, RegistryAnswer::Projects(rows(r)));
    assert(t@.1.push(s).drop_last() =~= t@.1);
    *t = Ghost((t@.0, t@.1.push(s)));
    r
}

/// `rename_project` on the adapter, recorded as the next step of the trace.
pub(crate) fn t_rename_project<S: Storage>(adapter: &mut S, t: &mut Ghost<Trace<S>>, id: &str, name: &str) -> (r: Result<(), StorageError>)
    requires
        ran(old(t)@.0, old(t)@.1, *old(adapter)),
    ensures
        final(t)@ == (old(t)@.0, old(t)@.1.push((*old(adapter), RegistryCall::RenameProject { id: id@, name: name@ }, *final(adapter), RegistryAnswer::Unit(unit_res(r))))),
        ran(final(t)@.0, final(t)@.1, *final(adapter)),
{
    let ghost before = *adapter;
    let ghost g_id = id@;
    let ghost g_name = name@;
    let r = adapter.rename_project(id, name);
    let ghost s: Step<S> = (before, RegistryCall::RenameProject { id: g_id, name: g_name }, *adapter, RegistryAnswer::Unit(unit_res(r)));
    assert(t@.1.push(s).drop_last() =~= t@.1);
    *t = Ghost((t@.0, t@.1.push(s)));
    r
}

/// `delete_project` on the adapter, recorded as the next step of the trace.
pub(crate) fn t_delete_project<S: Storage>(adapter: &mut S, t: &mut Ghost<Trace<S>>, id: &str) -> (r: Result<(), StorageError>)
    requires
        ran(old(t)@.0, old(t)@.1, *old(adapter)),
    ensures
        final(t)@ == (old(t)@.0, old(t)@.1.push((*old(adapter), RegistryCall::DeleteProject { id: id@ }, *final(adapter), RegistryAnswer::Unit(unit_res(r))))),
        ran(final(t)@.0, final(t)@.1, *final(adapter)),
{
    let ghost before = *adapter;
    let ghost g_id = id@;
    let r = adapter.delete_project(id);
    let ghost s: Step<S> = (before, RegistryCall::DeleteProject { id: g_id }, *adapter, RegistryAnswer::Unit(unit_res(r)));
    assert(t@.1.push(s).drop_last() =~= t@.1);
    *t = Ghost((t@.0, t@.1.push(s)));
    r
}

/// `create_tag` on the adapter, recorded as the next step of the trace.
pub(crate) fn t_create_tag<S: Storage>(adapter: &mut S, t: &mut Ghost<Trace<S>>, name: &str) -> (r: Result<Tag, StorageError>)
    requires
        ran(old(t)@.0, old(t)@.1, *old(adapter)),
    ensures
        final(t)@ == (old(t)@.0, old(t)@.1.push((*old(adapter), RegistryCall::CreateTag { name: name@ }, *final(adapter), RegistryAnswer::Tag(res(r))))),
        ran(final(t)@.0, final(t)@.1, *final(adapter)),
{
    let ghost before = *adapter;
    let ghost g_name = name@;
    let r = adapter.create_tag(name);
    let ghost s: Step<S> = (before, RegistryCall::CreateTag { name: g_name }, *adapter, RegistryAnswer::Tag(res(r)));
    assert(t@.1.push(s).drop_last() =~= t@.1);
    *t = Ghost((t@.0, t@.1.push(s)));
    r
}

/// `list_tags` on the adapter, recorded as the next step of the trace.
pub(crate) fn t_list_tags<S: Storage>(adapter: &mut S, t: &mut Ghost<Trace<S>>) -> (r: Result<Vec<Tag>, StorageError>)
    requires
        ran(old(t)@.0, old(t)@.1, *old(adapter)),
    ensures
        final(t)@ == (old(t)@.0, old(t)@.1.push((*old(adapter), RegistryCall::ListTags, *final(adapter), RegistryAnswer::Tags(rows(r))))),
        ran(final(t)@.0, final(t)@.1, *final(adapter)),
{
    let ghost before = *adapter;
    let r = adapter.list_tags();
    let ghost s: Step<S> = (before, RegistryCall::ListTags, *adapter, RegistryAnswer::Tags(rows(r)));
    assert(t@.1.push(s).drop_last() =~= t@.1);
    *t = Ghost((t@.0, t@.1.push(s)));
    r
}

/// `delete_tag` on the adapter, recorded as the next step of the trace.
pub(crate) fn t_delete_tag<S: Storage>(adapter: &mut S, t: &mut Ghost<Trace<S>>, id: &str) -> (r: Result<(), StorageError>)
    requires
        ran(old(t)@.0, old(t)@.1, *old(adapter)),
    ensures
        final(t)@ == (old(t)@.0, old(t)@.1.push((*old(adapter), RegistryCall::DeleteTag { id: id@ }, *final(adapter), RegistryAnswer::Unit(unit_res(r))))),
        ran(final(t)@.0, final(t)@.1, *final(adapter)),
{
    let ghost before = *adapter;
    let ghost g_id = id@;
    let r = adapter.delete_tag(id);
    let ghost s: Step<S> = (before, RegistryCall::DeleteTag { id: g_id }, *adapter, RegistryAnswer::Unit(unit_res(r)));
    assert(t@.1.push(s).drop_last() =~= t@.1);
    *t = Ghost((t@.0, t@.1.push(s)));
    r
}

/// `tag_meeting` on the adapter, recorded as the next step of the trace.
pub(crate) fn t_tag_meeting<S: Storage>(adapter: &mut S, t: &mut Ghost<Trace<S>>, meeting_id: &str, tag_id: &str) -> (r: Result<(), StorageError>)
    requires
        ran(old(t)@.0, old(t)@.1, *old(adapter)),
    ensures
        final(t)@ == (old(t)@.0, old(t)@.1.push((*old(adapter), RegistryCall::TagMeeting { meeting_id: meeting_id@, tag_id: tag_id@ }, *final(adapter), RegistryAnswer::Unit(unit_res(r))))),
        ran(final(t)@.0, final(t)@.1, *final(adapter)),
{
    let ghost before = *adapter;
    let ghost g_meeting_id = meeting_id@;
    let ghost g_tag_id = tag_id@;
    let r = adapter.tag_meeting(meeting_id, tag_id);
    let ghost s: Step<S> = (before, RegistryCall::TagMeeting { meeting_id: g_meeting_id, tag_id: g_tag_id }, *adapter, RegistryAnswer::Unit(unit_res(r)));
    assert(t@.1.push(s).drop_last() =~= t@.1);
    *t = Ghost((t@.0, t@.1.push(s)));
    r
}

/// `untag_meeting` on the adapter, recorded as the next step of the trace.
pub(crate) fn t_untag_meeting<S: Storage>(adapter: &mut S, t: &mut Ghost<Trace<S>>, meeting_id: &str, tag_id: &str) -> (r: Result<(), StorageError>)
    requires
        ran(old(t)@.0, old(t)@.1, *old(adapter)),
    ensures
        final(t)@ == (old(t)@.0, old(t)@.1.push((*old(adapter), RegistryCall::UntagMeeting { meeting_id: meeting_id@, tag_id: tag_id@ }, *final(adapter), RegistryAnswer::Unit(unit_res(r))))),
        ran(final(t)@.0, final(t)@.1, *final(adapter)),
{
    let ghost before = *adapter;
    let ghost g_meeting_id = meeting_id@;
    let ghost g_tag_id = tag_id@;
    let r = adapter.untag_meeting(meeting_id, tag_id);
    let ghost s: Step<S> = (before, RegistryCall::UntagMeeting { meeting_id: g_meeting_id, tag_id: g_tag_id }, *adapter, RegistryAnswer::Unit(unit_res(r)));
    assert(t@.1.push(s).drop_last() =~= t@.1);
    *t = Ghost((t@.0, t@.1.push(s)));
    r
}

/// `list_tags_for_meeting` on the adapter, recorded as the next step of the trace.
pub(crate) fn t_list_tags_for_meeting<S: Storage>(adapter: &mut S, t: &mut Ghost<Trace<S>>, meeting_id: &str) -> (r: Result<Vec<Tag>, StorageError>)
    requires
        ran(old(t)@.0, old(t)@.1, *old(adapter)),
    ensures
        final(t)@ == (old(t)@.0, old(t)@.1.push((*old(adapter), RegistryCall::TagsFor { meeting_id: meeting_id@ }, *final(adapter), RegistryAnswer::Tags(rows(r))))),
        ran(final(t)@.0, final(t)@.1, *final(adapter)),
{
    let ghost before = *adapter;
    let ghost g_meeting_id = meeting_id@;
    let r = adapter.list_tags_for_meeting(meeting_id);
    let ghost s: Step<S> = (before, RegistryCall::TagsFor { meeting_id: g_meeting_id }, *adapter, RegistryAnswer::Tags(rows(r)));
    assert(t@.1.push(s).drop_last() =~= t@.1);
    *t = Ghost((t@.0, t@.1.push(s)));
    r
}

/// `assign_meeting` on the adapter, recorded as the next step of the trace.
pub(crate) fn t_assign_meeting<S: Storage>(adapter: &mut S, t: &mut Ghost<Trace<S>>, meeting_id: &str, space_id: Option<String>, project_id: Option<String>) -> (r: Result<(), StorageError>)
    requires
        ran(old(t)@.0, old(t)@.1, *old(adapter)),
    ensures
        final(t)@ == (old(t)@.0, old(t)@.1.push((*old(adapter), RegistryCall::Assign { meeting_id: meeting_id@, space_id: opt_view(space_id), project_id: opt_view(project_id) }, *final(adapter), RegistryAnswer::Unit(unit_res(r))))),
        ran(final(t)@.0, final(t)@.1, *final(adapter)),
{
    let ghost before = *adapter;
    let ghost g_meeting_id = meeting_id@;
    let ghost g_space_id = opt_view(space_id);
    let ghost g_project_id = opt_view(project_id);
    let r = adapter.assign_meeting(meeting_id, space_id, project_id);
    let ghost s: Step<S> = (before, RegistryCall::Assign { meeting_id: g_meeting_id, space_id: g_space_id, project_id: g_project_id }, *adapter, RegistryAnswer::Unit(unit_res(r)));
    assert(t@.1.push(s).drop_last() =~= t@.1);
    *t = Ghost((t@.0, t@.1.push(s)));
    r
}

/// `create_meeting_with_note` on the adapter, recorded as the next step of the trace.
pub(crate) fn t_create_meeting_with_note<S: Storage>(adapter: &mut S, t: &mut Ghost<Trace<S>>, meeting: MeetingDraft, note: NoteDraft, ended_at: Option<&str>, duration_ms: Option<u64>) -> (r: Result<(Meeting, Note), StorageError>)
    requires
        ran(old(t)@.0, old(t)@.1, *old(adapter)),
    ensures
        final(t)@ == (old(t)@.0, old(t)@.1.push((*old(adapter), RegistryCall::CreateWithNote { meeting: meeting@, note: note@, ended_at: opt_str(ended_at), duration_ms: duration_ms }, *final(adapter), RegistryAnswer::Pair(res(r))))),
        ran(final(t)@.0, final(t)@.1, *final(adapter)),
{
    let ghost before = *adapter;
    let ghost g_meeting = meeting@;
    let ghost g_note = note@;
    let ghost g_ended_at = opt_str(ended_at);
    let ghost g_duration_ms = duration_ms;
    let r = adapter.create_meeting_with_note(meeting, note, ended_at, duration_ms);
    let ghost s: Step<S> = (before, RegistryCall::CreateWithNote { meeting: g_meeting, note: g_note, ended_at: g_ended_at, duration_ms: g_duration_ms }, *adapter, RegistryAnswer::Pair(res(r)));
    assert(t@.1.push(s).drop_last() =~= t@.1);
    *t = Ghost((t@.0, t@.1.push(s)));
    r
}

} // verus!
