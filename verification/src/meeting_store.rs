//! Per-meeting content storage: segments, screenshots and speakers.
//!
//! Distinct from the cross-meeting registry (`storage`): the registry holds
//! meeting lifecycles and notes, this port holds one meeting's content.
//! Segment confidences are kept as the IEEE-754 bits of the `f32` score.

use vstd::prelude::*;
use vstd::std_specs::convert::FromSpecImpl;

use crate::segment::copy_opt_string;
use crate::stdtypes::{io_error_to_string, prefixed_opaque};
use crate::text::{push_signed_decimal, push_str, signed_decimal};

verus! {

/// A transcribed segment stored for a meeting.
#[derive(Debug, Clone, PartialEq)]
pub struct SegmentRow {
    pub id: i64,
    pub meeting_id: String,
    pub start_ms: u64,
    pub end_ms: u64,
    pub text: String,
    pub language: Option<String>,
    /// Bits of the `f32` confidence, when there is one.
    pub confidence_bits: Option<u32>,
    pub speaker_id: Option<i64>,
    /// Where the segment came from: `post_pass` or `live`.
    pub source: String,
}

/// What a caller supplies to store a segment.
#[derive(Debug, Clone, PartialEq)]
pub struct SegmentDraft {
    pub meeting_id: String,
    pub start_ms: u64,
    pub end_ms: u64,
    pub text: String,
    pub language: Option<String>,
    pub confidence_bits: Option<u32>,
    pub speaker_id: Option<i64>,
    pub source: String,
}

/// A captured screenshot stored for a meeting.
#[derive(Debug, Clone, PartialEq)]
pub struct ScreenshotRow {
    pub id: i64,
    pub meeting_id: String,
    pub timestamp_ms: u64,
    pub path: String,
    /// Vision feature-print blob, for deduplication and search.
    pub feature_print: Option<Vec<u8>>,
    pub caption: Option<String>,
}

/// What a caller supplies to store a screenshot.
#[derive(Debug, Clone, PartialEq)]
pub struct ScreenshotDraft {
    pub meeting_id: String,
    pub timestamp_ms: u64,
    pub path: String,
    pub feature_print: Option<Vec<u8>>,
    pub caption: Option<String>,
}

/// An identified speaker of a meeting.
#[derive(Debug, Clone, PartialEq)]
pub struct SpeakerRow {
    pub id: i64,
    pub meeting_id: String,
    pub label: String,
    /// Speaker embedding vector.
    pub embedding: Option<Vec<u8>>,
}

/// What a caller supplies to store a speaker.
#[derive(Debug, Clone, PartialEq)]
pub struct SpeakerDraft {
    pub meeting_id: String,
    pub label: String,
    pub embedding: Option<Vec<u8>>,
}

/// Why a meeting-store operation failed.
#[derive(Debug)]
pub enum MeetingStoreError {
    MeetingNotFound { meeting_id: String },
    SegmentNotFound { id: i64 },
    ScreenshotNotFound { id: i64 },
    SpeakerNotFound { id: i64 },
    Io(std::io::Error),
    Sql { message: String },
}

/// The mathematical value of a `MeetingStoreError`.
pub enum MeetingStoreErrorModel {
    MeetingNotFound { meeting_id: Seq<char> },
    SegmentNotFound { id: i64 },
    ScreenshotNotFound { id: i64 },
    SpeakerNotFound { id: i64 },
    Io,
    Sql { message: Seq<char> },
}

impl View for MeetingStoreError {
    type V = MeetingStoreErrorModel;

    open spec fn view(&self) -> MeetingStoreErrorModel {
        match self {
            MeetingStoreError::MeetingNotFound { meeting_id } => MeetingStoreErrorModel::MeetingNotFound {
                meeting_id: meeting_id@,
            },
            MeetingStoreError::SegmentNotFound { id } => MeetingStoreErrorModel::SegmentNotFound {
                id: *id,
            },
            MeetingStoreError::ScreenshotNotFound { id } => MeetingStoreErrorModel::ScreenshotNotFound {
                id: *id,
            },
            MeetingStoreError::SpeakerNotFound { id } => MeetingStoreErrorModel::SpeakerNotFound {
                id: *id,
            },
            MeetingStoreError::Io(_) => MeetingStoreErrorModel::Io,
            MeetingStoreError::Sql { message } => MeetingStoreErrorModel::Sql { message: message@ },
        }
    }
}

impl MeetingStoreError {
    /// A `Sql` error carrying `message`.
    pub fn sql(message: &str) -> (r: Self)
        ensures
            r@ == (MeetingStoreErrorModel::Sql { message: message@ }),
    {
        MeetingStoreError::Sql { message: message.to_owned() }
    }

    /// The error's message: `meeting not found: {meeting_id}`, `segment not
    /// found: {id}`, `screenshot not found: {id}`, `speaker not found:
    /// {id}`, `io error: {0}` or `sql error: {message}`.
    pub fn message(&self) -> (r: String)
        ensures
            match self {
                MeetingStoreError::MeetingNotFound { meeting_id } => r@ == "meeting not found: "@
                    + meeting_id@,
                MeetingStoreError::SegmentNotFound { id } => r@ == "segment not found: "@
                    + signed_decimal(*id as int),
                MeetingStoreError::ScreenshotNotFound { id } => r@ == "screenshot not found: "@
                    + signed_decimal(*id as int),
                MeetingStoreError::SpeakerNotFound { id } => r@ == "speaker not found: "@
                    + signed_decimal(*id as int),
                MeetingStoreError::Io(_) => "io error: "@.is_prefix_of(r@),
                MeetingStoreError::Sql { message } => r@ == "sql error: "@ + message@,
            },
    {
        let mut s = String::new();
        match self {
            MeetingStoreError::MeetingNotFound { meeting_id } => {
                push_str(&mut s, "meeting not found: ");
                push_str(&mut s, meeting_id.as_str());
            },
            MeetingStoreError::SegmentNotFound { id } => {
                push_str(&mut s, "segment not found: ");
                push_signed_decimal(&mut s, *id);
            },
            MeetingStoreError::ScreenshotNotFound { id } => {
                push_str(&mut s, "screenshot not found: ");
                push_signed_decimal(&mut s, *id);
            },
            MeetingStoreError::SpeakerNotFound { id } => {
                push_str(&mut s, "speaker not found: ");
                push_signed_decimal(&mut s, *id);
            },
            MeetingStoreError::Io(e) => {
                s = prefixed_opaque("io error: ", io_error_to_string(e));
            },
            MeetingStoreError::Sql { message } => {
                push_str(&mut s, "sql error: ");
                push_str(&mut s, message.as_str());
            },
        }
        s
    }
}

impl From<std::io::Error> for MeetingStoreError {
    fn from(e: std::io::Error) -> (r: Self) {
        MeetingStoreError::Io(e)
    }
}

impl FromSpecImpl<std::io::Error> for MeetingStoreError {
    open spec fn obeys_from_spec() -> bool {
        true
    }

    open spec fn from_spec(v: std::io::Error) -> Self {
        MeetingStoreError::Io(v)
    }
}

/// A stored segment, as values.
pub struct SegmentModel {
    pub id: i64,
    pub meeting_id: Seq<char>,
    pub start_ms: u64,
    pub end_ms: u64,
    pub text: Seq<char>,
    pub language: Option<Seq<char>>,
    pub confidence_bits: Option<u32>,
    pub speaker_id: Option<i64>,
    pub source: Seq<char>,
}

impl View for SegmentRow {
    type V = SegmentModel;

    open spec fn view(&self) -> SegmentModel {
        SegmentModel {
            id: self.id,
            meeting_id: self.meeting_id@,
            start_ms: self.start_ms,
            end_ms: self.end_ms,
            text: self.text@,
            language: crate::storage::opt_view(self.language),
            confidence_bits: self.confidence_bits,
            speaker_id: self.speaker_id,
            source: self.source@,
        }
    }
}

/// A stored screenshot, as values.
pub struct ScreenshotModel {
    pub id: i64,
    pub meeting_id: Seq<char>,
    pub timestamp_ms: u64,
    pub path: Seq<char>,
    pub feature_print: Option<Seq<u8>>,
    pub caption: Option<Seq<char>>,
}

/// An optional byte vector's contents.
pub open spec fn opt_bytes(o: Option<Vec<u8>>) -> Option<Seq<u8>> {
    match o {
        Some(v) => Some(v@),
        None => None,
    }
}

impl View for ScreenshotRow {
    type V = ScreenshotModel;

    open spec fn view(&self) -> ScreenshotModel {
        ScreenshotModel {
            id: self.id,
            meeting_id: self.meeting_id@,
            timestamp_ms: self.timestamp_ms,
            path: self.path@,
            feature_print: opt_bytes(self.feature_print),
            caption: crate::storage::opt_view(self.caption),
        }
    }
}

/// A stored speaker, as values.
pub struct SpeakerModel {
    pub id: i64,
    pub meeting_id: Seq<char>,
    pub label: Seq<char>,
    pub embedding: Option<Seq<u8>>,
}

impl View for SpeakerRow {
    type V = SpeakerModel;

    open spec fn view(&self) -> SpeakerModel {
        SpeakerModel {
            id: self.id,
            meeting_id: self.meeting_id@,
            label: self.label@,
            embedding: opt_bytes(self.embedding),
        }
    }
}

/// Copies a byte vector.
pub fn copy_bytes(v: &Vec<u8>) -> (r: Vec<u8>)
    ensures
        r@ == v@,
{
    let mut out: Vec<u8> = Vec::new();
    let mut i: usize = 0;
    while i < v.len()
        invariant
            i <= v.len(),
            out@ == v@.take(i as int),
        decreases v.len() - i,
    {
        out.push(v[i]);
        assert(out@ =~= v@.take(i + 1));
        i = i + 1;
    }
    assert(v@.take(i as int) =~= v@);
    out
}

/// Copies an optional byte vector.
pub fn copy_opt_bytes(o: &Option<Vec<u8>>) -> (r: Option<Vec<u8>>)
    ensures
        opt_bytes(r) == opt_bytes(*o),
{
    match o {
        Some(v) => Some(copy_bytes(v)),
        None => None,
    }
}

impl SegmentRow {
    /// A field-by-field copy.
    pub fn duplicate(&self) -> (r: SegmentRow)
        ensures
            r@ == self@,
    {
        SegmentRow {
            id: self.id,
            meeting_id: self.meeting_id.clone(),
            start_ms: self.start_ms,
            end_ms: self.end_ms,
            text: self.text.clone(),
            language: copy_opt_string(&self.language),
            confidence_bits: self.confidence_bits,
            speaker_id: self.speaker_id,
            source: self.source.clone(),
        }
    }
}

impl ScreenshotRow {
    /// A field-by-field copy.
    pub fn duplicate(&self) -> (r: ScreenshotRow)
        ensures
            r@ == self@,
    {
        ScreenshotRow {
            id: self.id,
            meeting_id: self.meeting_id.clone(),
            timestamp_ms: self.timestamp_ms,
            path: self.path.clone(),
            feature_print: copy_opt_bytes(&self.feature_print),
            caption: copy_opt_string(&self.caption),
        }
    }
}

impl SpeakerRow {
    /// A field-by-field copy.
    pub fn duplicate(&self) -> (r: SpeakerRow)
        ensures
            r@ == self@,
    {
        SpeakerRow {
            id: self.id,
            meeting_id: self.meeting_id.clone(),
            label: self.label.clone(),
            embedding: copy_opt_bytes(&self.embedding),
        }
    }
}

/// A result as values.
pub open spec fn store_result<T: View>(r: Result<T, MeetingStoreError>) -> Result<T::V, MeetingStoreErrorModel> {
    match r {
        Ok(v) => Ok(v@),
        Err(e) => Err(e@),
    }
}

/// A list result as values.
pub open spec fn store_rows<T: View>(r: Result<Vec<T>, MeetingStoreError>) -> Result<Seq<T::V>, MeetingStoreErrorModel> {
    match r {
        Ok(v) => Ok(v@.map_values(|x: T| x@)),
        Err(e) => Err(e@),
    }
}

/// A call on a `MeetingStore`, with its arguments.
pub ghost enum StoreCall {
    CreateSegment { draft: SegmentDraft },
    ListSegments { meeting_id: Seq<char> },
    CreateScreenshot { draft: ScreenshotDraft },
    ListScreenshots { meeting_id: Seq<char> },
    CreateSpeaker { draft: SpeakerDraft },
    ListSpeakers { meeting_id: Seq<char> },
    GetSpeaker { id: i64 },
    RelabelSpeaker { id: i64, label: Seq<char> },
}

/// The answer to a `MeetingStore` call, as values.
pub ghost enum StoreAnswer {
    Segment(Result<SegmentModel, MeetingStoreErrorModel>),
    Segments(Result<Seq<SegmentModel>, MeetingStoreErrorModel>),
    Screenshot(Result<ScreenshotModel, MeetingStoreErrorModel>),
    Screenshots(Result<Seq<ScreenshotModel>, MeetingStoreErrorModel>),
    Speaker(Result<SpeakerModel, MeetingStoreErrorModel>),
    Speakers(Result<Seq<SpeakerModel>, MeetingStoreErrorModel>),
}

/// The per-meeting content port. Ids of created rows are generated by the
/// adapter.
pub trait MeetingStore: Sized {
    /// Whether this adapter, as it stands, may take `call` to `next` and
    /// give `answer`. Unless an implementation says more, any step.
    closed spec fn step(&self, call: StoreCall, next: Self, answer: StoreAnswer) -> bool {
        true
    }

    /// Stores a segment and returns it with its id.
    fn create_segment(&mut self, draft: SegmentDraft) -> (r: Result<SegmentRow, MeetingStoreError>)
        ensures
            old(self).step(StoreCall::CreateSegment { draft }, *final(self), StoreAnswer::Segment(store_result(r))),
    ;

    /// The meeting's segments, ordered by `start_ms`.
    fn list_segments(&self, meeting_id: &str) -> (r: Result<Vec<SegmentRow>, MeetingStoreError>)
        ensures
            self.step(StoreCall::ListSegments { meeting_id: meeting_id@ }, *self, StoreAnswer::Segments(store_rows(r))),
    ;

    /// Stores a screenshot and returns it with its id.
    fn create_screenshot(&mut self, draft: ScreenshotDraft) -> (r: Result<ScreenshotRow, MeetingStoreError>)
        ensures
            old(self).step(StoreCall::CreateScreenshot { draft }, *final(self), StoreAnswer::Screenshot(store_result(r))),
    ;

    /// The meeting's screenshots, ordered by `timestamp_ms`.
    fn list_screenshots(&self, meeting_id: &str) -> (r: Result<Vec<ScreenshotRow>, MeetingStoreError>)
        ensures
            self.step(StoreCall::ListScreenshots { meeting_id: meeting_id@ }, *self, StoreAnswer::Screenshots(store_rows(r))),
    ;

    /// Stores a speaker and returns it with its id.
    fn create_speaker(&mut self, draft: SpeakerDraft) -> (r: Result<SpeakerRow, MeetingStoreError>)
        ensures
            old(self).step(StoreCall::CreateSpeaker { draft }, *final(self), StoreAnswer::Speaker(store_result(r))),
    ;

    /// The meeting's speakers.
    fn list_speakers(&self, meeting_id: &str) -> (r: Result<Vec<SpeakerRow>, MeetingStoreError>)
        ensures
            self.step(StoreCall::ListSpeakers { meeting_id: meeting_id@ }, *self, StoreAnswer::Speakers(store_rows(r))),
    ;

    /// The speaker with id `id`.
    fn get_speaker(&self, id: i64) -> (r: Result<SpeakerRow, MeetingStoreError>)
        ensures
            self.step(StoreCall::GetSpeaker { id }, *self, StoreAnswer::Speaker(store_result(r))),
    ;

    /// Renames the speaker `id`.
    fn update_speaker_label(&mut self, id: i64, label: &str) -> (r: Result<SpeakerRow, MeetingStoreError>)
        ensures
            old(self).step(StoreCall::RelabelSpeaker { id, label: label@ }, *final(self), StoreAnswer::Speaker(store_result(r))),
    ;
}

} // verus!
