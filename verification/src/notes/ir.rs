//! The structured-notes intermediate representation.
//!
//! Dates and times are plain values: a calendar date, and a local date and
//! time with its UTC offset.

use vstd::prelude::*;

use crate::notes::dialect::MarkdownDialect;
use crate::segment::copy_opt_string;

verus! {

/// A calendar date (proleptic Gregorian).
#[derive(Debug, Clone, Copy, PartialEq, Eq)]
pub struct CalendarDate {
    pub year: i32,
    pub month: u32,
    pub day: u32,
}

/// A local date and time with its offset from UTC, in seconds east.
#[derive(Debug, Clone, Copy, PartialEq, Eq)]
pub struct OffsetDateTime {
    pub date: CalendarDate,
    pub hour: u32,
    pub minute: u32,
    pub second: u32,
    pub nanosecond: u32,
    pub offset_seconds: i32,
}

impl OffsetDateTime {
    /// The local calendar date.
    pub fn date_naive(&self) -> (r: CalendarDate)
        ensures
            r == self.date,
    {
        self.date
    }
}

/// A captured screenshot, `ms_since_start` into the meeting.
#[derive(Debug, Clone, PartialEq)]
pub struct Screenshot {
    pub ms_since_start: u64,
    pub path: std::path::PathBuf,
    pub caption: Option<String>,
}

impl Screenshot {
    /// A field-by-field copy.
    pub fn duplicate(&self) -> (r: Screenshot)
        ensures
            r == *self,
    {
        Screenshot {
            ms_since_start: self.ms_since_start,
            path: self.path.clone(),
            caption: copy_opt_string(&self.caption),
        }
    }
}

/// A follow-up commitment. `owner` is usually a `speaker_N` label.
#[derive(Debug, Clone, PartialEq)]
pub struct ActionItem {
    pub description: String,
    pub owner: Option<String>,
    pub due: Option<CalendarDate>,
}

/// One section of the notes.
#[derive(Debug, PartialEq)]
pub struct NotesSection {
    /// Position, counted from 1.
    pub index: u32,
    pub title: String,
    pub time_range_ms: (u64, u64),
    pub narrative_md: String,
    pub key_points: Vec<String>,
    pub action_items: Vec<ActionItem>,
    pub screenshots: Vec<Screenshot>,
}

/// The notes' front matter.
#[derive(Debug, Clone, PartialEq)]
pub struct NotesFrontmatter {
    pub title: String,
    pub date: CalendarDate,
    pub started_at: OffsetDateTime,
    pub duration_ms: u64,
    pub speakers: Vec<String>,
    /// Languages heard, in order of first appearance.
    pub languages: Vec<String>,
    pub tags: Vec<String>,
    pub template: String,
    pub dialect: MarkdownDialect,
    pub panops_version: String,
    pub source_audio: Option<std::path::PathBuf>,
}

/// Generated notes of a meeting. `generated_at` is an RFC 3339 timestamp.
#[derive(Debug, PartialEq)]
pub struct StructuredNotes {
    pub schema_version: u32,
    pub frontmatter: NotesFrontmatter,
    pub sections: Vec<NotesSection>,
    pub language: String,
    pub generated_at: String,
}

impl StructuredNotes {
    /// The current notes schema version.
    pub const SCHEMA_VERSION: u32 = 1;
}

} // verus!
