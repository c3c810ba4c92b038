//! What notes generation takes.

use vstd::prelude::*;

use crate::notes::ir::{OffsetDateTime, Screenshot};
use crate::segment::Segment;

verus! {

/// Facts about the meeting that the transcript does not carry.
#[derive(Debug, Clone)]
pub struct MeetingMetadata {
    pub started_at: OffsetDateTime,
    pub duration_ms: u64,
    pub source_path: Option<std::path::PathBuf>,
    pub language_hint: Option<String>,
}

/// Everything `NotesGenerator::generate` needs.
#[derive(Debug, Clone)]
pub struct NotesInput {
    pub transcript: Vec<Segment>,
    pub screenshots: Vec<Screenshot>,
    pub meeting_metadata: MeetingMetadata,
}

} // verus!
