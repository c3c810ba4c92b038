//! Speaker diarization: turns, errors, and the port adapters implement.

use vstd::prelude::*;
use vstd::std_specs::convert::FromSpecImpl;

use crate::stdtypes::{io_error_to_string, path_to_string, prefixed, prefixed_opaque};

verus! {

/// One speaker turn: `speaker_id` spoke over `[start_ms, end_ms)`.
#[derive(Debug, Clone, Copy, PartialEq, Eq)]
pub struct SpeakerTurn {
    pub start_ms: u64,
    pub end_ms: u64,
    pub speaker_id: u32,
}

/// Why diarization failed.
#[derive(Debug)]
pub enum DiarError {
    AudioNotFound(std::path::PathBuf),
    InvalidAudio(String),
    Model(String),
    Diarization(String),
    Io(std::io::Error),
}

impl DiarError {
    /// The error's message: `audio file not found: {path}`, `invalid
    /// audio: {0}`, `model error: {0}`, `diarization failed: {0}` or `io
    /// error: {0}`.
    pub fn message(&self) -> (r: String)
        ensures
            match self {
                DiarError::AudioNotFound(_) => "audio file not found: "@.is_prefix_of(r@),
                DiarError::InvalidAudio(m) => r@ == "invalid audio: "@ + m@,
                DiarError::Model(m) => r@ == "model error: "@ + m@,
                DiarError::Diarization(m) => r@ == "diarization failed: "@ + m@,
                DiarError::Io(_) => "io error: "@.is_prefix_of(r@),
            },
    {
        match self {
            DiarError::AudioNotFound(p) => prefixed_opaque("audio file not found: ", path_to_string(p)),
            DiarError::InvalidAudio(m) => prefixed("invalid audio: ", m.as_str()),
            DiarError::Model(m) => prefixed("model error: ", m.as_str()),
            DiarError::Diarization(m) => prefixed("diarization failed: ", m.as_str()),
            DiarError::Io(e) => prefixed_opaque("io error: ", io_error_to_string(e)),
        }
    }
}

impl From<std::io::Error> for DiarError {
    fn from(e: std::io::Error) -> (r: Self) {
        DiarError::Io(e)
    }
}

impl FromSpecImpl<std::io::Error> for DiarError {
    open spec fn obeys_from_spec() -> bool {
        true
    }

    open spec fn from_spec(v: std::io::Error) -> Self {
        DiarError::Io(v)
    }
}

/// The diarization port. `diarize` runs on a complete audio file and
/// returns turns ordered by `start_ms`, not overlapping; speaker ids are
/// stable within one call only.
pub trait Diarizer {
    /// Whether `answer` is one this diarizer may give for the audio at
    /// `audio_path`. Unless an implementation says more, any answer.
    closed spec fn diarizes(&self, audio_path: std::path::PathBuf, answer: Result<Vec<SpeakerTurn>, DiarError>) -> bool {
        true
    }

    fn diarize(&self, audio_path: &std::path::PathBuf) -> (r: Result<Vec<SpeakerTurn>, DiarError>)
        ensures
            self.diarizes(*audio_path, r),
    ;

    /// Whether this diarizer is a fake. Unless an implementation says
    /// otherwise, it is not.
    closed spec fn reports_fake(&self) -> bool {
        false
    }

    /// Whether this is a fake; production adapters answer `false`. (Each
    /// adapter says so itself, so that the conformance suite's contract can
    /// tell when it held a real diarizer to re-identification.)
    fn is_fake(&self) -> (r: bool)
        ensures
            r == self.reports_fake(),
    ;
}

} // verus!
