//! Speech recognition errors.

use vstd::prelude::*;
use vstd::std_specs::convert::FromSpecImpl;

use crate::stdtypes::{io_error_to_string, path_to_string, prefixed, prefixed_opaque};

verus! {

/// Why a transcription failed.
#[derive(Debug)]
pub enum AsrError {
    InvalidAudio(String),
    Model(String),
    Transcription(String),
    Io(std::io::Error),
    /// Kept for callers that pass a path up the stack and surface a missing
    /// file; the pipeline itself reports `InvalidAudio`.
    AudioNotFound(std::path::PathBuf),
}

impl AsrError {
    /// The error's message: `invalid audio: {0}`, `model error: {0}`,
    /// `transcription failed: {0}`, `io error: {0}` or `audio file not
    /// found: {path}`.
    pub fn message(&self) -> (r: String)
        ensures
            match self {
                AsrError::InvalidAudio(m) => r@ == "invalid audio: "@ + m@,
                AsrError::Model(m) => r@ == "model error: "@ + m@,
                AsrError::Transcription(m) => r@ == "transcription failed: "@ + m@,
                AsrError::Io(_) => "io error: "@.is_prefix_of(r@),
                AsrError::AudioNotFound(_) => "audio file not found: "@.is_prefix_of(r@),
            },
    {
        match self {
            AsrError::InvalidAudio(m) => prefixed("invalid audio: ", m.as_str()),
            AsrError::Model(m) => prefixed("model error: ", m.as_str()),
            AsrError::Transcription(m) => prefixed("transcription failed: ", m.as_str()),
            AsrError::Io(e) => prefixed_opaque("io error: ", io_error_to_string(e)),
            AsrError::AudioNotFound(p) => prefixed_opaque("audio file not found: ", path_to_string(p)),
        }
    }
}

impl From<std::io::Error> for AsrError {
    fn from(e: std::io::Error) -> (r: Self) {
        AsrError::Io(e)
    }
}

impl FromSpecImpl<std::io::Error> for AsrError {
    open spec fn obeys_from_spec() -> bool {
        true
    }

    open spec fn from_spec(v: std::io::Error) -> Self {
        AsrError::Io(v)
    }
}

} // verus!
