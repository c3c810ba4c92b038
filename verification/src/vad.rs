//! Voice activity detection: speech regions and errors.

use vstd::prelude::*;
use vstd::std_specs::convert::FromSpecImpl;

use crate::stdtypes::{io_error_to_string, prefixed, prefixed_opaque};

verus! {

/// A continuous interval of detected speech, in milliseconds since the start
/// of the audio. Adapters return regions sorted by `start_ms`, each with
/// `start_ms < end_ms`, and none overlapping.
#[derive(Debug, Clone, Copy, PartialEq, Eq)]
pub struct SpeechRegion {
    pub start_ms: u64,
    pub end_ms: u64,
}

/// Why speech detection failed.
#[derive(Debug)]
pub enum VadError {
    Model(String),
    InvalidAudio(String),
    Io(std::io::Error),
}

impl VadError {
    /// The error's message: `vad model: {0}`, `invalid audio: {0}` or
    /// `io error: {0}`.
    pub fn message(&self) -> (r: String)
        ensures
            match self {
                VadError::Model(m) => r@ == "vad model: "@ + m@,
                VadError::InvalidAudio(m) => r@ == "invalid audio: "@ + m@,
                VadError::Io(_) => "io error: "@.is_prefix_of(r@),
            },
    {
        match self {
            VadError::Model(m) => prefixed("vad model: ", m.as_str()),
            VadError::InvalidAudio(m) => prefixed("invalid audio: ", m.as_str()),
            VadError::Io(e) => prefixed_opaque("io error: ", io_error_to_string(e)),
        }
    }
}

impl From<std::io::Error> for VadError {
    fn from(e: std::io::Error) -> (r: Self) {
        VadError::Io(e)
    }
}

impl FromSpecImpl<std::io::Error> for VadError {
    open spec fn obeys_from_spec() -> bool {
        true
    }

    open spec fn from_spec(v: std::io::Error) -> Self {
        VadError::Io(v)
    }
}

} // verus!
