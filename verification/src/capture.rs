//! Audio and screenshot capture: what to capture, and what a capture
//! produced.

use vstd::prelude::*;
use vstd::std_specs::convert::FromSpecImpl;

use crate::stdtypes::{io_error_to_string, prefixed, prefixed_opaque};

verus! {

/// Audio sources to capture.
#[derive(Debug, Clone, Copy, PartialEq, Eq)]
pub enum AudioSources {
    /// System audio output only.
    SystemOnly,
    /// Microphone only.
    MicOnly,
    /// Both system audio and microphone.
    SystemAndMic,
}

impl AudioSources {
    /// Whether the system-audio track is captured.
    pub fn wants_system(self) -> (r: bool)
        ensures
            r == !(self is MicOnly),
    {
        !matches!(self, AudioSources::MicOnly)
    }

    /// Whether the microphone track is captured.
    pub fn wants_mic(self) -> (r: bool)
        ensures
            r == !(self is SystemOnly),
    {
        !matches!(self, AudioSources::SystemOnly)
    }
}

/// Screen target to capture.
#[derive(Debug, Clone, PartialEq, Eq)]
pub enum CaptureTarget {
    /// A whole display; `display_id` 0 is the primary one.
    Display { display_id: u32 },
    /// A specific window by ScreenCaptureKit window id.
    Window { window_id: u32 },
    /// All windows of an app, by bundle id.
    App { bundle_id: String },
    /// A sub-rectangle of a display (origin and size, in display points).
    Region { display_id: u32, x: u32, y: u32, w: u32, h: u32 },
}

impl Default for CaptureTarget {
    /// The primary display.
    fn default() -> (r: Self)
        ensures
            r == (CaptureTarget::Display { display_id: 0 }),
    {
        CaptureTarget::Display { display_id: 0 }
    }
}

/// What `stop_capture` returns. Each audio path is `Some` exactly when its
/// source was requested; both are 16 kHz mono WAVs.
#[derive(Debug, Clone, PartialEq, Eq)]
pub struct CaptureResult {
    /// System-audio (remote) track; `None` when not requested.
    pub system_audio_path: Option<std::path::PathBuf>,
    /// Microphone (local) track; `None` when not requested.
    pub mic_audio_path: Option<std::path::PathBuf>,
    /// Captured screenshot JPEG files.
    pub screenshot_paths: Vec<std::path::PathBuf>,
    /// Length of the recording in milliseconds.
    pub duration_ms: u64,
}

/// Why a capture operation failed.
#[derive(Debug)]
pub enum CaptureError {
    PermissionDenied(String),
    Capture(String),
    Io(std::io::Error),
    Sidecar(String),
    SessionNotFound(String),
    InvalidConfig(String),
}

impl CaptureError {
    /// The error's message: `permission denied: {0}`, `capture failed:
    /// {0}`, `io error: {0}`, `sidecar error: {0}`, `session not found: {0}`
    /// or `invalid config: {0}`.
    pub fn message(&self) -> (r: String)
        ensures
            match self {
                CaptureError::PermissionDenied(m) => r@ == "permission denied: "@ + m@,
                CaptureError::Capture(m) => r@ == "capture failed: "@ + m@,
                CaptureError::Io(_) => "io error: "@.is_prefix_of(r@),
                CaptureError::Sidecar(m) => r@ == "sidecar error: "@ + m@,
                CaptureError::SessionNotFound(m) => r@ == "session not found: "@ + m@,
                CaptureError::InvalidConfig(m) => r@ == "invalid config: "@ + m@,
            },
    {
        match self {
            CaptureError::PermissionDenied(m) => prefixed("permission denied: ", m.as_str()),
            CaptureError::Capture(m) => prefixed("capture failed: ", m.as_str()),
            CaptureError::Io(e) => prefixed_opaque("io error: ", io_error_to_string(e)),
            CaptureError::Sidecar(m) => prefixed("sidecar error: ", m.as_str()),
            CaptureError::SessionNotFound(m) => prefixed("session not found: ", m.as_str()),
            CaptureError::InvalidConfig(m) => prefixed("invalid config: ", m.as_str()),
        }
    }
}

impl From<std::io::Error> for CaptureError {
    fn from(e: std::io::Error) -> (r: Self) {
        CaptureError::Io(e)
    }
}

impl FromSpecImpl<std::io::Error> for CaptureError {
    open spec fn obeys_from_spec() -> bool {
        true
    }

    open spec fn from_spec(v: std::io::Error) -> Self {
        CaptureError::Io(v)
    }
}

} // verus!
