//! What a notes exporter produces, and how it fails.

use vstd::prelude::*;
use vstd::std_specs::convert::FromSpecImpl;

use crate::stdtypes::{io_error_to_string, prefixed, prefixed_opaque};

verus! {

/// The files an export wrote: the primary document and its assets.
#[derive(Debug, Clone, PartialEq, Eq)]
pub struct ExportArtifact {
    pub primary_file: std::path::PathBuf,
    pub assets: Vec<std::path::PathBuf>,
}

/// Why an export failed.
#[derive(Debug)]
pub enum ExportError {
    Io(std::io::Error),
    InvalidDest(String),
    Render(String),
}

impl ExportError {
    /// The error's message: `io: {0}`, `invalid destination: {0}` or
    /// `render: {0}`.
    pub fn message(&self) -> (r: String)
        ensures
            match self {
                ExportError::Io(_) => "io: "@.is_prefix_of(r@),
                ExportError::InvalidDest(m) => r@ == "invalid destination: "@ + m@,
                ExportError::Render(m) => r@ == "render: "@ + m@,
            },
    {
        match self {
            ExportError::Io(e) => prefixed_opaque("io: ", io_error_to_string(e)),
            ExportError::InvalidDest(m) => prefixed("invalid destination: ", m.as_str()),
            ExportError::Render(m) => prefixed("render: ", m.as_str()),
        }
    }
}

impl From<std::io::Error> for ExportError {
    fn from(e: std::io::Error) -> (r: Self) {
        ExportError::Io(e)
    }
}

impl FromSpecImpl<std::io::Error> for ExportError {
    open spec fn obeys_from_spec() -> bool {
        true
    }

    open spec fn from_spec(v: std::io::Error) -> Self {
        ExportError::Io(v)
    }
}

} // verus!
