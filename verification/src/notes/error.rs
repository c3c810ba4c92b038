//! Why generating notes failed.

use vstd::prelude::*;
use vstd::std_specs::convert::FromSpecImpl;

use crate::llm::LlmError;
use crate::text::{decimal, push_decimal, push_str};

verus! {

/// Why generating notes failed.
#[derive(Debug)]
pub enum NotesError {
    EmptyTranscript,
    Llm(LlmError),
    /// Every per-section narrative call failed: the model is unavailable,
    /// and notes of nothing but stub sections would be worthless.
    LlmUnavailable { failed: usize, total: usize, last_error: String },
    SchemaMismatch { stage: &'static str, detail: String },
    InvalidInput(String),
}

impl NotesError {
    /// The error's message: `empty transcript`, `llm: {0}`, `notes LLM
    /// unavailable: all {failed} of {total} section generation calls failed
    /// ({last_error})`, `schema mismatch in stage {stage}: {detail}` or
    /// `invalid input: {0}`.
    pub fn message(&self) -> (r: String)
        ensures
            match self {
                NotesError::EmptyTranscript => r@ == "empty transcript"@,
                NotesError::Llm(_) => "llm: "@.is_prefix_of(r@),
                NotesError::LlmUnavailable { failed, total, last_error } => r@
                    == "notes LLM unavailable: all "@ + decimal(*failed as nat) + " of "@
                    + decimal(*total as nat) + " section generation calls failed ("@
                    + last_error@ + ")"@,
                NotesError::SchemaMismatch { stage, detail } => r@ == "schema mismatch in stage "@
                    + stage@ + ": "@ + detail@,
                NotesError::InvalidInput(m) => r@ == "invalid input: "@ + m@,
            },
    {
        let mut s = String::new();
        match self {
            NotesError::EmptyTranscript => {
                push_str(&mut s, "empty transcript");
            },
            NotesError::Llm(e) => {
                push_str(&mut s, "llm: ");
                let ghost before = s@;
                let m = e.message();
                push_str(&mut s, m.as_str());
                assert(before.is_prefix_of(s@));
            },
            NotesError::LlmUnavailable { failed, total, last_error } => {
                push_str(&mut s, "notes LLM unavailable: all ");
                push_decimal(&mut s, *failed as u64);
                push_str(&mut s, " of ");
                push_decimal(&mut s, *total as u64);
                push_str(&mut s, " section generation calls failed (");
                push_str(&mut s, last_error.as_str());
                push_str(&mut s, ")");
            },
            NotesError::SchemaMismatch { stage, detail } => {
                push_str(&mut s, "schema mismatch in stage ");
                push_str(&mut s, stage);
                push_str(&mut s, ": ");
                push_str(&mut s, detail.as_str());
            },
            NotesError::InvalidInput(m) => {
                push_str(&mut s, "invalid input: ");
                push_str(&mut s, m.as_str());
            },
        }
        s
    }
}

impl From<LlmError> for NotesError {
    fn from(e: LlmError) -> (r: Self) {
        NotesError::Llm(e)
    }
}

impl FromSpecImpl<LlmError> for NotesError {
    open spec fn obeys_from_spec() -> bool {
        true
    }

    open spec fn from_spec(v: LlmError) -> Self {
        NotesError::Llm(v)
    }
}

} // verus!
