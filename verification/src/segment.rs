//! Transcript segments as produced by speech recognition.

use vstd::prelude::*;

verus! {

/// One recognised stretch of speech. `confidence_bits` holds the IEEE-754
/// bit pattern of the recogniser's `f32` confidence, so the value travels
/// through the library unchanged (`f32::from_bits` recovers it).
#[derive(Debug, Clone, PartialEq)]
pub struct Segment {
    pub start_ms: u64,
    pub end_ms: u64,
    pub text: String,
    pub language_detected: Option<String>,
    pub confidence_bits: u32,
    pub is_partial: bool,
    pub speaker_id: Option<u32>,
}

/// Copies an optional string, keeping its contents.
pub fn copy_opt_string(o: &Option<String>) -> (r: Option<String>)
    ensures
        r == *o,
{
    match o {
        Some(s) => Some(s.clone()),
        None => None,
    }
}

impl Segment {
    /// A field-by-field copy of this segment.
    pub fn duplicate(&self) -> (r: Segment)
        ensures
            r == *self,
    {
        Segment {
            start_ms: self.start_ms,
            end_ms: self.end_ms,
            text: self.text.clone(),
            language_detected: copy_opt_string(&self.language_detected),
            confidence_bits: self.confidence_bits,
            is_partial: self.is_partial,
            speaker_id: self.speaker_id,
        }
    }
}

/// `s` with its speaker replaced by `speaker`.
pub open spec fn with_speaker(s: Segment, speaker: Option<u32>) -> Segment {
    Segment { speaker_id: speaker, ..s }
}

/// A recognised recording: the model that produced it, the audio it came
/// from, and its segments.
#[derive(Debug, Clone)]
pub struct Transcript {
    pub schema_version: u32,
    pub model: String,
    pub audio_path: std::path::PathBuf,
    pub audio_duration_ms: u64,
    pub diarized: bool,
    pub segments: Vec<Segment>,
}

impl Transcript {
    /// The current transcript schema version.
    pub const SCHEMA_VERSION: u32 = 2;

    /// A field-by-field copy.
    pub fn duplicate(&self) -> (r: Transcript)
        ensures
            r.schema_version == self.schema_version,
            r.model@ == self.model@,
            r.audio_path == self.audio_path,
            r.audio_duration_ms == self.audio_duration_ms,
            r.diarized == self.diarized,
            r.segments@ == self.segments@,
    {
        let mut segments: Vec<Segment> = Vec::new();
        let mut i: usize = 0;
        while i < self.segments.len()
            invariant
                i <= self.segments@.len(),
                segments@ == self.segments@.take(i as int),
            decreases self.segments@.len() - i,
        {
            segments.push(self.segments[i].duplicate());
            assert(segments@ =~= self.segments@.take(i + 1));
            i = i + 1;
        }
        assert(self.segments@.take(i as int) =~= self.segments@);
        Transcript {
            schema_version: self.schema_version,
            model: self.model.clone(),
            audio_path: self.audio_path.clone(),
            audio_duration_ms: self.audio_duration_ms,
            diarized: self.diarized,
            segments,
        }
    }
}

} // verus!
