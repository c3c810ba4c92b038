//! Meeting-capture core: domain types, transcript merging, topic
//! segmentation, screenshot anchoring, attribution checks, prompt
//! rendering and an in-memory registry, all with machine-checked contracts.

pub mod text;
pub mod segment;
pub mod asr;
pub mod vad;
pub mod exporter;
pub mod capture;
pub mod llm;
pub mod diar;
pub mod merge;
pub mod stdtypes;
pub mod notes;
pub mod wer;
pub mod storage;
pub mod meeting_store;
pub mod clock;
pub mod search;
pub mod sorting;
pub mod conformance;
