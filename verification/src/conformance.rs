//! Adapters that live in this library, for tests and for callers that need
//! no real backend.

pub mod asr;
pub mod in_memory_storage;
pub mod storage;
pub mod storage_trace;
pub mod in_memory_meeting_store;
pub mod meeting_store;
pub mod fakes;
pub mod llm;
pub mod diar;
pub mod registry_laws;
pub mod content_laws;
pub mod content_suite;
