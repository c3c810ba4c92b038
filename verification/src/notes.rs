//! Notes generation: intermediate representation, topic segmentation,
//! screenshot anchoring, attribution checks, prompts and the pipeline.

pub mod ir;
pub mod dialect;
pub mod error;
pub mod topic_segmentation;
pub mod screenshot_anchoring;
pub mod attribution;
pub mod raw_transcript;
pub mod prompts;
pub mod input;
pub mod pipeline;
