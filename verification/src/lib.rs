//! Verified core of a resume and cover-letter assistant: LLM settings,
//! the framing and interpretation of generation requests, and the
//! logic of the retrieval-quality evaluation harness.

pub mod eval_args;
pub mod generation;
pub mod judge;
pub mod metrics;
pub mod settings;
pub mod text;
