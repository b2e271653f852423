//! Resume analysis pipeline: content-addressed file storage with
//! deduplication, a prompt catalog with fallback resolution, construction of
//! multimodal chat requests, robust extraction of structured analyses from
//! free-form model output, an in-memory record store with filtered listing,
//! and the status state machine that drives a resume from upload through
//! analysis to completion or failure.

pub mod analysis;
pub mod analyzer;
pub mod config;
pub mod error;
pub mod extractor;
pub mod gateway;
pub mod handlers;
pub mod llm;
pub mod logger;
pub mod orchestrator;
pub mod prompts;
pub mod records;
pub mod resume;
pub mod text;
