//! Core of a document question-answering pipeline: text chunking,
//! incremental change tracking, embedding-request dispatch, segment
//! assembly, relevance ranking, and conversation-session bookkeeping.
//!
//! Remote collaborators (the embedding model, the completion and
//! transcription services, the vector store) and all file, network and
//! terminal I/O live outside this crate; this library holds the
//! orchestration rules and data invariants, each stated as a contract.

pub mod errors;
pub mod chunk;
pub mod config;
pub mod dispatch;
pub mod ingest;
pub mod jsonx;
pub mod rank;
pub mod schemas;
pub mod session;
pub mod split;
pub mod strutil;
pub mod track;

pub use errors::PipelineError;
