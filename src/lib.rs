//! Reconciliation of windowed speech-recognition output into one transcript,
//! and the decision logic of a batch translation pipeline that survives
//! truncated or malformed model responses.

pub mod text;
pub mod window;
pub mod reconcile;
pub mod response;
pub mod translate;
pub mod job;
pub mod media;
pub mod backend;
pub mod repair;
pub mod summary;
pub mod whisper;
pub mod service;
