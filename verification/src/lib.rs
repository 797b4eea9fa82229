//! A credential vault and secret-resolving workflow engine.
//!
//! Secret tokens are sealed with an AEAD cipher and persisted as base64
//! rows; workflow step headers may reference stored credentials through
//! `{{secret:<id>}}` placeholders, which are resolved in place before the
//! workflow's HTTP steps are executed in order, failing fast on the first
//! error.
pub mod codec;
pub mod engine;
pub mod error;
pub mod ids;
pub mod resolve;
pub mod store;
mod text;
pub mod vault;
pub mod workflow;
