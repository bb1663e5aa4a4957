//! Resilient publish/subscribe orchestration for Media-over-QUIC sessions.
//!
//! The library holds the decision logic of a MoQ client: the catalog model in
//! its two formats, per-track group sequencing on the publish side, the
//! session's connection state, and the subscription epochs on the consume side.
//! Each piece is a plain value with a verified contract; the code that talks to
//! the network drives these values and performs the actions they return.

pub mod catalog;
pub mod catalog_json;
pub mod config;
pub mod json;
pub mod session;
pub mod subscription;
pub mod track;
