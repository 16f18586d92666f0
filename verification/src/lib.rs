//! Analytics over an in-memory chat-export archive: per-user message tallies,
//! distinct-author extraction, word-frequency tables, total word counts, and a
//! windowed keyword search with bounded context.
//!
//! The archive loader (file reading and deserialization) is an external
//! collaborator; this crate only requires an in-memory sequence of [`model::Message`]
//! records and computes fresh aggregate results from it on every call.

pub mod data;
pub mod model;
pub mod stats;
pub mod text;
