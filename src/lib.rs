//! A protocol-id keyed packet codec over a cursor-based byte buffer.
//!
//! Every message on the wire is a two-byte big-endian protocol id followed by
//! a payload laid out by the schema registered for that id. Writing under an
//! id that has no schema writes the id alone and reports it; reading such an
//! id yields a not-found marker and consumes nothing past the id.
pub mod buffer;
pub mod dispatch;
pub mod error;
pub mod laws;
pub mod registry;
pub mod schema;
pub mod wire;
