//! A schema-driven codec for fixed binary record layouts.

pub mod codec;
pub mod datum;
pub mod document;
pub mod envelope;
pub mod expr;
pub mod grammar;
pub mod laws;
pub mod passed_over;
pub mod primitive;
pub mod schema;
pub mod text;
pub mod wire;

pub use envelope::{decode_to_raw, encode_from_raw, SaveError};
