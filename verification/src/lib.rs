//! A typed, in-memory document model together with a fluent builder that
//! composes document-modification operators (increment, set, array push,
//! sort, slice, ...) into a single nested document for a document store.
//!
//! The document is an ordered-by-key mapping; iteration order is
//! key-lexicographic over the keys' UTF-8 bytes, never insertion order.
mod order;
pub mod value;
pub mod upsert;
pub mod update;
pub mod laws;

pub use value::{Json, Object, Array, Model, Integral, Number};
pub use upsert::Upsert;
pub use update::{Update, UpdateField, UpdateArray};
