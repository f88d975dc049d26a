//! Field-level deltas between two snapshots of a record: classification of
//! fields into diffing strategies, computation of a delta, and its application.
pub mod delta;
pub mod laws;
pub mod record;
pub mod strategy;
pub mod unordered;

pub use delta::Delta;
pub use record::{FieldDelta, FieldValue, Record, RecordDelta};
pub use strategy::{
    classify_fields, resolve, string_to_fieldtype, FieldRequest, FieldStrategy, RecordRequest,
    SchemaError,
};
pub use unordered::{apply_unordered, remove_one, unordered_diff, Atom};
