//! The delta capability of a record type, and its implementation for records.
use vstd::prelude::*;
use crate::record::{apply_record, option_model, record_delta, records_same_shape, Record, RecordDelta};

verus! {

/// A type whose snapshots can be diffed, and whose deltas can be applied.
pub trait Delta: Sized {
    /// The delta of two snapshots.
    type Output;

    /// Whether `old` and `new` are snapshots of one record type.
    spec fn compatible(old: &Self, new: &Self) -> bool;

    /// The change from `old` to `new`, or `None` when nothing changed.
    fn delta(old: Self, new: Self) -> Option<Self::Output>
        requires
            Self::compatible(&old, &new),
    ;

    /// Applies a delta in place.
    fn apply_delta(&mut self, delta: Self::Output);
}

impl Delta for Record {
    type Output = RecordDelta;

    open spec fn compatible(old: &Record, new: &Record) -> bool {
        records_same_shape(old.model(), new.model())
    }

    fn delta(old: Record, new: Record) -> (r: Option<RecordDelta>)
        ensures
            option_model(r) == record_delta(old.model(), new.model()),
    {
        Record::diff(&old, &new)
    }

    fn apply_delta(&mut self, delta: RecordDelta)
        ensures
            final(self).model() == apply_record(old(self).model(), delta.model()),
    {
        self.apply(&delta)
    }
}

} // verus!
