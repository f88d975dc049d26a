//! Laws that relate computing a delta to applying it.
use vstd::prelude::*;
use crate::record::{
    apply_field, apply_record, equivalent, field_delta, field_deltas, is_noop, record_delta,
    records_equivalent, records_same_shape, same_shape, FieldDeltaModel, Record, ValueModel,
};
use crate::unordered::{apply_spec, diff_spec, lemma_diff_self, lemma_unordered_round_trip, remove_each};

verus! {

proof fn lemma_field_unchanged(a: ValueModel)
    ensures
        is_noop(field_delta(a, a)),
    decreases a,
{
    match a {
        ValueModel::Scalar(_) => {},
        ValueModel::Unordered(s) => {
            lemma_diff_self(s);
        },
        ValueModel::Nested(x) => {
            lemma_record_unchanged(x);
        },
    }
}

proof fn lemma_record_unchanged(x: Seq<ValueModel>)
    ensures
        record_delta(x, x) is None,
    decreases x,
{
    let ds = field_deltas(x, x);
    assert forall|i: int| 0 <= i < ds.len() implies is_noop(#[trigger] ds[i]) by {
        lemma_field_unchanged(x[i]);
    }
}

/// A record diffed against itself has no delta.
pub proof fn lemma_no_change(r: Record)
    ensures
        record_delta(r.model(), r.model()) is None,
{
    lemma_record_unchanged(r.model());
}

proof fn lemma_record_delta_cases(x: Seq<ValueModel>, y: Seq<ValueModel>)
    ensures
        field_deltas(x, y).len() == x.len(),
        record_delta(x, y) is None ==> forall|i: int|
            0 <= i < x.len() ==> #[trigger] is_noop(field_deltas(x, y)[i]),
        record_delta(x, y) is Some ==> record_delta(x, y) == Some(field_deltas(x, y)),
{
}

proof fn lemma_field_round_trip(a: ValueModel, b: ValueModel)
    requires
        same_shape(a, b),
    ensures
        equivalent(apply_field(a, field_delta(a, b)), b),
        is_noop(field_delta(a, b)) ==> equivalent(a, b),
    decreases a,
{
    match a {
        ValueModel::Scalar(_) => {},
        ValueModel::Unordered(s) => {
            let t = b->Unordered_0;
            lemma_unordered_round_trip(s, t);
            let d = diff_spec(s, t);
            if d.0.len() == 0 && d.1.len() == 0 {
                assert(remove_each(s, d.1, 0) == s);
                assert(apply_spec(s, d.0, d.1) =~= s);
            }
        },
        ValueModel::Nested(x) => {
            let y = b->Nested_0;
            assert forall|i: int| 0 <= i < x.len() implies {
                &&& equivalent(apply_field(x[i], field_delta(x[i], y[i])), y[i])
                &&& is_noop(field_delta(x[i], y[i])) ==> equivalent(x[i], y[i])
            } by {
                lemma_field_round_trip(x[i], y[i]);
            }
            let ds = field_deltas(x, y);
            assert(ds.len() == x.len());
            if record_delta(x, y) is None {
                lemma_record_delta_cases(x, y);
                assert forall|i: int| 0 <= i < x.len() implies equivalent(x[i], y[i]) by {
                    assert(is_noop(ds[i]));
                }
            } else {
                lemma_record_delta_cases(x, y);
                let z = apply_record(x, ds);
                assert forall|i: int| 0 <= i < x.len() implies equivalent(z[i], y[i]) by {
                    assert(z[i] == apply_field(x[i], ds[i]));
                }
            }
        },
    }
}

/// Applying the delta of `old` and `new` to `old` gives a record that
/// agrees with `new` (unordered collections as multisets); and when there is
/// no delta, `old` already agrees with `new`.
pub proof fn lemma_round_trip(old: Record, new: Record)
    requires
        records_same_shape(old.model(), new.model()),
    ensures
        match record_delta(old.model(), new.model()) {
            Some(d) => records_equivalent(apply_record(old.model(), d), new.model()),
            None => records_equivalent(old.model(), new.model()),
        },
{
    let a = ValueModel::Nested(old.model());
    let b = ValueModel::Nested(new.model());
    lemma_field_round_trip(a, b);
}

/// A nested field whose value did not change has an absent nested delta in
/// the outer record's per-field deltas, whatever its sibling fields do.
pub proof fn lemma_unchanged_nested_is_absent(old: Record, new: Record, i: int)
    requires
        0 <= i < old.model().len(),
        old.model().len() == new.model().len(),
        old.model()[i] is Nested,
        old.model()[i] == new.model()[i],
    ensures
        field_deltas(old.model(), new.model())[i] == FieldDeltaModel::Nested(None),
{
    lemma_record_unchanged(old.model()[i]->Nested_0);
}

/// There is no delta exactly when every field's delta is its no-change marker.
pub proof fn lemma_absent_iff_unchanged(old: Record, new: Record)
    ensures
        record_delta(old.model(), new.model()) is None <==> forall|i: int|
            0 <= i < old.model().len() ==> #[trigger] is_noop(
                field_deltas(old.model(), new.model())[i],
            ),
{
    let ds = field_deltas(old.model(), new.model());
    assert(ds.len() == old.model().len());
    if record_delta(old.model(), new.model()) is None {
        assert(forall|i: int| 0 <= i < ds.len() ==> is_noop(#[trigger] ds[i]));
    }
}

} // verus!
