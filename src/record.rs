//! Records, their deltas, and the engine that computes and applies them.
use vstd::prelude::*;
use crate::strategy::FieldStrategy;
use crate::unordered::{apply_spec, apply_unordered, diff_spec, unordered_diff, Atom};

verus! {

/// The value of one field, as it stands in a record.
pub ghost enum ValueModel {
    Scalar(Atom),
    Unordered(Seq<Atom>),
    Nested(Seq<ValueModel>),
}

/// The change to one field, as it stands in a delta.
pub ghost enum FieldDeltaModel {
    /// The new value, or absence when the field did not change.
    Scalar(Option<Atom>),
    /// Additions and removals.
    Unordered(Seq<Atom>, Seq<Atom>),
    /// The nested record's delta, or absence when it did not change.
    Nested(Option<Seq<FieldDeltaModel>>),
}

/// One field of a record; its variant is the field's strategy.
#[derive(Debug)]
pub enum FieldValue {
    /// Compared by equality.
    Scalar(Atom),
    /// A multiset of elements.
    Unordered(Vec<Atom>),
    /// A record with a delta of its own.
    Nested(Record),
}

/// A record: an ordered list of fields.
#[derive(Debug)]
pub struct Record {
    pub fields: Vec<FieldValue>,
}

/// The change to one field of a record.
#[derive(Debug)]
pub enum FieldDelta {
    /// The new value, or `None` when unchanged.
    Scalar(Option<Atom>),
    /// Elements to append and elements to take out.
    Unordered { add: Vec<Atom>, remove: Vec<Atom> },
    /// The nested record's delta, or `None` when unchanged.
    Nested(Option<RecordDelta>),
}

/// The change to a record: one entry per field of the record.
#[derive(Debug)]
pub struct RecordDelta {
    pub fields: Vec<FieldDelta>,
}

impl FieldValue {
    pub open spec fn model(self) -> ValueModel
        decreases self,
    {
        match self {
            FieldValue::Scalar(a) => ValueModel::Scalar(a),
            FieldValue::Unordered(v) => ValueModel::Unordered(v@),
            FieldValue::Nested(r) => ValueModel::Nested(
                Seq::new(
                    r.fields@.len(),
                    |i: int|
                        if 0 <= i < r.fields@.len() {
                            r.fields@[i].model()
                        } else {
                            ValueModel::Scalar(Atom::Bool(false))
                        },
                ),
            ),
        }
    }
}

impl Record {
    pub open spec fn model(self) -> Seq<ValueModel> {
        Seq::new(self.fields@.len(), |i: int| self.fields@[i].model())
    }
}

impl FieldDelta {
    pub open spec fn model(self) -> FieldDeltaModel
        decreases self,
    {
        match self {
            FieldDelta::Scalar(a) => FieldDeltaModel::Scalar(a),
            FieldDelta::Unordered { add, remove } => FieldDeltaModel::Unordered(add@, remove@),
            FieldDelta::Nested(None) => FieldDeltaModel::Nested(None),
            FieldDelta::Nested(Some(d)) => FieldDeltaModel::Nested(
                Some(
                    Seq::new(
                        d.fields@.len(),
                        |i: int|
                            if 0 <= i < d.fields@.len() {
                                d.fields@[i].model()
                            } else {
                                FieldDeltaModel::Scalar(None)
                            },
                    ),
                ),
            ),
        }
    }
}

impl RecordDelta {
    pub open spec fn model(self) -> Seq<FieldDeltaModel> {
        Seq::new(self.fields@.len(), |i: int| self.fields@[i].model())
    }
}

/// The model of an optional delta.
pub open spec fn option_model(d: Option<RecordDelta>) -> Option<Seq<FieldDeltaModel>> {
    match d {
        Some(d) => Some(d.model()),
        None => None,
    }
}

/// Whether two field values have the same strategy throughout, nested
/// records having the same number of fields.
pub open spec fn same_shape(a: ValueModel, b: ValueModel) -> bool
    decreases a,
{
    match a {
        ValueModel::Scalar(_) => b is Scalar,
        ValueModel::Unordered(_) => b is Unordered,
        ValueModel::Nested(x) => match b {
            ValueModel::Nested(y) => x.len() == y.len() && forall|i: int|
                0 <= i < x.len() ==> same_shape(x[i], y[i]),
            _ => false,
        },
    }
}

/// The strategy that a field value is diffed by.
pub open spec fn strategy_of_value(a: ValueModel) -> FieldStrategy {
    match a {
        ValueModel::Scalar(_) => FieldStrategy::Scalar,
        ValueModel::Unordered(_) => FieldStrategy::UnorderedCollection,
        ValueModel::Nested(_) => FieldStrategy::NestedDelta,
    }
}

/// Whether record `x` has one field per resolved strategy, each of that strategy.
pub open spec fn conforms(x: Seq<ValueModel>, s: Seq<FieldStrategy>) -> bool {
    x.len() == s.len() && forall|i: int| 0 <= i < x.len() ==> strategy_of_value(x[i]) == s[i]
}

/// Whether two records are snapshots of the same record type.
pub open spec fn records_same_shape(x: Seq<ValueModel>, y: Seq<ValueModel>) -> bool {
    same_shape(ValueModel::Nested(x), ValueModel::Nested(y))
}

/// Whether a field's delta is its strategy's no-change marker.
pub open spec fn is_noop(d: FieldDeltaModel) -> bool {
    match d {
        FieldDeltaModel::Scalar(v) => v is None,
        FieldDeltaModel::Unordered(add, remove) => add.len() == 0 && remove.len() == 0,
        FieldDeltaModel::Nested(v) => v is None,
    }
}

/// The delta of one field from `a` to `b`.
pub open spec fn field_delta(a: ValueModel, b: ValueModel) -> FieldDeltaModel
    decreases a, 0nat,
{
    match a {
        ValueModel::Scalar(x) => match b {
            ValueModel::Scalar(y) => FieldDeltaModel::Scalar(
                if x == y {
                    None
                } else {
                    Some(y)
                },
            ),
            _ => FieldDeltaModel::Scalar(None),
        },
        ValueModel::Unordered(x) => match b {
            ValueModel::Unordered(y) => FieldDeltaModel::Unordered(
                diff_spec(x, y).0,
                diff_spec(x, y).1,
            ),
            _ => FieldDeltaModel::Scalar(None),
        },
        ValueModel::Nested(x) => match b {
            ValueModel::Nested(y) => FieldDeltaModel::Nested(record_delta(x, y)),
            _ => FieldDeltaModel::Scalar(None),
        },
    }
}

/// The per-field deltas from record `x` to record `y`.
pub open spec fn field_deltas(x: Seq<ValueModel>, y: Seq<ValueModel>) -> Seq<FieldDeltaModel>
    decreases x, 0nat,
{
    Seq::new(
        x.len(),
        |i: int|
            if 0 <= i < x.len() {
                field_delta(x[i], y[i])
            } else {
                FieldDeltaModel::Scalar(None)
            },
    )
}

/// The delta from record `x` to record `y`: absent when every field's delta
/// is a no-change marker.
pub open spec fn record_delta(x: Seq<ValueModel>, y: Seq<ValueModel>) -> Option<Seq<FieldDeltaModel>>
    decreases x, 1nat,
{
    let ds = field_deltas(x, y);
    if forall|i: int| 0 <= i < ds.len() ==> is_noop(#[trigger] ds[i]) {
        None
    } else {
        Some(ds)
    }
}

/// Whether two field values agree under their strategies' comparisons:
/// scalars by equality, unordered collections as multisets, nested records
/// field by field.
pub open spec fn equivalent(a: ValueModel, b: ValueModel) -> bool
    decreases a,
{
    match a {
        ValueModel::Scalar(x) => b == ValueModel::Scalar(x),
        ValueModel::Unordered(s) => match b {
            ValueModel::Unordered(t) => s.to_multiset() == t.to_multiset(),
            _ => false,
        },
        ValueModel::Nested(x) => match b {
            ValueModel::Nested(y) => x.len() == y.len() && forall|i: int|
                0 <= i < x.len() ==> equivalent(x[i], y[i]),
            _ => false,
        },
    }
}

/// Whether two records agree field by field under their strategies' comparisons.
pub open spec fn records_equivalent(x: Seq<ValueModel>, y: Seq<ValueModel>) -> bool {
    equivalent(ValueModel::Nested(x), ValueModel::Nested(y))
}

/// Field `a` after applying the delta `d`; a delta of another strategy
/// leaves the field unchanged.
pub open spec fn apply_field(a: ValueModel, d: FieldDeltaModel) -> ValueModel
    decreases a, 0nat,
{
    match a {
        ValueModel::Scalar(_) => match d {
            FieldDeltaModel::Scalar(Some(v)) => ValueModel::Scalar(v),
            _ => a,
        },
        ValueModel::Unordered(s) => match d {
            FieldDeltaModel::Unordered(add, remove) => ValueModel::Unordered(apply_spec(s, add, remove)),
            _ => a,
        },
        ValueModel::Nested(x) => match d {
            FieldDeltaModel::Nested(Some(dd)) => ValueModel::Nested(apply_record(x, dd)),
            _ => a,
        },
    }
}

/// Record `x` after applying the delta `dd` field by field; fields past the
/// end of `dd` stay as they are.
pub open spec fn apply_record(x: Seq<ValueModel>, dd: Seq<FieldDeltaModel>) -> Seq<ValueModel>
    decreases x, 1nat,
{
    Seq::new(
        x.len(),
        |i: int|
            if 0 <= i < x.len() {
                if i < dd.len() {
                    apply_field(x[i], dd[i])
                } else {
                    x[i]
                }
            } else {
                ValueModel::Scalar(Atom::Bool(false))
            },
    )
}

proof fn lemma_same_shape_field(x: Seq<ValueModel>, y: Seq<ValueModel>, i: int)
    requires
        records_same_shape(x, y),
        0 <= i < x.len(),
    ensures
        same_shape(x[i], y[i]),
        x.len() == y.len(),
{
}

proof fn lemma_nested_model(r: Record)
    ensures
        FieldValue::Nested(r).model() == ValueModel::Nested(r.model()),
{
    assert(FieldValue::Nested(r).model()->Nested_0 =~= r.model());
}

proof fn lemma_nested_delta_model(d: RecordDelta)
    ensures
        FieldDelta::Nested(Some(d)).model() == FieldDeltaModel::Nested(Some(d.model())),
{
    assert(FieldDelta::Nested(Some(d)).model()->Nested_0.unwrap() =~= d.model());
}

impl FieldDelta {
    /// Whether this is its strategy's no-change marker.
    pub fn is_unchanged(&self) -> (r: bool)
        ensures
            r == is_noop(self.model()),
    {
        match self {
            FieldDelta::Scalar(v) => v.is_none(),
            FieldDelta::Unordered { add, remove } => add.len() == 0 && remove.len() == 0,
            FieldDelta::Nested(v) => v.is_none(),
        }
    }
}

impl FieldValue {
    /// The delta of one field from `old` to `new`, by the field's strategy.
    pub fn diff(old: &FieldValue, new: &FieldValue) -> (r: FieldDelta)
        requires
            same_shape(old.model(), new.model()),
        ensures
            r.model() == field_delta(old.model(), new.model()),
        decreases old,
    {
        match old {
            FieldValue::Scalar(x) => match new {
                FieldValue::Scalar(y) => {
                    if *x == *y {
                        FieldDelta::Scalar(None)
                    } else {
                        FieldDelta::Scalar(Some(*y))
                    }
                },
                _ => FieldDelta::Scalar(None),
            },
            FieldValue::Unordered(x) => match new {
                FieldValue::Unordered(y) => {
                    let (add, remove) = unordered_diff(x, y);
                    FieldDelta::Unordered { add, remove }
                },
                _ => FieldDelta::Scalar(None),
            },
            FieldValue::Nested(x) => match new {
                FieldValue::Nested(y) => {
                    proof {
                        lemma_nested_model(*x);
                        lemma_nested_model(*y);
                    }
                    let d = Record::diff(x, y);
                    proof {
                        if d is Some {
                            lemma_nested_delta_model(d.unwrap());
                        }
                    }
                    FieldDelta::Nested(d)
                },
                _ => FieldDelta::Scalar(None),
            },
        }
    }
}

impl FieldValue {
    /// The strategy this field is diffed by.
    pub fn strategy(&self) -> (r: FieldStrategy)
        ensures
            r == strategy_of_value(self.model()),
    {
        match self {
            FieldValue::Scalar(_) => FieldStrategy::Scalar,
            FieldValue::Unordered(_) => FieldStrategy::UnorderedCollection,
            FieldValue::Nested(_) => FieldStrategy::NestedDelta,
        }
    }
}

impl Record {
    /// Whether this record has one field per resolved strategy, each of that strategy.
    pub fn conforms_to(&self, strategies: &Vec<FieldStrategy>) -> (r: bool)
        ensures
            r == conforms(self.model(), strategies@),
    {
        if self.fields.len() != strategies.len() {
            return false;
        }
        let mut i: usize = 0;
        while i < strategies.len()
            invariant
                i <= strategies@.len(),
                self.fields@.len() == strategies@.len(),
                forall|k: int| 0 <= k < i ==> strategy_of_value(self.model()[k]) == strategies@[k],
            decreases strategies@.len() - i,
        {
            if self.fields[i].strategy() != strategies[i] {
                assert(strategy_of_value(self.model()[i as int]) != strategies@[i as int]);
                return false;
            }
            i = i + 1;
        }
        true
    }

    /// The delta from `old` to `new`: absent when no field changed.
    pub fn diff(old: &Record, new: &Record) -> (r: Option<RecordDelta>)
        requires
            records_same_shape(old.model(), new.model()),
        ensures
            option_model(r) == record_delta(old.model(), new.model()),
        decreases old,
    {
        let ghost ds = field_deltas(old.model(), new.model());
        let n = old.fields.len();
        let mut out: Vec<FieldDelta> = Vec::new();
        let mut changed = false;
        let mut i: usize = 0;
        while i < n
            invariant
                i <= n,
                n == old.fields@.len(),
                n == new.fields@.len(),
                records_same_shape(old.model(), new.model()),
                ds == field_deltas(old.model(), new.model()),
                out@.len() == i,
                forall|j: int| 0 <= j < i ==> #[trigger] out@[j].model() == ds[j],
                changed == exists|j: int| 0 <= j < i && !is_noop(#[trigger] ds[j]),
            decreases n - i,
        {
            proof {
                lemma_same_shape_field(old.model(), new.model(), i as int);
            }
            let d = FieldValue::diff(&old.fields[i], &new.fields[i]);
            proof {
                assert(d.model() == ds[i as int]);
            }
            if !d.is_unchanged() {
                changed = true;
            }
            out.push(d);
            i = i + 1;
        }
        if changed {
            let r = RecordDelta { fields: out };
            proof {
                assert(r.model() =~= ds);
            }
            Some(r)
        } else {
            None
        }
    }
}

impl FieldValue {
    /// Applies the delta of one field in place.
    pub fn apply(&mut self, d: &FieldDelta)
        ensures
            final(self).model() == apply_field(old(self).model(), d.model()),
        decreases d,
    {
        match self {
            FieldValue::Scalar(a) => {
                match d {
                    FieldDelta::Scalar(Some(v)) => {
                        *a = *v;
                    },
                    _ => {},
                }
            },
            FieldValue::Unordered(v) => {
                match d {
                    FieldDelta::Unordered { add, remove } => {
                        apply_unordered(v, add, remove);
                    },
                    _ => {},
                }
            },
            FieldValue::Nested(r) => {
                match d {
                    FieldDelta::Nested(Some(dd)) => {
                        proof {
                            lemma_nested_model(*r);
                            lemma_nested_delta_model(*dd);
                        }
                        r.apply(dd);
                        proof {
                            lemma_nested_model(*r);
                        }
                    },
                    _ => {},
                }
            },
        }
    }
}

impl Record {
    /// Applies a record delta in place, field by field.
    pub fn apply(&mut self, d: &RecordDelta)
        ensures
            final(self).model() == apply_record(old(self).model(), d.model()),
        decreases d,
    {
        let ghost start = self.model();
        let n = self.fields.len();
        let mut i: usize = 0;
        while i < n
            invariant
                i <= n,
                n == self.fields@.len(),
                start.len() == n,
                forall|j: int| 0 <= j < i ==> #[trigger] self.model()[j] == apply_record(start, d.model())[j],
                forall|j: int| i <= j < n ==> #[trigger] self.model()[j] == start[j],
            decreases n - i,
        {
            let ghost m0 = self.model();
            assert(m0[i as int] == start[i as int]);
            assert(m0[i as int] == self.fields@[i as int].model());
            if i < d.fields.len() {
                self.fields[i].apply(&d.fields[i]);
                proof {
                    assert(d.model()[i as int] == d.fields@[i as int].model());
                }
            }
            proof {
                assert(self.model()[i as int] == apply_record(start, d.model())[i as int]);
                assert forall|j: int| 0 <= j < n && j != i implies #[trigger] self.model()[j]
                    == m0[j] by {
                    assert(self.model()[j] == self.fields@[j].model());
                }
            }
            i = i + 1;
        }
        proof {
            assert(self.model() =~= apply_record(start, d.model()));
        }
    }
}

fn atoms_equal(a: &Vec<Atom>, b: &Vec<Atom>) -> (r: bool)
    ensures
        r == (a@ == b@),
{
    if a.len() != b.len() {
        return false;
    }
    let mut i: usize = 0;
    while i < a.len()
        invariant
            i <= a.len(),
            a@.len() == b@.len(),
            forall|k: int| 0 <= k < i ==> a@[k] == b@[k],
        decreases a.len() - i,
    {
        if a[i] != b[i] {
            return false;
        }
        i = i + 1;
    }
    assert(a@ =~= b@);
    true
}

fn copy_atoms(a: &Vec<Atom>) -> (r: Vec<Atom>)
    ensures
        r@ == a@,
{
    let mut r: Vec<Atom> = Vec::new();
    let mut i: usize = 0;
    while i < a.len()
        invariant
            i <= a.len(),
            r@ == a@.take(i as int),
        decreases a.len() - i,
    {
        r.push(a[i]);
        i = i + 1;
        assert(r@ =~= a@.take(i as int));
    }
    assert(a@.take(a@.len() as int) =~= a@);
    r
}

impl FieldValue {
    /// Whether two field values are equal, nested records compared field by field.
    pub fn same_as(&self, other: &FieldValue) -> (r: bool)
        ensures
            r == (self.model() == other.model()),
        decreases self,
    {
        match self {
            FieldValue::Scalar(x) => match other {
                FieldValue::Scalar(y) => *x == *y,
                _ => false,
            },
            FieldValue::Unordered(x) => match other {
                FieldValue::Unordered(y) => atoms_equal(x, y),
                _ => false,
            },
            FieldValue::Nested(x) => match other {
                FieldValue::Nested(y) => {
                    proof {
                        lemma_nested_model(*x);
                        lemma_nested_model(*y);
                    }
                    x.same_as(y)
                },
                _ => false,
            },
        }
    }

    /// A copy of this field value.
    pub fn copy(&self) -> (r: FieldValue)
        ensures
            r.model() == self.model(),
        decreases self,
    {
        match self {
            FieldValue::Scalar(x) => FieldValue::Scalar(*x),
            FieldValue::Unordered(x) => FieldValue::Unordered(copy_atoms(x)),
            FieldValue::Nested(x) => {
                let c = x.copy();
                proof {
                    lemma_nested_model(*x);
                    lemma_nested_model(c);
                }
                FieldValue::Nested(c)
            },
        }
    }
}

impl Record {
    /// Whether two records are equal field by field.
    pub fn same_as(&self, other: &Record) -> (r: bool)
        ensures
            r == (self.model() == other.model()),
        decreases self,
    {
        if self.fields.len() != other.fields.len() {
            assert(self.model().len() != other.model().len());
            return false;
        }
        let mut i: usize = 0;
        while i < self.fields.len()
            invariant
                i <= self.fields@.len(),
                self.fields@.len() == other.fields@.len(),
                forall|k: int| 0 <= k < i ==> self.model()[k] == other.model()[k],
            decreases self.fields@.len() - i,
        {
            if !self.fields[i].same_as(&other.fields[i]) {
                assert(self.model()[i as int] != other.model()[i as int]);
                return false;
            }
            i = i + 1;
        }
        assert(self.model() =~= other.model());
        true
    }

    /// A copy of this record.
    pub fn copy(&self) -> (r: Record)
        ensures
            r.model() == self.model(),
        decreases self,
    {
        let mut out: Vec<FieldValue> = Vec::new();
        let mut i: usize = 0;
        while i < self.fields.len()
            invariant
                i <= self.fields@.len(),
                out@.len() == i,
                forall|k: int| 0 <= k < i ==> #[trigger] out@[k].model() == self.fields@[k].model(),
            decreases self.fields@.len() - i,
        {
            out.push(self.fields[i].copy());
            i = i + 1;
        }
        let r = Record { fields: out };
        assert(r.model() =~= self.model());
        r
    }
}

impl PartialEq for Record {
    fn eq(&self, other: &Record) -> (r: bool) {
        self.same_as(other)
    }
}

impl vstd::std_specs::cmp::PartialEqSpecImpl for Record {
    open spec fn obeys_eq_spec() -> bool {
        true
    }

    open spec fn eq_spec(&self, other: &Record) -> bool {
        self.model() == other.model()
    }
}

impl Clone for Record {
    fn clone(&self) -> (r: Record)
        ensures
            r.model() == self.model(),
    {
        self.copy()
    }
}

} // verus!
