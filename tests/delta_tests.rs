use delta_struct::{
    apply_unordered, classify_fields, remove_one, resolve, string_to_fieldtype, unordered_diff,
    Atom, Delta, FieldDelta, FieldRequest, FieldStrategy, FieldValue, Record, RecordDelta,
    RecordRequest, SchemaError,
};

fn atom(v: i64) -> Atom {
    Atom::Int(v)
}

fn ints(v: &[i64]) -> Vec<Atom> {
    v.iter().map(|x| Atom::Int(*x)).collect()
}

fn scalar_int(v: i64) -> FieldValue {
    FieldValue::Scalar(Atom::Int(v))
}

fn scalar_bool(v: bool) -> FieldValue {
    FieldValue::Scalar(Atom::Bool(v))
}

fn unordered(v: &[i64]) -> FieldValue {
    FieldValue::Unordered(ints(v))
}

fn new_type(v: i64) -> Record {
    Record { fields: vec![scalar_int(v)] }
}

fn field(name: &str, request: Option<&str>) -> FieldRequest {
    FieldRequest { name: name.to_string(), request: request.map(|s| s.to_string()) }
}

fn request(name: &str, default: Option<&str>, fields: Vec<FieldRequest>) -> RecordRequest {
    RecordRequest {
        name: name.to_string(),
        is_struct: true,
        default: default.map(|s| s.to_string()),
        fields,
    }
}

fn scalar_of(d: &RecordDelta, i: usize) -> Option<Atom> {
    match &d.fields[i] {
        FieldDelta::Scalar(v) => *v,
        other => panic!("not a scalar delta: {:?}", other),
    }
}

fn unordered_of(d: &RecordDelta, i: usize) -> (Vec<Atom>, Vec<Atom>) {
    match &d.fields[i] {
        FieldDelta::Unordered { add, remove } => (add.clone(), remove.clone()),
        other => panic!("not an unordered delta: {:?}", other),
    }
}

#[test]
fn unordered_with_scalar() {
    let strategies = resolve(&request(
        "SimpleCollectionWithGeneric",
        None,
        vec![field("foo", Some("unordered")), field("bar", None)],
    ))
    .unwrap();
    let old = Record { fields: vec![unordered(&[1, 2, 3]), scalar_bool(false)] };
    let new = Record { fields: vec![unordered(&[3, 4, 5]), scalar_bool(true)] };
    assert!(old.conforms_to(&strategies));
    assert!(new.conforms_to(&strategies));
    let delta = Delta::delta(old, new).unwrap();
    let (foo_add, foo_remove) = unordered_of(&delta, 0);
    assert_eq!(foo_add, ints(&[4, 5]));
    assert_eq!(foo_remove, ints(&[1, 2]));
    assert_eq!(scalar_of(&delta, 1), Some(Atom::Bool(true)));
}

#[test]
fn delta_false_positive_check() {
    let old = new_type(5);
    let new = new_type(5);
    let delta = Delta::delta(old, new);
    assert!(delta.is_none());
}

#[test]
fn scalar_delta_false_positive_check() {
    let old = Record { fields: vec![scalar_int(5), scalar_bool(false)] };
    let new = Record { fields: vec![scalar_int(5), scalar_bool(true)] };
    let delta = Delta::delta(old, new).unwrap();
    assert!(scalar_of(&delta, 0).is_none());
    assert_eq!(scalar_of(&delta, 1), Some(Atom::Bool(true)));
}

#[test]
fn delta_field() {
    let strategies = resolve(&request(
        "DeltaRecursion",
        None,
        vec![field("foo", Some("delta")), field("bar", None)],
    ))
    .unwrap();
    assert_eq!(strategies, vec![FieldStrategy::NestedDelta, FieldStrategy::Scalar]);
    let old = Record { fields: vec![FieldValue::Nested(new_type(5)), scalar_bool(false)] };
    let new = Record { fields: vec![FieldValue::Nested(new_type(6)), scalar_bool(true)] };
    let delta = Delta::delta(old, new).unwrap();
    match &delta.fields[0] {
        FieldDelta::Nested(Some(inner)) => {
            assert_eq!(inner.fields.len(), 1);
            assert_eq!(scalar_of(inner, 0), Some(atom(6)));
        }
        other => panic!("unexpected nested delta: {:?}", other),
    }
    assert_eq!(scalar_of(&delta, 1), Some(Atom::Bool(true)));
}

#[test]
fn default_type_respected() {
    let strategies = resolve(&request(
        "AttributeTest",
        Some("unordered"),
        vec![field("foo", Some("scalar")), field("bar", Some("scalar")), field("baz", None)],
    ))
    .unwrap();
    assert_eq!(
        strategies,
        vec![FieldStrategy::Scalar, FieldStrategy::Scalar, FieldStrategy::UnorderedCollection]
    );
    let old = Record { fields: vec![scalar_int(5), scalar_int(4), unordered(&[])] };
    let new = Record { fields: vec![scalar_int(5), scalar_int(4), unordered(&[9, 4, 5])] };
    assert!(old.conforms_to(&strategies));
    let delta = Delta::delta(old, new).unwrap();
    assert!(scalar_of(&delta, 0).is_none());
    assert!(scalar_of(&delta, 1).is_none());
    let (baz_add, baz_remove) = unordered_of(&delta, 2);
    assert_eq!(baz_add, ints(&[9, 4, 5]));
    assert_eq!(baz_remove, ints(&[]));
}

#[test]
fn apply_delta_all_field_types() {
    let old = Record {
        fields: vec![scalar_int(1), FieldValue::Nested(new_type(3)), unordered(&[1, 2, 3, 3])],
    };
    let new = Record {
        fields: vec![scalar_int(2), FieldValue::Nested(new_type(4)), unordered(&[3, 4, 5])],
    };
    let new_clone = new.clone();
    let mut old_delta_applied = old.clone();
    let delta = Delta::delta(old, new);
    old_delta_applied.apply_delta(delta.unwrap());
    assert_eq!(new_clone, old_delta_applied);
}

#[test]
fn duplicate_cancels_pairwise() {
    let (add, remove) = unordered_diff(&ints(&[1, 2, 3, 3]), &ints(&[3, 4, 5]));
    assert_eq!(add, ints(&[4, 5]));
    assert_eq!(remove, ints(&[1, 2, 3]));
}

#[test]
fn excess_duplicates_in_new_are_added() {
    let (add, remove) = unordered_diff(&ints(&[7, 1]), &ints(&[1, 7, 7, 2]));
    assert_eq!(add, ints(&[7, 2]));
    assert_eq!(remove, ints(&[]));
}

#[test]
fn unordered_diff_keeps_source_order() {
    let (add, remove) = unordered_diff(&ints(&[5, 9, 1, 9]), &ints(&[9, 8, 6]));
    assert_eq!(add, ints(&[8, 6]));
    assert_eq!(remove, ints(&[5, 1, 9]));
}

#[test]
fn unordered_diff_of_equal_collections_is_empty() {
    let (add, remove) = unordered_diff(&ints(&[2, 2, 3]), &ints(&[2, 2, 3]));
    assert!(add.is_empty());
    assert!(remove.is_empty());
}

#[test]
fn remove_one_takes_first_occurrence_only() {
    let mut v = ints(&[3, 5, 3]);
    remove_one(&mut v, atom(3));
    assert_eq!(v, ints(&[5, 3]));
    remove_one(&mut v, atom(8));
    assert_eq!(v, ints(&[5, 3]));
}

#[test]
fn apply_unordered_tolerates_absent_removal() {
    let mut v = ints(&[1, 2]);
    apply_unordered(&mut v, &ints(&[4]), &ints(&[9, 1]));
    assert_eq!(v, ints(&[2, 4]));
}

#[test]
fn unordered_round_trip_as_multiset() {
    let old = Record { fields: vec![unordered(&[1])] };
    let new = Record { fields: vec![unordered(&[2, 1])] };
    let mut applied = old.clone();
    let delta = Delta::delta(old, new).unwrap();
    applied.apply_delta(delta);
    match &applied.fields[0] {
        FieldValue::Unordered(v) => {
            let mut got: Vec<i64> = v
                .iter()
                .map(|a| match a {
                    Atom::Int(x) => *x,
                    Atom::Bool(_) => panic!("unexpected bool"),
                })
                .collect();
            got.sort();
            assert_eq!(got, vec![1, 2]);
        }
        other => panic!("unexpected field: {:?}", other),
    }
}

#[test]
fn record_diffed_with_itself_has_no_delta() {
    let r = Record {
        fields: vec![scalar_int(1), unordered(&[4, 4, 1]), FieldValue::Nested(new_type(2))],
    };
    let copy = r.clone();
    assert!(Delta::delta(r, copy).is_none());
}

#[test]
fn unchanged_nested_field_is_absent_beside_changed_sibling() {
    let old = Record { fields: vec![FieldValue::Nested(new_type(3)), scalar_int(1)] };
    let new = Record { fields: vec![FieldValue::Nested(new_type(3)), scalar_int(2)] };
    let delta = Delta::delta(old, new).unwrap();
    assert!(matches!(delta.fields[0], FieldDelta::Nested(None)));
    assert_eq!(scalar_of(&delta, 1), Some(atom(2)));
}

#[test]
fn all_fields_unchanged_gives_no_delta() {
    let old = Record {
        fields: vec![scalar_bool(true), unordered(&[3, 1]), FieldValue::Nested(new_type(0))],
    };
    let new = Record {
        fields: vec![scalar_bool(true), unordered(&[1, 3]), FieldValue::Nested(new_type(0))],
    };
    assert!(Delta::delta(old, new).is_none());
}

#[test]
fn apply_leaves_fields_without_change_alone() {
    let mut r = Record { fields: vec![scalar_int(1), unordered(&[1, 2])] };
    let d = RecordDelta {
        fields: vec![
            FieldDelta::Scalar(None),
            FieldDelta::Unordered { add: ints(&[]), remove: ints(&[]) },
        ],
    };
    r.apply_delta(d);
    assert_eq!(r, Record { fields: vec![scalar_int(1), unordered(&[1, 2])] });
}

#[test]
fn nested_round_trip_reaches_new() {
    let inner_old = Record { fields: vec![scalar_int(1), unordered(&[1, 2])] };
    let inner_new = Record { fields: vec![scalar_int(1), unordered(&[1, 5])] };
    let old = Record { fields: vec![FieldValue::Nested(inner_old), scalar_bool(false)] };
    let new = Record { fields: vec![FieldValue::Nested(inner_new), scalar_bool(false)] };
    let expected = new.clone();
    let mut applied = old.clone();
    let delta = Delta::delta(old, new).unwrap();
    assert!(scalar_of(&delta, 1).is_none());
    applied.apply_delta(delta);
    assert_eq!(applied, expected);
}

#[test]
fn strategy_strings() {
    assert_eq!(string_to_fieldtype("scalar"), Some(FieldStrategy::Scalar));
    assert_eq!(string_to_fieldtype("unordered"), Some(FieldStrategy::UnorderedCollection));
    assert_eq!(string_to_fieldtype("ordered"), Some(FieldStrategy::OrderedCollection));
    assert_eq!(string_to_fieldtype("delta"), Some(FieldStrategy::NestedDelta));
    assert_eq!(string_to_fieldtype("Scalar"), None);
    assert_eq!(string_to_fieldtype(""), None);
    assert_eq!(string_to_fieldtype("scalars"), None);
}

#[test]
fn default_strategy_is_scalar() {
    let strategies =
        resolve(&request("SimpleType", None, vec![field("foo", None), field("bar", None)]))
            .unwrap();
    assert_eq!(strategies, vec![FieldStrategy::Scalar, FieldStrategy::Scalar]);
}

#[test]
fn classify_fields_uses_own_request_first() {
    let fields = vec![field("a", None), field("b", Some("scalar")), field("c", Some("delta"))];
    let r = classify_fields(FieldStrategy::UnorderedCollection, &fields).unwrap();
    assert_eq!(
        r,
        vec![FieldStrategy::UnorderedCollection, FieldStrategy::Scalar, FieldStrategy::NestedDelta]
    );
}

#[test]
fn malformed_fields_reported_together() {
    let desc = request(
        "Broken",
        None,
        vec![field("a", Some("sorted")), field("b", Some("scalar")), field("c", Some("bag"))],
    );
    match resolve(&desc) {
        Err(SchemaError::MalformedFields { record, fields }) => {
            assert_eq!(record, "Broken");
            assert_eq!(fields, vec!["a".to_string(), "c".to_string()]);
        }
        other => panic!("unexpected result: {:?}", other),
    }
}

#[test]
fn malformed_default_comes_first() {
    let desc = request("Broken", Some("lists"), vec![field("a", Some("bag"))]);
    match resolve(&desc) {
        Err(SchemaError::MalformedDefault { record }) => assert_eq!(record, "Broken"),
        other => panic!("unexpected result: {:?}", other),
    }
}

#[test]
fn ordered_field_fails_construction() {
    let desc = request(
        "Ordered",
        None,
        vec![field("a", Some("scalar")), field("b", Some("ordered")), field("c", None)],
    );
    match resolve(&desc) {
        Err(SchemaError::OrderedUnsupported { record, field }) => {
            assert_eq!(record, "Ordered");
            assert_eq!(field, "b");
        }
        other => panic!("unexpected result: {:?}", other),
    }
}

#[test]
fn ordered_default_fails_construction() {
    let desc = request("Ordered", Some("ordered"), vec![field("a", Some("scalar")), field("b", None)]);
    match resolve(&desc) {
        Err(SchemaError::OrderedUnsupported { field, .. }) => assert_eq!(field, "b"),
        other => panic!("unexpected result: {:?}", other),
    }
}

#[test]
fn unit_record_rejected() {
    let desc = request("UnitType", None, vec![]);
    match resolve(&desc) {
        Err(SchemaError::NoFields { record }) => assert_eq!(record, "UnitType"),
        other => panic!("unexpected result: {:?}", other),
    }
}

#[test]
fn non_struct_rejected() {
    let mut desc = request("Choice", None, vec![field("a", None)]);
    desc.is_struct = false;
    match resolve(&desc) {
        Err(SchemaError::NotAStruct { record }) => assert_eq!(record, "Choice"),
        other => panic!("unexpected result: {:?}", other),
    }
}

#[test]
fn conformance_checks_strategies() {
    let r = Record { fields: vec![scalar_int(1), unordered(&[])] };
    assert!(r.conforms_to(&vec![FieldStrategy::Scalar, FieldStrategy::UnorderedCollection]));
    assert!(!r.conforms_to(&vec![FieldStrategy::Scalar, FieldStrategy::Scalar]));
    assert!(!r.conforms_to(&vec![FieldStrategy::Scalar]));
}
