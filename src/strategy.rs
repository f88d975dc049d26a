//! Resolution of each field of a record type to one diffing strategy.
use vstd::prelude::*;
use vstd::string::StrSliceExecFns;

verus! {

/// How a field is diffed.
#[derive(Clone, Copy, Debug, PartialEq, Eq, Structural)]
pub enum FieldStrategy {
    /// Compared by equality; the delta carries the new value when it differs.
    Scalar,
    /// A multiset of elements; the delta carries additions and removals.
    UnorderedCollection,
    /// A record of its own; the delta carries its nested delta, if any.
    NestedDelta,
    /// Position-aware sequence diffing, which no engine supports.
    OrderedCollection,
}

/// The strategy that a request string names, if it names one.
pub open spec fn strategy_of(s: Seq<char>) -> Option<FieldStrategy> {
    if s == "scalar"@ {
        Some(FieldStrategy::Scalar)
    } else if s == "unordered"@ {
        Some(FieldStrategy::UnorderedCollection)
    } else if s == "ordered"@ {
        Some(FieldStrategy::OrderedCollection)
    } else if s == "delta"@ {
        Some(FieldStrategy::NestedDelta)
    } else {
        None
    }
}

fn same_text(s: &str, t: &str) -> (r: bool)
    ensures
        r == (s@ == t@),
{
    let n = s.unicode_len();
    if n != t.unicode_len() {
        return false;
    }
    let mut i: usize = 0;
    while i < n
        invariant
            n == s@.len(),
            n == t@.len(),
            i <= n,
            forall|k: int| 0 <= k < i ==> s@[k] == t@[k],
        decreases n - i,
    {
        if s.get_char(i) != t.get_char(i) {
            return false;
        }
        i = i + 1;
    }
    assert(s@ =~= t@);
    true
}

/// Reads a strategy request: `"scalar"`, `"unordered"`, `"ordered"` or `"delta"`.
pub fn string_to_fieldtype(s: &str) -> (r: Option<FieldStrategy>)
    ensures
        r == strategy_of(s@),
{
    if same_text(s, "scalar") {
        Some(FieldStrategy::Scalar)
    } else if same_text(s, "unordered") {
        Some(FieldStrategy::UnorderedCollection)
    } else if same_text(s, "ordered") {
        Some(FieldStrategy::OrderedCollection)
    } else if same_text(s, "delta") {
        Some(FieldStrategy::NestedDelta)
    } else {
        None
    }
}

/// A field of a record type as declared: its name (or position) and the
/// strategy it asks for, if it asks for one.
pub struct FieldRequest {
    pub name: String,
    pub request: Option<String>,
}

/// A record type as declared: its name, whether it is a product type with
/// fields, the strategy its fields default to, and its fields.
pub struct RecordRequest {
    pub name: String,
    pub is_struct: bool,
    pub default: Option<String>,
    pub fields: Vec<FieldRequest>,
}

/// Why no engine can be built for a record type.
#[derive(Debug)]
pub enum SchemaError {
    /// The record-level default request names no strategy.
    MalformedDefault { record: String },
    /// The type is not a product type with fields.
    NotAStruct { record: String },
    /// The type has no fields: there is nothing to diff.
    NoFields { record: String },
    /// These fields request a strategy that does not exist.
    MalformedFields { record: String, fields: Vec<String> },
    /// This field resolves to the unsupported ordered-collection strategy.
    OrderedUnsupported { record: String, field: String },
}

/// What a `SchemaError` says, over the characters of its names.
pub ghost enum SchemaErrorView {
    MalformedDefault(Seq<char>),
    NotAStruct(Seq<char>),
    NoFields(Seq<char>),
    MalformedFields(Seq<char>, Seq<Seq<char>>),
    OrderedUnsupported(Seq<char>, Seq<char>),
}

impl SchemaError {
    pub open spec fn view(&self) -> SchemaErrorView {
        match self {
            SchemaError::MalformedDefault { record } => SchemaErrorView::MalformedDefault(record@),
            SchemaError::NotAStruct { record } => SchemaErrorView::NotAStruct(record@),
            SchemaError::NoFields { record } => SchemaErrorView::NoFields(record@),
            SchemaError::MalformedFields { record, fields } => SchemaErrorView::MalformedFields(
                record@,
                fields@.map_values(|f: String| f@),
            ),
            SchemaError::OrderedUnsupported { record, field } => SchemaErrorView::OrderedUnsupported(
                record@,
                field@,
            ),
        }
    }
}

/// Whether a field's own request is absent or names a strategy.
pub open spec fn request_ok(req: Option<String>) -> bool {
    match req {
        Some(s) => strategy_of(s@) is Some,
        None => true,
    }
}

/// A field's strategy: its own request if it names one, else the default.
pub open spec fn field_strategy(default: FieldStrategy, req: Option<String>) -> FieldStrategy {
    match req {
        Some(s) => match strategy_of(s@) {
            Some(x) => x,
            None => default,
        },
        None => default,
    }
}

/// Names of the fields among the first `n` whose request names no strategy, in order.
pub open spec fn malformed_names(fields: Seq<FieldRequest>, n: nat) -> Seq<Seq<char>>
    decreases n,
{
    if n == 0 {
        Seq::empty()
    } else {
        let prev = malformed_names(fields, (n - 1) as nat);
        if request_ok(fields[n - 1].request) {
            prev
        } else {
            prev.push(fields[n - 1].name@)
        }
    }
}

/// The record-level default: `Scalar` when none is given.
pub open spec fn default_of(req: Option<String>) -> Option<FieldStrategy> {
    match req {
        Some(s) => strategy_of(s@),
        None => Some(FieldStrategy::Scalar),
    }
}

/// Strategies of the fields when each request is well formed.
pub open spec fn strategies(default: FieldStrategy, fields: Seq<FieldRequest>) -> Seq<FieldStrategy> {
    Seq::new(fields.len(), |i: int| field_strategy(default, fields[i].request))
}

/// Whether `i` is the first position of an ordered-collection strategy in `s`.
pub open spec fn first_ordered(s: Seq<FieldStrategy>, i: int) -> bool {
    &&& 0 <= i < s.len()
    &&& s[i] == FieldStrategy::OrderedCollection
    &&& forall|j: int| 0 <= j < i ==> s[j] != FieldStrategy::OrderedCollection
}

/// What resolving a record type gives: the strategy of each field, or the
/// first error in this order: a malformed default, a type that is not a
/// struct, a struct without fields, the malformed field requests (all of
/// them), the first field that resolves to an ordered collection.
pub open spec fn resolve_spec(desc: RecordRequest) -> Result<Seq<FieldStrategy>, SchemaErrorView> {
    let name = desc.name@;
    let fields = desc.fields@;
    if default_of(desc.default) is None {
        Err(SchemaErrorView::MalformedDefault(name))
    } else if !desc.is_struct {
        Err(SchemaErrorView::NotAStruct(name))
    } else if fields.len() == 0 {
        Err(SchemaErrorView::NoFields(name))
    } else if malformed_names(fields, fields.len()).len() > 0 {
        Err(SchemaErrorView::MalformedFields(name, malformed_names(fields, fields.len())))
    } else {
        let s = strategies(default_of(desc.default).unwrap(), fields);
        if exists|i: int| first_ordered(s, i) {
            let i = choose|i: int| first_ordered(s, i);
            Err(SchemaErrorView::OrderedUnsupported(name, fields[i].name@))
        } else {
            Ok(s)
        }
    }
}

fn request_strategy(req: &Option<String>) -> (r: Option<FieldStrategy>)
    ensures
        match req {
            Some(s) => r == strategy_of(s@),
            None => r is None,
        },
{
    match req {
        Some(s) => string_to_fieldtype(s.as_str()),
        None => None,
    }
}

/// Resolves every field to a strategy, each field's own request taking
/// precedence over `default`; or names every field whose request is
/// malformed, in order.
pub fn classify_fields(default: FieldStrategy, fields: &Vec<FieldRequest>) -> (r: Result<
    Vec<FieldStrategy>,
    Vec<String>,
>)
    ensures
        match r {
            Ok(v) => malformed_names(fields@, fields@.len()).len() == 0 && v@ == strategies(
                default,
                fields@,
            ),
            Err(bad) => malformed_names(fields@, fields@.len()).len() > 0 && bad@.map_values(
                |f: String| f@,
            ) == malformed_names(fields@, fields@.len()),
        },
{
    let mut out: Vec<FieldStrategy> = Vec::new();
    let mut bad: Vec<String> = Vec::new();
    let mut i: usize = 0;
    while i < fields.len()
        invariant
            i <= fields.len(),
            bad@.map_values(|f: String| f@) == malformed_names(fields@, i as nat),
            out@ == strategies(default, fields@.take(i as int)),
        decreases fields.len() - i,
    {
        let f = &fields[i];
        let ghost prev_bad = bad@;
        match request_strategy(&f.request) {
            Some(s) => out.push(s),
            None => {
                if f.request.is_some() {
                    bad.push(f.name.clone());
                    proof {
                        assert(bad@.map_values(|f: String| f@) =~= prev_bad.map_values(
                            |f: String| f@,
                        ).push(f.name@));
                    }
                }
                out.push(default);
            },
        }
        i = i + 1;
        proof {
            assert(strategies(default, fields@.take(i as int)) =~= strategies(
                default,
                fields@.take(i - 1),
            ).push(field_strategy(default, fields@[i - 1].request)));
        }
    }
    proof {
        assert(fields@.take(fields.len() as int) =~= fields@);
    }
    if bad.len() > 0 {
        Err(bad)
    } else {
        Ok(out)
    }
}

/// Resolves a record type to the strategies of its fields, as `resolve_spec`
/// describes, rejecting any field that resolves to an ordered collection.
pub fn resolve(desc: &RecordRequest) -> (r: Result<Vec<FieldStrategy>, SchemaError>)
    ensures
        match r {
            Ok(v) => resolve_spec(*desc) == Ok::<Seq<FieldStrategy>, SchemaErrorView>(v@),
            Err(e) => resolve_spec(*desc) == Err::<Seq<FieldStrategy>, SchemaErrorView>(e.view()),
        },
{
    let default = match &desc.default {
        Some(d) => match string_to_fieldtype(d.as_str()) {
            Some(s) => s,
            None => {
                return Err(SchemaError::MalformedDefault { record: desc.name.clone() });
            },
        },
        None => FieldStrategy::Scalar,
    };
    if !desc.is_struct {
        return Err(SchemaError::NotAStruct { record: desc.name.clone() });
    }
    if desc.fields.len() == 0 {
        return Err(SchemaError::NoFields { record: desc.name.clone() });
    }
    let strats = match classify_fields(default, &desc.fields) {
        Ok(v) => v,
        Err(bad) => {
            return Err(SchemaError::MalformedFields { record: desc.name.clone(), fields: bad });
        },
    };
    let mut i: usize = 0;
    while i < strats.len()
        invariant
            i <= strats.len(),
            strats@.len() == desc.fields@.len(),
            default_of(desc.default) is Some,
            desc.is_struct,
            desc.fields@.len() > 0,
            malformed_names(desc.fields@, desc.fields@.len()).len() == 0,
            strats@ == strategies(default_of(desc.default).unwrap(), desc.fields@),
            forall|j: int| 0 <= j < i ==> strats@[j] != FieldStrategy::OrderedCollection,
        decreases strats.len() - i,
    {
        if strats[i] == FieldStrategy::OrderedCollection {
            proof {
                assert(first_ordered(strats@, i as int));
                let k = choose|k: int| first_ordered(strats@, k);
                assert(k == i);

            }
            return Err(
                SchemaError::OrderedUnsupported {
                    record: desc.name.clone(),
                    field: desc.fields[i].name.clone(),
                },
            );
        }
        i = i + 1;
    }
    Ok(strats)
}

proof fn lemma_malformed_listed(fields: Seq<FieldRequest>, n: nat, i: int)
    requires
        n <= fields.len(),
        0 <= i < n,
        !request_ok(fields[i].request),
    ensures
        malformed_names(fields, n).contains(fields[i].name@),
    decreases n,
{
    let prev = malformed_names(fields, (n - 1) as nat);
    if i < n - 1 {
        lemma_malformed_listed(fields, (n - 1) as nat, i);
        let k = choose|k: int| 0 <= k < prev.len() && prev[k] == fields[i].name@;
        if !request_ok(fields[n - 1].request) {
            assert(prev.push(fields[n - 1].name@)[k] == fields[i].name@);
        }
    } else {
        assert(prev.push(fields[i].name@)[prev.len() as int] == fields[i].name@);
    }
}

/// Malformed field requests are reported together: when the default and the
/// type's shape are acceptable, resolution fails with one error that names
/// every field whose request is malformed.
pub proof fn lemma_malformed_fields_reported_together(desc: RecordRequest)
    requires
        default_of(desc.default) is Some,
        desc.is_struct,
        desc.fields@.len() > 0,
        exists|i: int| 0 <= i < desc.fields@.len() && !request_ok(desc.fields@[i].request),
    ensures
        resolve_spec(desc) is Err,
        resolve_spec(desc)->Err_0 is MalformedFields,
        forall|i: int|
            0 <= i < desc.fields@.len() && !request_ok(#[trigger] desc.fields@[i].request)
                ==> resolve_spec(desc)->Err_0->MalformedFields_1.contains(desc.fields@[i].name@),
{
    let fields = desc.fields@;
    let i = choose|i: int| 0 <= i < fields.len() && !request_ok(fields[i].request);
    lemma_malformed_listed(fields, fields.len(), i);
    assert forall|j: int| 0 <= j < fields.len() && !request_ok(#[trigger] fields[j].request) implies malformed_names(
        fields,
        fields.len(),
    ).contains(fields[j].name@) by {
        lemma_malformed_listed(fields, fields.len(), j);
    }
}

proof fn lemma_first_ordered_exists(s: Seq<FieldStrategy>, k: int)
    requires
        0 <= k < s.len(),
        s[k] == FieldStrategy::OrderedCollection,
    ensures
        exists|i: int| first_ordered(s, i),
    decreases k,
{
    if exists|j: int| 0 <= j < k && s[j] == FieldStrategy::OrderedCollection {
        let j = choose|j: int| 0 <= j < k && s[j] == FieldStrategy::OrderedCollection;
        lemma_first_ordered_exists(s, j);
    } else {
        assert(first_ordered(s, k));
    }
}

/// No resolution succeeds with a field resolved to an ordered collection;
/// when nothing else is wrong, such a field makes resolution fail with the
/// unsupported-strategy error.
pub proof fn lemma_ordered_rejected(desc: RecordRequest, k: int)
    requires
        0 <= k < desc.fields@.len(),
        default_of(desc.default) is Some,
        field_strategy(default_of(desc.default).unwrap(), desc.fields@[k].request)
            == FieldStrategy::OrderedCollection,
    ensures
        resolve_spec(desc) is Err,
        desc.is_struct && malformed_names(desc.fields@, desc.fields@.len()).len() == 0
            ==> resolve_spec(desc)->Err_0 is OrderedUnsupported,
{
    let s = strategies(default_of(desc.default).unwrap(), desc.fields@);
    assert(s[k] == FieldStrategy::OrderedCollection);
    lemma_first_ordered_exists(s, k);
}

} // verus!
