//! Materialization: deciding, for every component of an evaluated entity
//! record, how it is attached. Nothing is attached unless every component
//! has a way to be attached.

use vstd::prelude::*;

use crate::error::{Error, ErrorModel};
use crate::registry::BlueprintComponentAdderRegistry;
use crate::value::{
    entries_model, kind_name, lemma_entries_model_index, lemma_values_model_index, EntityMap,
    Value, ValueModel,
};

verus! {

/// A plain field value of a dynamically built component.
#[derive(PartialEq, Debug)]
pub enum FieldValue {
    String(String),
    I32(i32),
    F32(u32),
}

impl View for FieldValue {
    type V = ValueModel;

    open spec fn view(&self) -> ValueModel {
        match self {
            FieldValue::String(s) => ValueModel::Str(s@),
            FieldValue::I32(i) => ValueModel::I32(*i),
            FieldValue::F32(b) => ValueModel::F32(*b),
        }
    }
}

/// A component built from a value's shape, to be applied through the host's
/// reflection: named fields from a mapping, positional fields from a
/// sequence.
#[derive(PartialEq, Debug)]
pub enum DynamicComponent {
    Struct(Vec<(String, FieldValue)>),
    TupleStruct(Vec<FieldValue>),
}

pub enum DynamicModel {
    Struct(Seq<(Seq<char>, ValueModel)>),
    TupleStruct(Seq<ValueModel>),
}

impl View for DynamicComponent {
    type V = DynamicModel;

    open spec fn view(&self) -> DynamicModel {
        match self {
            DynamicComponent::Struct(fs) => DynamicModel::Struct(
                fs@.map_values(|f: (String, FieldValue)| (f.0@, f.1@)),
            ),
            DynamicComponent::TupleStruct(fs) => DynamicModel::TupleStruct(
                fs@.map_values(|f: FieldValue| f@),
            ),
        }
    }
}

/// How one component of a record is attached.
#[derive(Debug)]
pub enum ComponentStep {
    /// By the strategy registered under the name.
    Registered { name: String, value: Value },
    /// By the host's reflection, for a type the host's catalog knows.
    Reflected { name: String, component: DynamicComponent },
}

pub enum StepModel {
    Registered(Seq<char>, ValueModel),
    Reflected(Seq<char>, DynamicModel),
}

impl View for ComponentStep {
    type V = StepModel;

    open spec fn view(&self) -> StepModel {
        match self {
            ComponentStep::Registered { name, value } => StepModel::Registered(name@, value@),
            ComponentStep::Reflected { name, component } => StepModel::Reflected(
                name@,
                component@,
            ),
        }
    }
}

/// A string, an integer or a float.
pub open spec fn is_flat(v: ValueModel) -> bool {
    v is Str || v is I32 || v is F32
}

/// The first value of `vs` that is not a plain field value.
pub open spec fn first_nested(vs: Seq<ValueModel>) -> Option<ValueModel>
    decreases vs.len(),
{
    if vs.len() == 0 {
        None
    } else {
        match first_nested(vs.drop_last()) {
            Some(x) => Some(x),
            None => if is_flat(vs.last()) {
                None
            } else {
                Some(vs.last())
            },
        }
    }
}

pub open spec fn field_values(es: Seq<(Seq<char>, ValueModel)>) -> Seq<ValueModel> {
    es.map_values(|p: (Seq<char>, ValueModel)| p.1)
}

/// A record with a component that has neither a registered strategy nor a
/// catalog entry fails with an unknown-component error for the first such
/// component, whenever every component before it can be attached; no step
/// is produced, so nothing of the record is attached.
pub proof fn lemma_unknown_component_fails(
    es: Seq<(Seq<char>, ValueModel)>,
    registered: Seq<Seq<char>>,
    catalog: Seq<Seq<char>>,
    k: int,
)
    requires
        0 <= k < es.len(),
        !registered.contains(es[k].0),
        !catalog.contains(es[k].0),
        plan_model(es.take(k), registered, catalog) is Ok,
    ensures
        plan_model(es, registered, catalog) == Err::<Seq<StepModel>, ErrorModel>(
            ErrorModel::UnknownComponent(es[k].0),
        ),
{
    assert(es.take(k + 1).drop_last() =~= es.take(k));
    lemma_plan_failure_stays(es, registered, catalog, k + 1, es.len() as int);
    assert(es.take(es.len() as int) =~= es);
}

/// The component that reflection builds from `v`: only mappings and
/// sequences of plain field values have one; any other shape is refused.
pub open spec fn reflect_model(v: ValueModel) -> Result<DynamicModel, ErrorModel> {
    match v {
        ValueModel::KeyMap(es) => match first_nested(field_values(es)) {
            Some(x) => Err(ErrorModel::UnexpectedType(kind_name(x), "field value"@)),
            None => Ok(DynamicModel::Struct(es)),
        },
        ValueModel::Vec(vs) => match first_nested(vs) {
            Some(x) => Err(ErrorModel::UnexpectedType(kind_name(x), "field value"@)),
            None => Ok(DynamicModel::TupleStruct(vs)),
        },
        other => Err(ErrorModel::UnexpectedType(kind_name(other), "map or vec"@)),
    }
}

/// How the component `name` with value `v` is attached: by its registered
/// strategy, else through reflection when the catalog knows the name, else
/// not at all.
pub open spec fn step_model(
    name: Seq<char>,
    v: ValueModel,
    registered: Seq<Seq<char>>,
    catalog: Seq<Seq<char>>,
) -> Result<StepModel, ErrorModel> {
    if registered.contains(name) {
        Ok(StepModel::Registered(name, v))
    } else if catalog.contains(name) {
        match reflect_model(v) {
            Ok(d) => Ok(StepModel::Reflected(name, d)),
            Err(x) => Err(x),
        }
    } else {
        Err(ErrorModel::UnknownComponent(name))
    }
}

/// The steps for every component of a record, in order; the first component
/// that cannot be attached gives the error.
pub open spec fn plan_model(
    es: Seq<(Seq<char>, ValueModel)>,
    registered: Seq<Seq<char>>,
    catalog: Seq<Seq<char>>,
) -> Result<Seq<StepModel>, ErrorModel>
    decreases es.len(),
{
    if es.len() == 0 {
        Ok(Seq::empty())
    } else {
        match plan_model(es.drop_last(), registered, catalog) {
            Ok(steps) => match step_model(es.last().0, es.last().1, registered, catalog) {
                Ok(s) => Ok(steps.push(s)),
                Err(x) => Err(x),
            },
            Err(x) => Err(x),
        }
    }
}

pub open spec fn names_of(names: Seq<String>) -> Seq<Seq<char>> {
    names.map_values(|s: String| s@)
}

proof fn lemma_first_nested_stays(vs: Seq<ValueModel>, k: int, j: int)
    requires
        0 <= k <= j <= vs.len(),
        first_nested(vs.take(k)) is Some,
    ensures
        first_nested(vs.take(j)) == first_nested(vs.take(k)),
    decreases j - k,
{
    if j > k {
        lemma_first_nested_stays(vs, k, j - 1);
        assert(vs.take(j).drop_last() =~= vs.take(j - 1));
    }
}

proof fn lemma_plan_failure_stays(
    es: Seq<(Seq<char>, ValueModel)>,
    registered: Seq<Seq<char>>,
    catalog: Seq<Seq<char>>,
    k: int,
    j: int,
)
    requires
        0 <= k <= j <= es.len(),
        plan_model(es.take(k), registered, catalog) is Err,
    ensures
        plan_model(es.take(j), registered, catalog) == plan_model(es.take(k), registered, catalog),
    decreases j - k,
{
    if j > k {
        lemma_plan_failure_stays(es, registered, catalog, k, j - 1);
        assert(es.take(j).drop_last() =~= es.take(j - 1));
    }
}

/// The plain field value of `v`, if it is one.
fn flat_field(v: &Value) -> (r: Option<FieldValue>)
    ensures
        r is Some <==> is_flat(v@),
        r matches Some(f) ==> f@ == v@,
{
    match v {
        Value::String(s) => Some(FieldValue::String(s.clone())),
        Value::I32(i) => Some(FieldValue::I32(*i)),
        Value::F32(b) => Some(FieldValue::F32(*b)),
        _ => None,
    }
}

/// Builds the component that reflection applies for `value`: a mapping of
/// plain values gives named fields, a sequence of plain values positional
/// ones. Nested shapes and bare scalars are refused.
pub fn reflect_component(value: &Value) -> (r: Result<DynamicComponent, Error>)
    ensures
        match r {
            Ok(d) => reflect_model(value@) == Ok::<DynamicModel, ErrorModel>(d@),
            Err(e) => reflect_model(value@) == Err::<DynamicModel, ErrorModel>(e@),
        },
{
    proof {
        reveal_strlit("field value");
        reveal_strlit("map or vec");
    }
    match value {
        Value::KeyMap(m) => {
            let ghost es = entries_model(m.entries@);
            let ghost vals = field_values(es);
            proof {
                lemma_entries_model_index(m.entries@);
            }
            let mut out: Vec<(String, FieldValue)> = Vec::new();
            let mut i: usize = 0;
            while i < m.entries.len()
                invariant
                    *value == Value::KeyMap(*m),
                    es == entries_model(m.entries@),
                    vals == field_values(es),
                    es.len() == m.entries@.len(),
                    forall|j: int|
                        0 <= j < m.entries@.len() ==> #[trigger] es[j] == (
                            m.entries@[j].0@,
                            m.entries@[j].1@,
                        ),
                    i <= m.entries@.len(),
                    out@.len() == i,
                    forall|j: int|
                        0 <= j < i ==> (#[trigger] out@[j]).0@ == es[j].0 && out@[j].1@ == es[j].1,
                    first_nested(vals.take(i as int)) is None,
                decreases m.entries@.len() - i,
            {
                proof {
                    assert(vals.take(i + 1).drop_last() =~= vals.take(i as int));
                }
                match flat_field(&m.entries[i].1) {
                    Some(f) => {
                        out.push((m.entries[i].0.clone(), f));
                    },
                    None => {
                        proof {
                            lemma_first_nested_stays(vals, i + 1, vals.len() as int);
                            assert(vals.take(vals.len() as int) =~= vals);
                        }
                        return Err(
                            Error::UnexpectedType {
                                unexpected: m.entries[i].1.typename(),
                                expected: "field value",
                            },
                        );
                    },
                }
                i = i + 1;
            }
            assert(vals.take(vals.len() as int) =~= vals);
            let d = DynamicComponent::Struct(out);
            assert(out@.map_values(|f: (String, FieldValue)| (f.0@, f.1@)) =~= es);
            Ok(d)
        },
        Value::Vec(vs) => {
            let ghost vals = crate::value::values_model(vs@);
            proof {
                lemma_values_model_index(vs@);
            }
            let mut out: Vec<FieldValue> = Vec::new();
            let mut i: usize = 0;
            while i < vs.len()
                invariant
                    *value == Value::Vec(*vs),
                    vals == crate::value::values_model(vs@),
                    vals.len() == vs@.len(),
                    forall|j: int| 0 <= j < vs@.len() ==> #[trigger] vals[j] == vs@[j]@,
                    i <= vs@.len(),
                    out@.len() == i,
                    forall|j: int| 0 <= j < i ==> (#[trigger] out@[j])@ == vals[j],
                    first_nested(vals.take(i as int)) is None,
                decreases vs@.len() - i,
            {
                proof {
                    assert(vals.take(i + 1).drop_last() =~= vals.take(i as int));
                }
                match flat_field(&vs[i]) {
                    Some(f) => {
                        out.push(f);
                    },
                    None => {
                        proof {
                            lemma_first_nested_stays(vals, i + 1, vals.len() as int);
                            assert(vals.take(vals.len() as int) =~= vals);
                        }
                        return Err(
                            Error::UnexpectedType {
                                unexpected: vs[i].typename(),
                                expected: "field value",
                            },
                        );
                    },
                }
                i = i + 1;
            }
            assert(vals.take(vals.len() as int) =~= vals);
            let d = DynamicComponent::TupleStruct(out);
            assert(out@.map_values(|f: FieldValue| f@) =~= vals);
            Ok(d)
        },
        _ => Err(Error::UnexpectedType { unexpected: value.typename(), expected: "map or vec" }),
    }
}

/// Whether `name` is among `catalog`.
fn in_catalog(catalog: &Vec<String>, name: &String) -> (r: bool)
    ensures
        r == names_of(catalog@).contains(name@),
{
    let mut i: usize = 0;
    while i < catalog.len()
        invariant
            i <= catalog@.len(),
            forall|j: int| 0 <= j < i ==> #[trigger] catalog@[j]@ != name@,
        decreases catalog@.len() - i,
    {
        if catalog[i] == *name {
            assert(names_of(catalog@)[i as int] == name@);
            return true;
        }
        i = i + 1;
    }
    proof {
        if names_of(catalog@).contains(name@) {
            let k = names_of(catalog@).index_of(name@);
            assert(catalog@[k]@ == name@);
        }
    }
    false
}

/// Decides how each component of `record` is attached, in order: by the
/// strategy `registry` holds for its name, else through reflection when
/// `catalog` (the host's known component types) names it. The first
/// component that has neither, or whose value reflection refuses, fails
/// the whole record, so that nothing of it is attached.
pub fn plan_entity<A>(
    record: EntityMap<Value>,
    registry: &BlueprintComponentAdderRegistry<A>,
    catalog: &Vec<String>,
) -> (r: Result<Vec<ComponentStep>, Error>)
    requires
        registry.wf(),
    ensures
        match r {
            Ok(steps) => plan_model(
                entries_model(record.entries@),
                registry.names(),
                names_of(catalog@),
            ) == Ok::<Seq<StepModel>, ErrorModel>(steps@.map_values(|s: ComponentStep| s@)),
            Err(e) => plan_model(entries_model(record.entries@), registry.names(), names_of(catalog@))
                == Err::<Seq<StepModel>, ErrorModel>(e@),
        },
{
    let ghost src = record.entries@;
    let ghost es = entries_model(src);
    let ghost reg = registry.names();
    let ghost cat = names_of(catalog@);
    proof {
        lemma_entries_model_index(src);
    }
    let n = record.entries.len();
    let mut rest = crate::value::reversed_entries(record.into_components());
    let mut out: Vec<ComponentStep> = Vec::new();
    let mut failure: Option<Error> = None;
    let mut i: usize = 0;
    assert(es.take(0) =~= Seq::<(Seq<char>, ValueModel)>::empty());
    assert(out@.map_values(|s: ComponentStep| s@) =~= Seq::<StepModel>::empty());
    while i < n && failure.is_none()
        invariant
            n == src.len(),
            es == entries_model(src),
            es.len() == n,
            forall|j: int| 0 <= j < n ==> #[trigger] es[j] == (src[j].0@, src[j].1@),
            reg == registry.names(),
            registry.wf(),
            cat == names_of(catalog@),
            i <= n,
            rest@.len() + (if failure is Some { 1int } else { 0int }) == n - i,
            forall|k: int| 0 <= k < rest@.len() ==> #[trigger] rest@[k] == src[n - 1 - k],
            plan_model(es.take(i as int), reg, cat) == Ok::<Seq<StepModel>, ErrorModel>(
                out@.map_values(|s: ComponentStep| s@),
            ),
            failure matches Some(e) ==> i < n && plan_model(es.take(i + 1), reg, cat) == Err::<
                Seq<StepModel>,
                ErrorModel,
            >(e@),
        decreases n - i, (if failure is Some { 0int } else { 1int }),
    {
        let (name, value) = rest.pop().unwrap();
        proof {
            assert(es.take(i + 1).drop_last() =~= es.take(i as int));
            assert(es[i as int] == (name@, value@));
        }
        if registry.get_adder(name.as_str()).is_some() {
            let step = ComponentStep::Registered { name, value };
            proof {
                assert(out@.push(step).map_values(|s: ComponentStep| s@) =~= out@.map_values(
                    |s: ComponentStep| s@,
                ).push(step@));
            }
            out.push(step);
            i = i + 1;
        } else if in_catalog(catalog, &name) {
            match reflect_component(&value) {
                Ok(component) => {
                    let step = ComponentStep::Reflected { name, component };
                    proof {
                        assert(out@.push(step).map_values(|s: ComponentStep| s@)
                            =~= out@.map_values(|s: ComponentStep| s@).push(step@));
                    }
                    out.push(step);
                    i = i + 1;
                },
                Err(e) => {
                    failure = Some(e);
                },
            }
        } else {
            failure = Some(Error::UnknownComponent(name));
        }
    }
    match failure {
        Some(e) => {
            proof {
                lemma_plan_failure_stays(es, reg, cat, i + 1, n as int);
                assert(es.take(n as int) =~= es);
            }
            Err(e)
        },
        None => {
            assert(es.take(n as int) =~= es);
            Ok(out)
        },
    }
}

} // verus!
