//! Decoding a [`Value`] into a statically described target shape.
//!
//! These are the rules of the bridge from values to typed components, stated
//! over a description of the target type. An application that builds its
//! components with serde runs its own `Deserializer` over values, which
//! follows the same rules for types with a derived `Deserialize`; that code
//! is not this module and is not verified here.
//!
//! A string fills a string field or selects a variant of a bare enumeration;
//! integers and floats fill numeric fields of their kind, and an integer also
//! fills a float field; a sequence fills a list or, element by element, the
//! positional fields of a tuple; a mapping fills named fields, where keys
//! that name no field are ignored and a field without a key is missing. A
//! new-type wrapper decodes as its single inner field. An entity record
//! decodes into nothing.

use vstd::prelude::*;

use crate::error::{ToComponentError, ToComponentErrorModel};
use crate::value::{
    first_named, kind_name, lemma_first_named_found, lemma_first_named_none, Value, ValueModel,
};

verus! {

/// The shape of a target type.
#[derive(PartialEq, Debug)]
pub enum Shape {
    Str,
    I32,
    F32,
    /// A list of elements of one shape.
    List(Box<Shape>),
    /// Named fields, in declaration order.
    Struct(Vec<(String, Shape)>),
    /// Positional fields.
    Tuple(Vec<Shape>),
    /// A bare enumeration: the names of its unit variants.
    Enum(Vec<String>),
    /// A wrapper around one inner field.
    Newtype(Box<Shape>),
}

/// A decoded target value. Fields of a struct come in declaration order; a
/// variant is given by its index.
#[derive(PartialEq, Debug)]
pub enum Decoded {
    Str(String),
    I32(i32),
    /// The bit pattern of a single-precision float.
    F32(u32),
    /// An integer that fills a float field.
    IntAsFloat(i32),
    List(Vec<Decoded>),
    Struct(Vec<Decoded>),
    Tuple(Vec<Decoded>),
    Variant(usize),
}

pub enum DecodedModel {
    Str(Seq<char>),
    I32(i32),
    F32(u32),
    IntAsFloat(i32),
    List(Seq<DecodedModel>),
    Struct(Seq<DecodedModel>),
    Tuple(Seq<DecodedModel>),
    Variant(nat),
}

pub open spec fn decoded_model(d: Decoded) -> DecodedModel
    decreases d,
{
    match d {
        Decoded::Str(s) => DecodedModel::Str(s@),
        Decoded::I32(i) => DecodedModel::I32(i),
        Decoded::F32(b) => DecodedModel::F32(b),
        Decoded::IntAsFloat(i) => DecodedModel::IntAsFloat(i),
        Decoded::List(ds) => DecodedModel::List(decoded_list_model(ds@)),
        Decoded::Struct(ds) => DecodedModel::Struct(decoded_list_model(ds@)),
        Decoded::Tuple(ds) => DecodedModel::Tuple(decoded_list_model(ds@)),
        Decoded::Variant(i) => DecodedModel::Variant(i as nat),
    }
}

pub open spec fn decoded_list_model(ds: Seq<Decoded>) -> Seq<DecodedModel>
    decreases ds,
{
    if ds.len() == 0 {
        Seq::empty()
    } else {
        decoded_list_model(ds.drop_last()).push(decoded_model(ds.last()))
    }
}

impl View for Decoded {
    type V = DecodedModel;

    open spec fn view(&self) -> DecodedModel {
        decoded_model(*self)
    }
}

/// The name of a shape, as errors give it.
pub open spec fn shape_name(s: Shape) -> Seq<char>
    decreases s,
{
    match s {
        Shape::Str => "string"@,
        Shape::I32 => "i32"@,
        Shape::F32 => "f32"@,
        Shape::List(_) => "sequence"@,
        Shape::Struct(_) => "struct"@,
        Shape::Tuple(_) => "tuple"@,
        Shape::Enum(_) => "enum"@,
        Shape::Newtype(inner) => shape_name(*inner),
    }
}

/// Index of the first of `names` equal to `t`.
pub open spec fn first_variant(names: Seq<String>, t: Seq<char>) -> Option<int>
    decreases names.len(),
{
    if names.len() == 0 {
        None
    } else {
        match first_variant(names.drop_last(), t) {
            Some(i) => Some(i),
            None => if names.last()@ == t {
                Some(names.len() - 1)
            } else {
                None
            },
        }
    }
}

pub open spec fn mismatch(v: Value, s: Shape) -> ToComponentErrorModel {
    ToComponentErrorModel::InvalidType(kind_name(v@), shape_name(s))
}

/// The result of decoding `v` into shape `s`.
pub open spec fn decode_model(v: Value, s: Shape) -> Result<DecodedModel, ToComponentErrorModel>
    decreases s, 0nat,
{
    match s {
        Shape::Newtype(inner) => decode_model(v, *inner),
        Shape::Str => match v {
            Value::String(t) => Ok(DecodedModel::Str(t@)),
            _ => Err(mismatch(v, s)),
        },
        Shape::I32 => match v {
            Value::I32(i) => Ok(DecodedModel::I32(i)),
            _ => Err(mismatch(v, s)),
        },
        Shape::F32 => match v {
            Value::F32(b) => Ok(DecodedModel::F32(b)),
            Value::I32(i) => Ok(DecodedModel::IntAsFloat(i)),
            _ => Err(mismatch(v, s)),
        },
        Shape::List(elem) => match v {
            Value::Vec(vs) => match decode_list_model(vs@, *elem) {
                Ok(ds) => Ok(DecodedModel::List(ds)),
                Err(x) => Err(x),
            },
            _ => Err(mismatch(v, s)),
        },
        Shape::Tuple(shapes) => match v {
            Value::Vec(vs) => if vs@.len() == shapes@.len() {
                match decode_each_model(vs@, shapes@) {
                    Ok(ds) => Ok(DecodedModel::Tuple(ds)),
                    Err(x) => Err(x),
                }
            } else {
                Err(mismatch(v, s))
            },
            _ => Err(mismatch(v, s)),
        },
        Shape::Struct(fields) => match v {
            Value::KeyMap(m) => match decode_fields_model(m.entries@, fields@) {
                Ok(ds) => Ok(DecodedModel::Struct(ds)),
                Err(x) => Err(x),
            },
            _ => Err(mismatch(v, s)),
        },
        Shape::Enum(variants) => match v {
            Value::String(t) => match first_variant(variants@, t@) {
                Some(i) => Ok(DecodedModel::Variant(i as nat)),
                None => Err(ToComponentErrorModel::UnknownVariant(t@)),
            },
            _ => Err(mismatch(v, s)),
        },
    }
}

/// Decodes every element of `vs` into `elem`, in order; the first failure
/// wins.
pub open spec fn decode_list_model(vs: Seq<Value>, elem: Shape) -> Result<
    Seq<DecodedModel>,
    ToComponentErrorModel,
>
    decreases elem, vs.len() + 1,
{
    if vs.len() == 0 {
        Ok(Seq::empty())
    } else {
        match decode_list_model(vs.drop_last(), elem) {
            Ok(ds) => match decode_model(vs.last(), elem) {
                Ok(d) => Ok(ds.push(d)),
                Err(x) => Err(x),
            },
            Err(x) => Err(x),
        }
    }
}

/// Decodes each element of `vs` into the shape at the same place of
/// `shapes`, in order; the first failure wins.
pub open spec fn decode_each_model(vs: Seq<Value>, shapes: Seq<Shape>) -> Result<
    Seq<DecodedModel>,
    ToComponentErrorModel,
>
    decreases shapes, 0nat,
{
    if shapes.len() == 0 || vs.len() == 0 {
        Ok(Seq::empty())
    } else {
        match decode_each_model(vs.drop_last(), shapes.drop_last()) {
            Ok(ds) => match decode_model(vs.last(), shapes.last()) {
                Ok(d) => Ok(ds.push(d)),
                Err(x) => Err(x),
            },
            Err(x) => Err(x),
        }
    }
}

/// Decodes each field of `fields` from the first entry of `entries` with
/// its name, in order; a field without an entry is missing.
pub open spec fn decode_fields_model(entries: Seq<(String, Value)>, fields: Seq<(String, Shape)>) -> Result<
    Seq<DecodedModel>,
    ToComponentErrorModel,
>
    decreases fields, 0nat,
{
    if fields.len() == 0 {
        Ok(Seq::empty())
    } else {
        match decode_fields_model(entries, fields.drop_last()) {
            Ok(ds) => match first_named(entries, fields.last().0@) {
                Some(i) => match decode_model(entries[i].1, fields.last().1) {
                    Ok(d) => Ok(ds.push(d)),
                    Err(x) => Err(x),
                },
                None => Err(ToComponentErrorModel::MissingField(fields.last().0@)),
            },
            Err(x) => Err(x),
        }
    }
}

proof fn lemma_list_failure_stays(vs: Seq<Value>, elem: Shape, k: int, j: int)
    requires
        0 <= k <= j <= vs.len(),
        decode_list_model(vs.take(k), elem) is Err,
    ensures
        decode_list_model(vs.take(j), elem) == decode_list_model(vs.take(k), elem),
    decreases j - k,
{
    if j > k {
        lemma_list_failure_stays(vs, elem, k, j - 1);
        assert(vs.take(j).drop_last() =~= vs.take(j - 1));
    }
}

proof fn lemma_each_failure_stays(vs: Seq<Value>, shapes: Seq<Shape>, k: int, j: int)
    requires
        0 <= k <= j <= vs.len(),
        vs.len() == shapes.len(),
        decode_each_model(vs.take(k), shapes.take(k)) is Err,
    ensures
        decode_each_model(vs.take(j), shapes.take(j)) == decode_each_model(
            vs.take(k),
            shapes.take(k),
        ),
    decreases j - k,
{
    if j > k {
        lemma_each_failure_stays(vs, shapes, k, j - 1);
        assert(vs.take(j).drop_last() =~= vs.take(j - 1));
        assert(shapes.take(j).drop_last() =~= shapes.take(j - 1));
    }
}

proof fn lemma_fields_failure_stays(
    entries: Seq<(String, Value)>,
    fields: Seq<(String, Shape)>,
    k: int,
    j: int,
)
    requires
        0 <= k <= j <= fields.len(),
        decode_fields_model(entries, fields.take(k)) is Err,
    ensures
        decode_fields_model(entries, fields.take(j)) == decode_fields_model(
            entries,
            fields.take(k),
        ),
    decreases j - k,
{
    if j > k {
        lemma_fields_failure_stays(entries, fields, k, j - 1);
        assert(fields.take(j).drop_last() =~= fields.take(j - 1));
    }
}

proof fn lemma_first_variant_none(names: Seq<String>, t: Seq<char>, i: int)
    requires
        0 <= i <= names.len(),
        forall|j: int| 0 <= j < i ==> #[trigger] names[j]@ != t,
    ensures
        first_variant(names.take(i), t) is None,
    decreases i,
{
    if i > 0 {
        assert(names.take(i).drop_last() =~= names.take(i - 1));
        lemma_first_variant_none(names, t, i - 1);
    }
}

proof fn lemma_first_variant_found(names: Seq<String>, t: Seq<char>, i: int, j: int)
    requires
        0 <= i < j <= names.len(),
        first_variant(names.take(i + 1), t) == Some(i),
    ensures
        first_variant(names.take(j), t) == Some(i),
    decreases j - i,
{
    if j > i + 1 {
        assert(names.take(j).drop_last() =~= names.take(j - 1));
        lemma_first_variant_found(names, t, i, j - 1);
    }
}

fn shape_name_of(s: &Shape) -> (r: &'static str)
    ensures
        r@ == shape_name(*s),
    decreases s,
{
    match s {
        Shape::Str => {
            proof { reveal_strlit("string"); }
            "string"
        },
        Shape::I32 => {
            proof { reveal_strlit("i32"); }
            "i32"
        },
        Shape::F32 => {
            proof { reveal_strlit("f32"); }
            "f32"
        },
        Shape::List(_) => {
            proof { reveal_strlit("sequence"); }
            "sequence"
        },
        Shape::Struct(_) => {
            proof { reveal_strlit("struct"); }
            "struct"
        },
        Shape::Tuple(_) => {
            proof { reveal_strlit("tuple"); }
            "tuple"
        },
        Shape::Enum(_) => {
            proof { reveal_strlit("enum"); }
            "enum"
        },
        Shape::Newtype(inner) => shape_name_of(inner),
    }
}

fn mismatch_error(v: &Value, s: &Shape) -> (r: ToComponentError)
    ensures
        r@ == mismatch(*v, *s),
{
    ToComponentError::InvalidType { unexpected: v.typename(), expected: shape_name_of(s) }
}

/// Index of the first entry named `name`.
fn find_entry(entries: &Vec<(String, Value)>, name: &String) -> (r: Option<usize>)
    ensures
        r matches Some(j) ==> j < entries@.len() && first_named(entries@, name@) == Some(j as int),
        r is None ==> first_named(entries@, name@) is None,
{
    let n = entries.len();
    let mut i: usize = 0;
    while i < n
        invariant
            n == entries@.len(),
            i <= n,
            forall|j: int| 0 <= j < i ==> #[trigger] entries@[j].0@ != name@,
        decreases n - i,
    {
        if entries[i].0 == *name {
            proof {
                lemma_first_named_none(entries@, name@, i as int);
                assert(entries@.take(i + 1).drop_last() =~= entries@.take(i as int));
                lemma_first_named_found(entries@, name@, i as int, n as int);
                assert(entries@.take(n as int) =~= entries@);
            }
            return Some(i);
        }
        i = i + 1;
    }
    proof {
        lemma_first_named_none(entries@, name@, n as int);
        assert(entries@.take(n as int) =~= entries@);
    }
    None
}

/// Index of the first variant named `t`.
fn find_variant(names: &Vec<String>, t: &String) -> (r: Option<usize>)
    ensures
        r matches Some(j) ==> j < names@.len() && first_variant(names@, t@) == Some(j as int),
        r is None ==> first_variant(names@, t@) is None,
{
    let n = names.len();
    let mut i: usize = 0;
    while i < n
        invariant
            n == names@.len(),
            i <= n,
            forall|j: int| 0 <= j < i ==> #[trigger] names@[j]@ != t@,
        decreases n - i,
    {
        if names[i] == *t {
            proof {
                lemma_first_variant_none(names@, t@, i as int);
                assert(names@.take(i + 1).drop_last() =~= names@.take(i as int));
                lemma_first_variant_found(names@, t@, i as int, n as int);
                assert(names@.take(n as int) =~= names@);
            }
            return Some(i);
        }
        i = i + 1;
    }
    proof {
        lemma_first_variant_none(names@, t@, n as int);
        assert(names@.take(n as int) =~= names@);
    }
    None
}

fn decode_list(vs: &Vec<Value>, elem: &Shape) -> (r: Result<Vec<Decoded>, ToComponentError>)
    ensures
        match r {
            Ok(ds) => decode_list_model(vs@, *elem) == Ok::<
                Seq<DecodedModel>,
                ToComponentErrorModel,
            >(decoded_list_model(ds@)),
            Err(e) => decode_list_model(vs@, *elem) == Err::<
                Seq<DecodedModel>,
                ToComponentErrorModel,
            >(e@),
        },
    decreases elem, 1nat,
{
    let mut out: Vec<Decoded> = Vec::new();
    let mut i: usize = 0;
    while i < vs.len()
        invariant
            i <= vs@.len(),
            decode_list_model(vs@.take(i as int), *elem) == Ok::<
                Seq<DecodedModel>,
                ToComponentErrorModel,
            >(decoded_list_model(out@)),
        decreases vs@.len() - i,
    {
        proof {
            assert(vs@.take(i + 1).drop_last() =~= vs@.take(i as int));
        }
        match decode(&vs[i], elem) {
            Ok(d) => {
                proof {
                    assert(out@.push(d).drop_last() =~= out@);
                }
                out.push(d);
            },
            Err(e) => {
                proof {
                    lemma_list_failure_stays(vs@, *elem, i + 1, vs@.len() as int);
                    assert(vs@.take(vs@.len() as int) =~= vs@);
                }
                return Err(e);
            },
        }
        i = i + 1;
    }
    assert(vs@.take(vs@.len() as int) =~= vs@);
    Ok(out)
}

fn decode_each(vs: &Vec<Value>, shapes: &Vec<Shape>) -> (r: Result<Vec<Decoded>, ToComponentError>)
    requires
        vs@.len() == shapes@.len(),
    ensures
        match r {
            Ok(ds) => decode_each_model(vs@, shapes@) == Ok::<
                Seq<DecodedModel>,
                ToComponentErrorModel,
            >(decoded_list_model(ds@)),
            Err(e) => decode_each_model(vs@, shapes@) == Err::<
                Seq<DecodedModel>,
                ToComponentErrorModel,
            >(e@),
        },
    decreases shapes, 1nat,
{
    let mut out: Vec<Decoded> = Vec::new();
    let mut i: usize = 0;
    while i < vs.len()
        invariant
            vs@.len() == shapes@.len(),
            i <= vs@.len(),
            decode_each_model(vs@.take(i as int), shapes@.take(i as int)) == Ok::<
                Seq<DecodedModel>,
                ToComponentErrorModel,
            >(decoded_list_model(out@)),
        decreases vs@.len() - i,
    {
        proof {
            assert(vs@.take(i + 1).drop_last() =~= vs@.take(i as int));
            assert(shapes@.take(i + 1).drop_last() =~= shapes@.take(i as int));
            assert(decreases_to!(shapes => shapes[i as int]));
        }
        match decode(&vs[i], &shapes[i]) {
            Ok(d) => {
                proof {
                    assert(out@.push(d).drop_last() =~= out@);
                }
                out.push(d);
            },
            Err(e) => {
                proof {
                    lemma_each_failure_stays(vs@, shapes@, i + 1, vs@.len() as int);
                    assert(vs@.take(vs@.len() as int) =~= vs@);
                    assert(shapes@.take(vs@.len() as int) =~= shapes@);
                }
                return Err(e);
            },
        }
        i = i + 1;
    }
    assert(vs@.take(vs@.len() as int) =~= vs@);
    assert(shapes@.take(vs@.len() as int) =~= shapes@);
    Ok(out)
}

fn decode_fields(entries: &Vec<(String, Value)>, fields: &Vec<(String, Shape)>) -> (r: Result<
    Vec<Decoded>,
    ToComponentError,
>)
    ensures
        match r {
            Ok(ds) => decode_fields_model(entries@, fields@) == Ok::<
                Seq<DecodedModel>,
                ToComponentErrorModel,
            >(decoded_list_model(ds@)),
            Err(e) => decode_fields_model(entries@, fields@) == Err::<
                Seq<DecodedModel>,
                ToComponentErrorModel,
            >(e@),
        },
    decreases fields, 1nat,
{
    let mut out: Vec<Decoded> = Vec::new();
    let mut i: usize = 0;
    while i < fields.len()
        invariant
            i <= fields@.len(),
            decode_fields_model(entries@, fields@.take(i as int)) == Ok::<
                Seq<DecodedModel>,
                ToComponentErrorModel,
            >(decoded_list_model(out@)),
        decreases fields@.len() - i,
    {
        proof {
            assert(fields@.take(i + 1).drop_last() =~= fields@.take(i as int));
            assert(decreases_to!(fields => fields[i as int]));
            assert(decreases_to!(fields[i as int] => fields[i as int].1));
        }
        let found = find_entry(entries, &fields[i].0);
        let result = match found {
            Some(j) => decode(&entries[j].1, &fields[i].1),
            None => Err(ToComponentError::MissingField(fields[i].0.clone())),
        };
        match result {
            Ok(d) => {
                proof {
                    assert(out@.push(d).drop_last() =~= out@);
                }
                out.push(d);
            },
            Err(e) => {
                proof {
                    lemma_fields_failure_stays(entries@, fields@, i + 1, fields@.len() as int);
                    assert(fields@.take(fields@.len() as int) =~= fields@);
                }
                return Err(e);
            },
        }
        i = i + 1;
    }
    assert(fields@.take(fields@.len() as int) =~= fields@);
    Ok(out)
}

/// Decodes `v` into the shape `s`.
pub fn decode(v: &Value, s: &Shape) -> (r: Result<Decoded, ToComponentError>)
    ensures
        match r {
            Ok(d) => decode_model(*v, *s) == Ok::<DecodedModel, ToComponentErrorModel>(d@),
            Err(e) => decode_model(*v, *s) == Err::<DecodedModel, ToComponentErrorModel>(e@),
        },
    decreases s, 0nat,
{
    match s {
        Shape::Newtype(inner) => decode(v, inner),
        Shape::Str => match v {
            Value::String(t) => Ok(Decoded::Str(t.clone())),
            _ => Err(mismatch_error(v, s)),
        },
        Shape::I32 => match v {
            Value::I32(i) => Ok(Decoded::I32(*i)),
            _ => Err(mismatch_error(v, s)),
        },
        Shape::F32 => match v {
            Value::F32(b) => Ok(Decoded::F32(*b)),
            Value::I32(i) => Ok(Decoded::IntAsFloat(*i)),
            _ => Err(mismatch_error(v, s)),
        },
        Shape::List(elem) => match v {
            Value::Vec(vs) => match decode_list(vs, elem) {
                Ok(ds) => Ok(Decoded::List(ds)),
                Err(e) => Err(e),
            },
            _ => Err(mismatch_error(v, s)),
        },
        Shape::Tuple(shapes) => match v {
            Value::Vec(vs) => {
                if vs.len() == shapes.len() {
                    match decode_each(vs, shapes) {
                        Ok(ds) => Ok(Decoded::Tuple(ds)),
                        Err(e) => Err(e),
                    }
                } else {
                    Err(mismatch_error(v, s))
                }
            },
            _ => Err(mismatch_error(v, s)),
        },
        Shape::Struct(fields) => match v {
            Value::KeyMap(m) => match decode_fields(&m.entries, fields) {
                Ok(ds) => Ok(Decoded::Struct(ds)),
                Err(e) => Err(e),
            },
            _ => Err(mismatch_error(v, s)),
        },
        Shape::Enum(variants) => match v {
            Value::String(t) => match find_variant(variants, t) {
                Some(i) => Ok(Decoded::Variant(i)),
                None => Err(ToComponentError::UnknownVariant { variant: t.clone() }),
            },
            _ => Err(mismatch_error(v, s)),
        },
    }
}

impl Value {
    /// Decodes the value into the target shape `s`.
    pub fn to_component(&self, s: &Shape) -> (r: Result<Decoded, ToComponentError>)
        ensures
            match r {
                Ok(d) => decode_model(*self, *s) == Ok::<DecodedModel, ToComponentErrorModel>(
                    d@,
                ),
                Err(e) => decode_model(*self, *s) == Err::<DecodedModel, ToComponentErrorModel>(
                    e@,
                ),
            },
    {
        decode(self, s)
    }
}

} // verus!
