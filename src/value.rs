//! Evaluated values and the component-keyed map that holds them.

use vstd::prelude::*;

verus! {

/// A map from component (or field) names to payloads. Its keys are unique;
/// entries keep the order in which their keys were first added.
#[derive(PartialEq, Debug)]
pub struct EntityMap<T> {
    pub entries: Vec<(String, T)>,
}

/// The keys of a list of named entries.
pub open spec fn keys_of<T>(entries: Seq<(String, T)>) -> Seq<Seq<char>> {
    entries.map_values(|p: (String, T)| p.0@)
}

/// No key occurs twice in the list.
pub open spec fn unique_keys<T>(entries: Seq<(String, T)>) -> bool {
    forall|i: int, j: int|
        0 <= i < entries.len() && 0 <= j < entries.len() && i != j
            ==> #[trigger] entries[i].0@ != #[trigger] entries[j].0@
}

/// Index of the first entry named `k`.
pub open spec fn first_named<T>(entries: Seq<(String, T)>, k: Seq<char>) -> Option<int>
    decreases entries.len(),
{
    if entries.len() == 0 {
        None
    } else {
        match first_named(entries.drop_last(), k) {
            Some(i) => Some(i),
            None => if entries.last().0@ == k {
                Some(entries.len() - 1)
            } else {
                None
            },
        }
    }
}

pub proof fn lemma_first_named_none<T>(entries: Seq<(String, T)>, k: Seq<char>, i: int)
    requires
        0 <= i <= entries.len(),
        forall|j: int| 0 <= j < i ==> #[trigger] entries[j].0@ != k,
    ensures
        first_named(entries.take(i), k) is None,
    decreases i,
{
    if i > 0 {
        assert(entries.take(i).drop_last() =~= entries.take(i - 1));
        lemma_first_named_none(entries, k, i - 1);
    }
}

pub proof fn lemma_first_named_found<T>(entries: Seq<(String, T)>, k: Seq<char>, i: int, j: int)
    requires
        0 <= i < j <= entries.len(),
        first_named(entries.take(i + 1), k) == Some(i),
    ensures
        first_named(entries.take(j), k) == Some(i),
    decreases j - i,
{
    if j > i + 1 {
        assert(entries.take(j).drop_last() =~= entries.take(j - 1));
        lemma_first_named_found(entries, k, i, j - 1);
    }
}

impl<T> EntityMap<T> {
    /// Keys are unique.
    pub open spec fn wf(&self) -> bool {
        unique_keys(self.entries@)
    }

    /// The names of the entries, in order.
    pub open spec fn keys(&self) -> Seq<Seq<char>> {
        keys_of(self.entries@)
    }

    pub fn new() -> (r: Self)
        ensures
            r.wf(),
            r.entries@.len() == 0,
    {
        EntityMap { entries: Vec::new() }
    }

    /// Inserts `value` under `name`, replacing the payload of an entry of
    /// that name in place, or appending a new entry.
    pub fn add_component(&mut self, name: &str, value: T)
        requires
            old(self).wf(),
        ensures
            final(self).wf(),
            match first_named(old(self).entries@, name@) {
                Some(i) => final(self).entries@ == old(self).entries@.update(
                    i,
                    (old(self).entries@[i].0, value),
                ),
                None => final(self).entries@.len() == old(self).entries@.len() + 1
                    && final(self).entries@.take(old(self).entries@.len() as int)
                    == old(self).entries@
                    && final(self).entries@.last().0@ == name@
                    && final(self).entries@.last().1 == value,
            },
    {
        let key = name.to_string();
        let n = self.entries.len();
        let mut i: usize = 0;
        while i < n
            invariant
                n == self.entries@.len(),
                self.entries@ == old(self).entries@,
                self.wf(),
                i <= n,
                key@ == name@,
                forall|j: int| 0 <= j < i ==> #[trigger] self.entries@[j].0@ != name@,
            decreases n - i,
        {
            if self.entries[i].0 == key {
                proof {
                    lemma_first_named_none(old(self).entries@, name@, i as int);
                    assert(old(self).entries@.take(i + 1).drop_last() =~= old(self).entries@.take(
                        i as int,
                    ));
                    lemma_first_named_found(old(self).entries@, name@, i as int, n as int);
                    assert(old(self).entries@.take(n as int) =~= old(self).entries@);
                }
                let (k, _) = self.entries.remove(i);
                self.entries.insert(i, (k, value));
                assert(self.entries@ =~= old(self).entries@.update(
                    i as int,
                    (old(self).entries@[i as int].0, value),
                ));
                return;
            }
            i = i + 1;
        }
        proof {
            lemma_first_named_none(old(self).entries@, name@, n as int);
            assert(old(self).entries@.take(n as int) =~= old(self).entries@);
        }
        self.entries.push((key, value));
        assert(self.entries@.take(n as int) =~= old(self).entries@);
    }

    /// The entries, in order.
    pub fn components(&self) -> (r: &[(String, T)])
        ensures
            r@ == self.entries@,
    {
        self.entries.as_slice()
    }

    /// Consumes the map into its entries, in order.
    pub fn into_components(self) -> (r: Vec<(String, T)>)
        ensures
            r@ == self.entries@,
    {
        self.entries
    }

    /// Applies `f` to every payload, keeping names and order.
    pub fn map<F, U>(self, f: F) -> (r: EntityMap<U>)
        where
            F: Fn(T) -> U,
        requires
            self.wf(),
            forall|t: T| #[trigger] f.requires((t,)),
        ensures
            r.wf(),
            r.keys() == self.keys(),
            forall|i: int|
                0 <= i < self.entries@.len() ==> #[trigger] f.ensures(
                    (self.entries@[i].1,),
                    r.entries@[i].1,
                ),
    {
        let ghost src = self.entries@;
        let n = self.entries.len();
        let mut rest = reversed(self.entries);
        let mut out: Vec<(String, U)> = Vec::new();
        let mut i: usize = 0;
        while i < n
            invariant
                n == src.len(),
                i <= n,
                rest@.len() == n - i,
                out@.len() == i,
                forall|k: int| 0 <= k < rest@.len() ==> #[trigger] rest@[k] == src[n - 1 - k],
                forall|k: int| 0 <= k < i ==> (#[trigger] out@[k]).0@ == src[k].0@,
                forall|k: int| 0 <= k < i ==> f.ensures((src[k].1,), #[trigger] out@[k].1),
                forall|t: T| #[trigger] f.requires((t,)),
            decreases n - i,
        {
            let (name, comp) = rest.pop().unwrap();
            let mapped = f(comp);
            out.push((name, mapped));
            i = i + 1;
        }
        assert(keys_of(out@) =~= keys_of(src));
        EntityMap { entries: out }
    }

    /// Applies `f` to every payload in order and stops at the first error.
    pub fn try_map<F, U, E>(self, f: F) -> (r: Result<EntityMap<U>, E>)
        where
            F: Fn(T) -> Result<U, E>,
        requires
            self.wf(),
            forall|t: T| #[trigger] f.requires((t,)),
        ensures
            r matches Ok(m) ==> {
                &&& m.wf()
                &&& m.keys() == self.keys()
                &&& forall|i: int|
                    0 <= i < self.entries@.len() ==> #[trigger] f.ensures(
                        (self.entries@[i].1,),
                        Ok(m.entries@[i].1),
                    )
            },
            r matches Err(e) ==> exists|k: int|
                #![trigger self.entries@[k]]
                0 <= k < self.entries@.len() && f.ensures((self.entries@[k].1,), Err(e))
                    && succeeds_before(f, self.entries@, k),
    {
        let ghost src = self.entries@;
        let n = self.entries.len();
        let mut rest = reversed(self.entries);
        let mut out: Vec<(String, U)> = Vec::new();
        let mut failure: Option<E> = None;
        let mut i: usize = 0;
        while i < n && failure.is_none()
            invariant
                n == src.len(),
                i <= n,
                rest@.len() + (if failure is Some { 1int } else { 0int }) == n - i,
                out@.len() == i,
                forall|k: int| 0 <= k < rest@.len() ==> #[trigger] rest@[k] == src[n - 1 - k],
                forall|k: int| 0 <= k < i ==> (#[trigger] out@[k]).0@ == src[k].0@,
                forall|k: int| 0 <= k < i ==> f.ensures((src[k].1,), Ok(#[trigger] out@[k].1)),
                forall|t: T| #[trigger] f.requires((t,)),
                failure matches Some(e) ==> i < n && f.ensures((src[i as int].1,), Err(e)),
            decreases n - i, (if failure is Some { 0int } else { 1int }),
        {
            let (name, comp) = rest.pop().unwrap();
            assert(comp == src[i as int].1);
            match f(comp) {
                Ok(mapped) => {
                    out.push((name, mapped));
                    i = i + 1;
                },
                Err(e) => {
                    failure = Some(e);
                },
            }
        }
        match failure {
            Some(e) => {
                assert(f.ensures((src[i as int].1,), Err(e)));
                assert forall|j: int| 0 <= j < i implies #[trigger] succeeds_at(f, src, j) by {
                    assert(f.ensures((src[j].1,), Ok(out@[j].1)));
                }
                Err(e)
            },
            None => {
                assert(keys_of(out@) =~= keys_of(src));
                Ok(EntityMap { entries: out })
            },
        }
    }
}

/// `f` can succeed on the payload of entry `j`.
pub open spec fn succeeds_at<F: Fn(T) -> Result<U, E>, T, U, E>(
    f: F,
    entries: Seq<(String, T)>,
    j: int,
) -> bool {
    exists|u: U| #[trigger] f.ensures((entries[j].1,), Ok::<U, E>(u))
}

/// `f` can succeed on the payload of every entry before `k`.
pub open spec fn succeeds_before<F: Fn(T) -> Result<U, E>, T, U, E>(
    f: F,
    entries: Seq<(String, T)>,
    k: int,
) -> bool {
    forall|j: int| 0 <= j < k ==> #[trigger] succeeds_at::<F, T, U, E>(f, entries, j)
}

/// The entries in reverse order.
pub(crate) fn reversed_entries<T>(v: Vec<(String, T)>) -> (r: Vec<(String, T)>)
    ensures
        r@.len() == v@.len(),
        forall|k: int| 0 <= k < v@.len() ==> #[trigger] r@[k] == v@[v@.len() - 1 - k],
{
    reversed(v)
}

/// The elements of `v` in reverse order.
fn reversed<A>(v: Vec<A>) -> (r: Vec<A>)
    ensures
        r@.len() == v@.len(),
        forall|k: int| 0 <= k < v@.len() ==> #[trigger] r@[k] == v@[v@.len() - 1 - k],
{
    let ghost src = v@;
    let mut v = v;
    let mut r: Vec<A> = Vec::new();
    while v.len() > 0
        invariant
            v@ == src.take(v@.len() as int),
            r@.len() + v@.len() == src.len(),
            forall|k: int| 0 <= k < r@.len() ==> #[trigger] r@[k] == src[src.len() - 1 - k],
        decreases v@.len(),
    {
        let x = v.pop().unwrap();
        r.push(x);
        assert(v@ =~= src.take(v@.len() as int));
    }
    r
}

/// A dynamically-typed value produced by evaluation.
///
/// `F32` holds the IEEE-754 bit pattern of a single-precision float.
#[derive(PartialEq, Debug)]
pub enum Value {
    KeyMap(EntityMap<Value>),
    String(String),
    I32(i32),
    F32(u32),
    Vec(Vec<Value>),
    Entity(EntityMap<Value>),
}

/// The mathematical shape of a [`Value`]: text as characters, lists as
/// sequences, named entries as sequences of (name, value) pairs.
pub enum ValueModel {
    KeyMap(Seq<(Seq<char>, ValueModel)>),
    Str(Seq<char>),
    I32(i32),
    F32(u32),
    Vec(Seq<ValueModel>),
    Entity(Seq<(Seq<char>, ValueModel)>),
}

pub open spec fn model_of(v: Value) -> ValueModel
    decreases v,
{
    match v {
        Value::KeyMap(m) => ValueModel::KeyMap(entries_model(m.entries@)),
        Value::String(s) => ValueModel::Str(s@),
        Value::I32(i) => ValueModel::I32(i),
        Value::F32(b) => ValueModel::F32(b),
        Value::Vec(vs) => ValueModel::Vec(values_model(vs@)),
        Value::Entity(m) => ValueModel::Entity(entries_model(m.entries@)),
    }
}

pub open spec fn values_model(vs: Seq<Value>) -> Seq<ValueModel>
    decreases vs,
{
    if vs.len() == 0 {
        Seq::empty()
    } else {
        values_model(vs.drop_last()).push(model_of(vs.last()))
    }
}

pub open spec fn entries_model(es: Seq<(String, Value)>) -> Seq<(Seq<char>, ValueModel)>
    decreases es,
{
    if es.len() == 0 {
        Seq::empty()
    } else {
        entries_model(es.drop_last()).push((es.last().0@, model_of(es.last().1)))
    }
}

/// The name of a value's kind, as error messages give it.
pub open spec fn kind_name(v: ValueModel) -> Seq<char> {
    match v {
        ValueModel::KeyMap(_) => "map"@,
        ValueModel::Str(_) => "string"@,
        ValueModel::I32(_) => "i32"@,
        ValueModel::F32(_) => "f32"@,
        ValueModel::Vec(_) => "vec"@,
        ValueModel::Entity(_) => "entity"@,
    }
}

impl Value {
    pub fn typename(&self) -> (r: &'static str)
        ensures
            r@ == kind_name(self@),
    {
        match self {
            Value::KeyMap(_) => {
                proof { reveal_strlit("map"); }
                "map"
            },
            Value::String(_) => {
                proof { reveal_strlit("string"); }
                "string"
            },
            Value::I32(_) => {
                proof { reveal_strlit("i32"); }
                "i32"
            },
            Value::F32(_) => {
                proof { reveal_strlit("f32"); }
                "f32"
            },
            Value::Vec(_) => {
                proof { reveal_strlit("vec"); }
                "vec"
            },
            Value::Entity(_) => {
                proof { reveal_strlit("entity"); }
                "entity"
            },
        }
    }

    /// A copy of the whole value tree.
    pub fn deep_copy(&self) -> (r: Value)
        ensures
            r@ == self@,
        decreases self,
    {
        match self {
            Value::KeyMap(m) => Value::KeyMap(copy_entries(m)),
            Value::String(s) => Value::String(s.clone()),
            Value::I32(i) => Value::I32(*i),
            Value::F32(b) => Value::F32(*b),
            Value::Vec(vs) => {
                let mut out: Vec<Value> = Vec::new();
                let mut i: usize = 0;
                while i < vs.len()
                    invariant
                        *self == Value::Vec(*vs),
                        i <= vs@.len(),
                        values_model(out@) == values_model(vs@.take(i as int)),
                    decreases vs@.len() - i,
                {
                    proof {
                        assert(decreases_to!(*self => self->Vec_0));
                        assert(decreases_to!(vs => vs[i as int]));
                    }
                    let c = vs[i].deep_copy();
                    proof {
                        assert(vs@.take(i + 1).drop_last() =~= vs@.take(i as int));
                        assert(out@.push(c).drop_last() =~= out@);
                    }
                    out.push(c);
                    i = i + 1;
                }
                assert(vs@.take(vs@.len() as int) =~= vs@);
                Value::Vec(out)
            },
            Value::Entity(m) => Value::Entity(copy_entries(m)),
        }
    }
}

/// A copy of every entry of `m`.
fn copy_entries(m: &EntityMap<Value>) -> (r: EntityMap<Value>)
    ensures
        entries_model(r.entries@) == entries_model(m.entries@),
        r.keys() == m.keys(),
    decreases m,
{
    let mut out: Vec<(String, Value)> = Vec::new();
    let mut i: usize = 0;
    while i < m.entries.len()
        invariant
            i <= m.entries@.len(),
            entries_model(out@) == entries_model(m.entries@.take(i as int)),
            out@.len() == i,
            forall|j: int| 0 <= j < i ==> (#[trigger] out@[j]).0@ == m.entries@[j].0@,
        decreases m.entries@.len() - i,
    {
        let c = m.entries[i].1.deep_copy();
        let k = m.entries[i].0.clone();
        proof {
            assert(m.entries@.take(i + 1).drop_last() =~= m.entries@.take(i as int));
            assert(out@.push((k, c)).drop_last() =~= out@);
        }
        out.push((k, c));
        i = i + 1;
    }
    assert(m.entries@.take(m.entries@.len() as int) =~= m.entries@);
    assert(keys_of(out@) =~= keys_of(m.entries@));
    EntityMap { entries: out }
}

/// The model of a list holds the model of each element, in place.
pub proof fn lemma_values_model_index(vs: Seq<Value>)
    ensures
        values_model(vs).len() == vs.len(),
        forall|j: int| 0 <= j < vs.len() ==> #[trigger] values_model(vs)[j] == vs[j]@,
    decreases vs.len(),
{
    if vs.len() > 0 {
        lemma_values_model_index(vs.drop_last());
        assert forall|j: int| 0 <= j < vs.len() implies #[trigger] values_model(vs)[j]
            == vs[j]@ by {
            if j < vs.len() - 1 {
                assert(vs.drop_last()[j] == vs[j]);
            }
        }
    }
}

/// The model of named entries holds each name and the model of each value,
/// in place.
pub proof fn lemma_entries_model_index(es: Seq<(String, Value)>)
    ensures
        entries_model(es).len() == es.len(),
        forall|j: int|
            0 <= j < es.len() ==> #[trigger] entries_model(es)[j] == (es[j].0@, es[j].1@),
    decreases es.len(),
{
    if es.len() > 0 {
        lemma_entries_model_index(es.drop_last());
        assert forall|j: int| 0 <= j < es.len() implies #[trigger] entries_model(es)[j] == (
            es[j].0@,
            es[j].1@,
        ) by {
            if j < es.len() - 1 {
                assert(es.drop_last()[j] == es[j]);
            }
        }
    }
}

impl View for Value {
    type V = ValueModel;

    open spec fn view(&self) -> ValueModel {
        model_of(*self)
    }
}

} // verus!
