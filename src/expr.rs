//! Expressions that evaluate to a [`Value`].

use vstd::prelude::*;

use crate::error::{Error, ErrorModel};
use crate::value::{
    entries_model, keys_of, kind_name, values_model, EntityMap, Value, ValueModel,
};

verus! {

/// What a call returns, with values and errors in their mathematical form.
pub open spec fn value_result(r: Result<Value, Error>) -> Result<ValueModel, ErrorModel> {
    match r {
        Ok(v) => Ok(v@),
        Err(e) => Err(e@),
    }
}

/// Resolves named functions during evaluation.
pub trait Environment {
    /// What calling `name` on `args` gives.
    spec fn call_model(&self, name: Seq<char>, args: Seq<ValueModel>) -> Result<
        ValueModel,
        ErrorModel,
    >;

    fn eval_func(&self, name: &str, args: &[Value]) -> (r: Result<Value, Error>)
        ensures
            value_result(r) == self.call_model(name@, values_model(args@)),
    ;
}

/// Binds one environment for the duration of an evaluation.
pub struct Context<'a, E: Environment> {
    pub comp_lib: &'a E,
}

impl<'a, E: Environment> Context<'a, E> {
    pub fn new(comp_lib: &'a E) -> (r: Self)
        ensures
            *r.comp_lib == *comp_lib,
    {
        Context { comp_lib }
    }

    pub fn call_function(&self, name: &str, args: &[Value]) -> (r: Result<Value, Error>)
        ensures
            value_result(r) == self.comp_lib.call_model(name@, values_model(args@)),
    {
        self.comp_lib.eval_func(name, args)
    }
}

/// A parsed, not yet evaluated expression.
#[derive(PartialEq, Debug)]
pub enum Expr {
    KeyMap(EntityMap<Expr>),
    Constant(Value),
    Vec(Vec<Expr>),
    Entity(EntityMap<Expr>),
    Func(String, Vec<Expr>),
}

/// An entity description: component names mapped to expressions.
pub type EntityExpr = EntityMap<Expr>;

/// Builds an entity record one component at a time.
pub struct EntityExprBuilder<T> {
    map: EntityMap<T>,
}

impl<T> EntityExprBuilder<T> {
    pub closed spec fn entries(&self) -> Seq<(String, T)> {
        self.map.entries@
    }

    pub closed spec fn wf(&self) -> bool {
        self.map.wf()
    }

    pub fn new() -> (r: Self)
        ensures
            r.wf(),
            r.entries().len() == 0,
    {
        EntityExprBuilder { map: EntityMap::new() }
    }

    /// Adds a component, replacing one of the same name.
    pub fn add_component(self, name: &str, value: T) -> (r: Self)
        requires
            self.wf(),
        ensures
            r.wf(),
            match crate::value::first_named(self.entries(), name@) {
                Some(i) => r.entries() == self.entries().update(i, (self.entries()[i].0, value)),
                None => r.entries().len() == self.entries().len() + 1 && r.entries().take(
                    self.entries().len() as int,
                ) == self.entries() && r.entries().last().0@ == name@ && r.entries().last().1
                    == value,
            },
    {
        let mut map = self.map;
        map.add_component(name, value);
        EntityExprBuilder { map }
    }

    pub fn build(self) -> (r: EntityMap<T>)
        requires
            self.wf(),
        ensures
            r.wf(),
            r.entries@ == self.entries(),
    {
        self.map
    }
}

/// The result of evaluating `e` against `env`: every child is evaluated in
/// order, and the first failure is the result.
pub open spec fn eval_model<E: Environment>(e: Expr, env: E) -> Result<ValueModel, ErrorModel>
    decreases e,
{
    match e {
        Expr::KeyMap(m) => match eval_entries_model(m.entries@, env) {
            Ok(es) => Ok(ValueModel::KeyMap(es)),
            Err(x) => Err(x),
        },
        Expr::Constant(v) => Ok(v@),
        Expr::Vec(xs) => match eval_list_model(xs@, env) {
            Ok(vs) => Ok(ValueModel::Vec(vs)),
            Err(x) => Err(x),
        },
        Expr::Entity(m) => match eval_entries_model(m.entries@, env) {
            Ok(es) => Ok(ValueModel::Entity(es)),
            Err(x) => Err(x),
        },
        Expr::Func(name, args) => match eval_list_model(args@, env) {
            Ok(vs) => env.call_model(name@, vs),
            Err(x) => Err(x),
        },
    }
}

/// Evaluates each expression of `xs` in order; the first failure wins.
pub open spec fn eval_list_model<E: Environment>(xs: Seq<Expr>, env: E) -> Result<
    Seq<ValueModel>,
    ErrorModel,
>
    decreases xs,
{
    if xs.len() == 0 {
        Ok(Seq::empty())
    } else {
        match eval_list_model(xs.drop_last(), env) {
            Ok(vs) => match eval_model(xs.last(), env) {
                Ok(v) => Ok(vs.push(v)),
                Err(x) => Err(x),
            },
            Err(x) => Err(x),
        }
    }
}

/// Evaluates the payload of each entry of `es` in order, keeping the names;
/// the first failure wins.
pub open spec fn eval_entries_model<E: Environment>(es: Seq<(String, Expr)>, env: E) -> Result<
    Seq<(Seq<char>, ValueModel)>,
    ErrorModel,
>
    decreases es,
{
    if es.len() == 0 {
        Ok(Seq::empty())
    } else {
        match eval_entries_model(es.drop_last(), env) {
            Ok(vs) => match eval_model(es.last().1, env) {
                Ok(v) => Ok(vs.push((es.last().0@, v))),
                Err(x) => Err(x),
            },
            Err(x) => Err(x),
        }
    }
}

/// The entity record that evaluating to `r` gives, or the error.
pub open spec fn entity_model(r: Result<ValueModel, ErrorModel>) -> Result<
    Seq<(Seq<char>, ValueModel)>,
    ErrorModel,
> {
    match r {
        Ok(ValueModel::Entity(es)) => Ok(es),
        Ok(other) => Err(ErrorModel::UnexpectedType(kind_name(other), "entity"@)),
        Err(x) => Err(x),
    }
}

proof fn lemma_list_failure_stays<E: Environment>(xs: Seq<Expr>, k: int, j: int, env: E)
    requires
        0 <= k <= j <= xs.len(),
        eval_list_model(xs.take(k), env) is Err,
    ensures
        eval_list_model(xs.take(j), env) == eval_list_model(xs.take(k), env),
    decreases j - k,
{
    if j > k {
        lemma_list_failure_stays(xs, k, j - 1, env);
        assert(xs.take(j).drop_last() =~= xs.take(j - 1));
    }
}

proof fn lemma_entries_failure_stays<E: Environment>(
    es: Seq<(String, Expr)>,
    k: int,
    j: int,
    env: E,
)
    requires
        0 <= k <= j <= es.len(),
        eval_entries_model(es.take(k), env) is Err,
    ensures
        eval_entries_model(es.take(j), env) == eval_entries_model(es.take(k), env),
    decreases j - k,
{
    if j > k {
        lemma_entries_failure_stays(es, k, j - 1, env);
        assert(es.take(j).drop_last() =~= es.take(j - 1));
    }
}

/// Evaluates every expression of `xs` in order, stopping at the first error.
fn eval_all<E: Environment>(xs: &Vec<Expr>, ctx: &Context<E>) -> (r: Result<Vec<Value>, Error>)
    ensures
        match r {
            Ok(vs) => eval_list_model(xs@, *ctx.comp_lib) == Ok::<Seq<ValueModel>, ErrorModel>(
                values_model(vs@),
            ),
            Err(e) => eval_list_model(xs@, *ctx.comp_lib) == Err::<Seq<ValueModel>, ErrorModel>(
                e@,
            ),
        },
    decreases xs,
{
    let ghost env = *ctx.comp_lib;
    let mut out: Vec<Value> = Vec::new();
    let mut i: usize = 0;
    while i < xs.len()
        invariant
            env == *ctx.comp_lib,
            i <= xs@.len(),
            eval_list_model(xs@.take(i as int), env) == Ok::<Seq<ValueModel>, ErrorModel>(
                values_model(out@),
            ),
        decreases xs@.len() - i,
    {
        proof {
            assert(decreases_to!(xs => xs[i as int]));
            assert(xs@.take(i + 1).drop_last() =~= xs@.take(i as int));
        }
        match xs[i].eval(ctx) {
            Ok(v) => {
                proof {
                    assert(out@.push(v).drop_last() =~= out@);
                }
                out.push(v);
            },
            Err(e) => {
                proof {
                    lemma_list_failure_stays(xs@, i + 1, xs@.len() as int, env);
                    assert(xs@.take(xs@.len() as int) =~= xs@);
                }
                return Err(e);
            },
        }
        i = i + 1;
    }
    assert(xs@.take(xs@.len() as int) =~= xs@);
    Ok(out)
}

/// Evaluates the payload of every entry of `m` in order, keeping names and
/// stopping at the first error.
fn eval_entries<E: Environment>(m: &EntityMap<Expr>, ctx: &Context<E>) -> (r: Result<
    EntityMap<Value>,
    Error,
>)
    ensures
        match r {
            Ok(vm) => eval_entries_model(m.entries@, *ctx.comp_lib) == Ok::<
                Seq<(Seq<char>, ValueModel)>,
                ErrorModel,
            >(entries_model(vm.entries@)) && vm.keys() == m.keys(),
            Err(e) => eval_entries_model(m.entries@, *ctx.comp_lib) == Err::<
                Seq<(Seq<char>, ValueModel)>,
                ErrorModel,
            >(e@),
        },
    decreases m,
{
    let ghost env = *ctx.comp_lib;
    let mut out: Vec<(String, Value)> = Vec::new();
    let mut i: usize = 0;
    while i < m.entries.len()
        invariant
            env == *ctx.comp_lib,
            i <= m.entries@.len(),
            eval_entries_model(m.entries@.take(i as int), env) == Ok::<
                Seq<(Seq<char>, ValueModel)>,
                ErrorModel,
            >(entries_model(out@)),
            out@.len() == i,
            forall|j: int| 0 <= j < i ==> (#[trigger] out@[j]).0@ == m.entries@[j].0@,
        decreases m.entries@.len() - i,
    {
        proof {
            assert(decreases_to!(m => m.entries));
            assert(decreases_to!(m.entries => m.entries[i as int]));
            assert(decreases_to!(m.entries[i as int] => m.entries[i as int].1));
            assert(m.entries@.take(i + 1).drop_last() =~= m.entries@.take(i as int));
        }
        match m.entries[i].1.eval(ctx) {
            Ok(v) => {
                let k = m.entries[i].0.clone();
                proof {
                    assert(out@.push((k, v)).drop_last() =~= out@);
                }
                out.push((k, v));
            },
            Err(e) => {
                proof {
                    lemma_entries_failure_stays(m.entries@, i + 1, m.entries@.len() as int, env);
                    assert(m.entries@.take(m.entries@.len() as int) =~= m.entries@);
                }
                return Err(e);
            },
        }
        i = i + 1;
    }
    assert(m.entries@.take(m.entries@.len() as int) =~= m.entries@);
    assert(keys_of(out@) =~= keys_of(m.entries@));
    Ok(EntityMap { entries: out })
}

impl Expr {
    /// Evaluates the expression: constants are copied, children are
    /// evaluated in order, and a call is made once all of its arguments are
    /// evaluated.
    pub fn eval<E: Environment>(&self, ctx: &Context<E>) -> (r: Result<Value, Error>)
        ensures
            value_result(r) == eval_model(*self, *ctx.comp_lib),
        decreases self,
    {
        match self {
            Expr::KeyMap(m) => match eval_entries(m, ctx) {
                Ok(vm) => Ok(Value::KeyMap(vm)),
                Err(e) => Err(e),
            },
            Expr::Constant(v) => Ok(v.deep_copy()),
            Expr::Vec(xs) => match eval_all(xs, ctx) {
                Ok(vs) => Ok(Value::Vec(vs)),
                Err(e) => Err(e),
            },
            Expr::Entity(m) => match eval_entries(m, ctx) {
                Ok(vm) => Ok(Value::Entity(vm)),
                Err(e) => Err(e),
            },
            Expr::Func(name, args) => match eval_all(args, ctx) {
                Ok(vs) => ctx.call_function(name.as_str(), vs.as_slice()),
                Err(e) => Err(e),
            },
        }
    }

    /// Evaluates the expression and requires an entity record as result.
    pub fn eval_to_entity<E: Environment>(&self, ctx: &Context<E>) -> (r: Result<
        EntityMap<Value>,
        Error,
    >)
        ensures
            match r {
                Ok(m) => entity_model(eval_model(*self, *ctx.comp_lib)) == Ok::<
                    Seq<(Seq<char>, ValueModel)>,
                    ErrorModel,
                >(entries_model(m.entries@)),
                Err(e) => entity_model(eval_model(*self, *ctx.comp_lib)) == Err::<
                    Seq<(Seq<char>, ValueModel)>,
                    ErrorModel,
                >(e@),
            },
    {
        match self.eval(ctx) {
            Ok(Value::Entity(m)) => Ok(m),
            Ok(other) => {
                proof {
                    reveal_strlit("entity");
                }
                Err(Error::UnexpectedType { unexpected: other.typename(), expected: "entity" })
            },
            Err(e) => Err(e),
        }
    }
}

impl EntityMap<Expr> {
    /// Evaluates every component expression, keeping the component names.
    pub fn eval<E: Environment>(&self, ctx: &Context<E>) -> (r: Result<EntityMap<Value>, Error>)
        ensures
            match r {
                Ok(vm) => eval_entries_model(self.entries@, *ctx.comp_lib) == Ok::<
                    Seq<(Seq<char>, ValueModel)>,
                    ErrorModel,
                >(entries_model(vm.entries@)) && vm.keys() == self.keys(),
                Err(e) => eval_entries_model(self.entries@, *ctx.comp_lib) == Err::<
                    Seq<(Seq<char>, ValueModel)>,
                    ErrorModel,
                >(e@),
            },
    {
        eval_entries(self, ctx)
    }
}

} // verus!
