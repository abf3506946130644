//! A simple environment: a table of named native functions.

use vstd::prelude::*;

use crate::error::{Error, ErrorModel};
use crate::expr::{value_result, Environment};
use crate::value::{
    first_named, lemma_first_named_found, lemma_first_named_none, values_model, EntityMap, Value,
    ValueModel,
};

verus! {

/// A function that blueprints can call by name. Implemented by the host for
/// the functions it offers.
pub trait NativeFunction {
    /// What the function returns on `args`.
    spec fn result(&self, args: Seq<ValueModel>) -> ValueModel;

    fn call(&self, args: &[Value]) -> (r: Value)
        ensures
            r@ == self.result(values_model(args@)),
    ;
}

/// A function that ignores its arguments and returns a copy of one value.
pub struct ConstantFunction(pub Value);

impl NativeFunction for ConstantFunction {
    open spec fn result(&self, args: Seq<ValueModel>) -> ValueModel {
        self.0@
    }

    fn call(&self, args: &[Value]) -> (r: Value) {
        self.0.deep_copy()
    }
}

/// An environment holding a mapping from function names to native functions.
pub struct SimpleRuntime<F: NativeFunction> {
    functions: EntityMap<F>,
}

impl<F: NativeFunction> SimpleRuntime<F> {
    /// The registered functions, by name.
    pub closed spec fn table(&self) -> Seq<(String, F)> {
        self.functions.entries@
    }

    pub closed spec fn wf(&self) -> bool {
        self.functions.wf()
    }

    pub fn new() -> (r: Self)
        ensures
            r.wf(),
            r.table().len() == 0,
    {
        SimpleRuntime { functions: EntityMap::new() }
    }

    /// Registers `f` under `name`, replacing a function of that name.
    pub fn register_func(&mut self, name: &str, f: F)
        requires
            old(self).wf(),
        ensures
            final(self).wf(),
            match first_named(old(self).table(), name@) {
                Some(i) => final(self).table() == old(self).table().update(
                    i,
                    (old(self).table()[i].0, f),
                ),
                None => final(self).table().len() == old(self).table().len() + 1
                    && final(self).table().take(old(self).table().len() as int)
                    == old(self).table() && final(self).table().last().0@ == name@
                    && final(self).table().last().1 == f,
            },
    {
        self.functions.add_component(name, f);
    }
}

impl<F: NativeFunction> Environment for SimpleRuntime<F> {
    /// The function registered under `name` applied to `args`, or an
    /// undefined-function error where none is.
    open spec fn call_model(&self, name: Seq<char>, args: Seq<ValueModel>) -> Result<
        ValueModel,
        ErrorModel,
    > {
        match first_named(self.table(), name) {
            Some(i) => Ok(self.table()[i].1.result(args)),
            None => Err(ErrorModel::UndefinedFunction(name)),
        }
    }

    fn eval_func(&self, name: &str, args: &[Value]) -> (r: Result<Value, Error>) {
        let ghost entries = self.functions.entries@;
        let key = name.to_string();
        let n = self.functions.entries.len();
        let mut i: usize = 0;
        while i < n
            invariant
                entries == self.functions.entries@,
                n == entries.len(),
                i <= n,
                key@ == name@,
                forall|j: int| 0 <= j < i ==> #[trigger] entries[j].0@ != name@,
            decreases n - i,
        {
            if self.functions.entries[i].0 == key {
                proof {
                    lemma_first_named_none(entries, name@, i as int);
                    assert(entries.take(i + 1).drop_last() =~= entries.take(i as int));
                    lemma_first_named_found(entries, name@, i as int, n as int);
                    assert(entries.take(n as int) =~= entries);
                }
                return Ok(self.functions.entries[i].1.call(args));
            }
            i = i + 1;
        }
        proof {
            lemma_first_named_none(entries, name@, n as int);
            assert(entries.take(n as int) =~= entries);
        }
        Err(Error::UndefinedFunctionError(key))
    }
}

} // verus!
