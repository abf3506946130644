//! Blueprints for entities: a small expression language whose evaluated
//! values are turned into typed components.

pub mod deser;
pub mod error;
pub mod expr;
pub mod parse;
pub mod registry;
pub mod runtime;
pub mod spawn;
pub mod value;

use vstd::prelude::*;

use crate::error::{Error, ErrorModel};
use crate::expr::{entity_model, eval_entries_model, eval_model, Context, Environment, EntityExpr, Expr};
use crate::parse::{
    data_model, doc_entity_model, is_within_depth, parse_entity, parsed_entries, within_depth,
    DocNode,
};
use crate::value::{entries_model, EntityMap, Value, ValueModel};

verus! {

/// How deep a document may nest unless the caller chooses otherwise.
pub const DEFAULT_MAX_DEPTH: usize = 64;

/// A named, parsed entity description, not yet materialized.
#[derive(Debug)]
pub struct Blueprint {
    name: String,
    expr: Expr,
}

impl Blueprint {
    pub closed spec fn spec_name(&self) -> Seq<char> {
        self.name@
    }

    /// The root expression: always an entity record.
    pub closed spec fn root(&self) -> Expr {
        self.expr
    }

    pub fn new(name: &str, entity: EntityExpr) -> (r: Self)
        ensures
            r.spec_name() == name@,
            r.root() == Expr::Entity(entity),
    {
        Blueprint { name: name.to_string(), expr: Expr::Entity(entity) }
    }

    /// Builds a blueprint from a document read from `path`, named after
    /// `stem`, the file's base name without extension. A document that nests
    /// deeper than `max_depth` is refused before it is read further.
    pub fn load_from_document(
        stem: Option<&str>,
        path: &str,
        doc: &DocNode,
        max_depth: usize,
    ) -> (r: Result<Blueprint, Error>)
        ensures
            stem is None ==> (r matches Err(e) && e@ == ErrorModel::CouldNotDetermineEntityName(
                path@,
            )),
            stem is Some && (!within_depth(*doc, max_depth as nat) || doc_entity_model(*doc) is None)
                ==> (r matches Err(e) && e@ is ParseError && e@->ParseError_0 == path@),
            stem is Some && within_depth(*doc, max_depth as nat) && doc_entity_model(*doc) is Some
                ==> (r matches Ok(b) && b.spec_name()
                == stem->Some_0@ && data_model(b.root()) == Some(
                ValueModel::Entity(doc_entity_model(*doc)->Some_0),
            ) && b.root() is Entity && parsed_entries(b.root()->Entity_0.entries@, doc->Mapping_0@)),
    {
        let name = match Self::name_from_stem(stem, path) {
            Ok(n) => n,
            Err(e) => {
                return Err(e);
            },
        };
        if !is_within_depth(doc, max_depth) {
            return Err(
                Error::ParseError(
                    path.to_string(),
                    "document nests deeper than the limit".to_string(),
                ),
            );
        }
        match parse_entity(doc) {
            Some(entity) => Ok(Blueprint { name, expr: Expr::Entity(entity) }),
            None => Err(
                Error::ParseError(
                    path.to_string(),
                    "document is not a mapping of component names to accepted nodes".to_string(),
                ),
            ),
        }
    }

    /// The name of a blueprint read from `path`, given the file's base name
    /// without extension.
    pub fn name_from_stem(stem: Option<&str>, path: &str) -> (r: Result<String, Error>)
        ensures
            stem matches Some(s) ==> (r matches Ok(n) && n@ == s@),
            stem is None ==> (r matches Err(e) && e@ == ErrorModel::CouldNotDetermineEntityName(
                path@,
            )),
    {
        match stem {
            Some(s) => Ok(s.to_string()),
            None => Err(Error::CouldNotDetermineEntityName(path.to_string())),
        }
    }

    pub fn name(&self) -> (r: &str)
        ensures
            r@ == self.spec_name(),
    {
        self.name.as_str()
    }

    pub fn eval<E: Environment>(&self, ctx: &Context<E>) -> (r: Result<Value, Error>)
        ensures
            crate::expr::value_result(r) == eval_model(self.root(), *ctx.comp_lib),
    {
        self.expr.eval(ctx)
    }

    pub fn eval_to_entity<E: Environment>(&self, ctx: &Context<E>) -> (r: Result<
        EntityMap<Value>,
        Error,
    >)
        ensures
            match r {
                Ok(m) => entity_model(eval_model(self.root(), *ctx.comp_lib)) == Ok::<
                    Seq<(Seq<char>, ValueModel)>,
                    ErrorModel,
                >(entries_model(m.entries@)),
                Err(e) => entity_model(eval_model(self.root(), *ctx.comp_lib)) == Err::<
                    Seq<(Seq<char>, ValueModel)>,
                    ErrorModel,
                >(e@),
            },
    {
        self.expr.eval_to_entity(ctx)
    }
}

/// Evaluating named entries keeps their names, in order.
pub proof fn lemma_eval_entries_keys<E: Environment>(es: Seq<(String, Expr)>, env: E)
    requires
        eval_entries_model(es, env) is Ok,
    ensures
        eval_entries_model(es, env)->Ok_0.len() == es.len(),
        forall|j: int|
            0 <= j < es.len() ==> #[trigger] eval_entries_model(es, env)->Ok_0[j].0 == es[j].0@,
    decreases es,
{
    if es.len() > 0 {
        lemma_eval_entries_keys(es.drop_last(), env);
        assert forall|j: int| 0 <= j < es.len() implies #[trigger] eval_entries_model(
            es,
            env,
        )->Ok_0[j].0 == es[j].0@ by {
            if j < es.len() - 1 {
                assert(es.drop_last()[j] == es[j]);
            }
        }
    }
}

/// Asking for an entity record fails with an unexpected-type error whenever
/// the root evaluates to anything but an entity record; an entity root that
/// evaluates gives a record with exactly the declared component names, in
/// order.
pub proof fn lemma_eval_to_entity<E: Environment>(e: Expr, env: E)
    ensures
        eval_model(e, env) is Ok && !(eval_model(e, env)->Ok_0 is Entity) ==> entity_model(
            eval_model(e, env),
        ) == Err::<Seq<(Seq<char>, ValueModel)>, ErrorModel>(
            ErrorModel::UnexpectedType(
                crate::value::kind_name(eval_model(e, env)->Ok_0),
                "entity"@,
            ),
        ),
        e is Entity && entity_model(eval_model(e, env)) is Ok ==> {
            let names = entity_model(eval_model(e, env))->Ok_0;
            let declared = e->Entity_0.entries@;
            &&& names.len() == declared.len()
            &&& forall|j: int| 0 <= j < names.len() ==> #[trigger] names[j].0 == declared[j].0@
        },
{
    if let Expr::Entity(m) = e {
        if eval_entries_model(m.entries@, env) is Ok {
            lemma_eval_entries_keys(m.entries@, env);
        }
    }
}

} // verus!
