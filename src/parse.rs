//! Turns an untagged document tree into expressions.
//!
//! A node is read as the first of these shapes that accepts it: a mapping of
//! named fields, a string, a signed 32-bit integer, a 32-bit float, a
//! sequence, an entity record, a function call (a name and a list of
//! arguments). An entity record has the shape of a mapping, and a function
//! call that of a two-element sequence, so a nested node never takes either
//! of the last two shapes: the mapping or the sequence accepts it first, and
//! where those refuse it the later shapes refuse it too. Only the root of a
//! document is read as an entity record.

use vstd::prelude::*;

use crate::error::Error;
use crate::expr::{eval_entries_model, eval_list_model, eval_model, Environment, Expr};
use crate::value::{EntityMap, Value, ValueModel};

verus! {

/// A node of a self-describing document, as a JSON-like or record-oriented
/// reader hands it over. Numbers carry their single-precision bit pattern.
#[derive(PartialEq, Debug)]
pub enum DocNode {
    Mapping(Vec<(DocNode, DocNode)>),
    Str(String),
    /// An integral number and its value rounded to single precision.
    Int(i64, u32),
    /// A fractional number, rounded to single precision.
    Float(u32),
    Sequence(Vec<DocNode>),
    Bool(bool),
    /// A unit, a null, or an absent optional.
    Unit,
    /// A present optional.
    Optional(Box<DocNode>),
}

/// Every node of `d` lies at most `limit` levels below it.
pub open spec fn within_depth(d: DocNode, limit: nat) -> bool
    decreases d,
{
    match d {
        DocNode::Mapping(es) => limit > 0 && entries_within_depth(es@, (limit - 1) as nat),
        DocNode::Sequence(xs) => limit > 0 && list_within_depth(xs@, (limit - 1) as nat),
        DocNode::Optional(inner) => limit > 0 && within_depth(*inner, (limit - 1) as nat),
        _ => true,
    }
}

pub open spec fn list_within_depth(xs: Seq<DocNode>, limit: nat) -> bool
    decreases xs,
{
    xs.len() == 0 || (list_within_depth(xs.drop_last(), limit) && within_depth(xs.last(), limit))
}

pub open spec fn entries_within_depth(es: Seq<(DocNode, DocNode)>, limit: nat) -> bool
    decreases es,
{
    es.len() == 0 || (entries_within_depth(es.drop_last(), limit) && within_depth(
        es.last().0,
        limit,
    ) && within_depth(es.last().1, limit))
}

/// Keys of a model map are unique.
pub open spec fn unique_model_keys(es: Seq<(Seq<char>, ValueModel)>) -> bool {
    forall|i: int, j: int|
        0 <= i < es.len() && 0 <= j < es.len() && i != j ==> #[trigger] es[i].0 != #[trigger] es[j].0
}

/// The value that a document denotes, where every node has one of the
/// accepted shapes.
pub open spec fn doc_model(d: DocNode) -> Option<ValueModel>
    decreases d,
{
    match d {
        DocNode::Mapping(es) => match doc_entries_model(es@) {
            Some(m) => if unique_model_keys(m) {
                Some(ValueModel::KeyMap(m))
            } else {
                None
            },
            None => None,
        },
        DocNode::Str(s) => Some(ValueModel::Str(s@)),
        DocNode::Int(i, bits) => if i32::MIN <= i <= i32::MAX {
            Some(ValueModel::I32(i as i32))
        } else {
            Some(ValueModel::F32(bits))
        },
        DocNode::Float(bits) => Some(ValueModel::F32(bits)),
        DocNode::Sequence(xs) => match doc_list_model(xs@) {
            Some(vs) => Some(ValueModel::Vec(vs)),
            None => None,
        },
        _ => None,
    }
}

pub open spec fn doc_list_model(xs: Seq<DocNode>) -> Option<Seq<ValueModel>>
    decreases xs,
{
    if xs.len() == 0 {
        Some(Seq::empty())
    } else {
        match (doc_list_model(xs.drop_last()), doc_model(xs.last())) {
            (Some(vs), Some(v)) => Some(vs.push(v)),
            _ => None,
        }
    }
}

/// Entries whose keys are strings and whose values have accepted shapes.
pub open spec fn doc_entries_model(es: Seq<(DocNode, DocNode)>) -> Option<
    Seq<(Seq<char>, ValueModel)>,
>
    decreases es,
{
    if es.len() == 0 {
        Some(Seq::empty())
    } else {
        match (doc_entries_model(es.drop_last()), es.last().0, doc_model(es.last().1)) {
            (Some(vs), DocNode::Str(k), Some(v)) => Some(vs.push((k@, v))),
            _ => None,
        }
    }
}

/// `e` is the expression that the node `d` reads as: a mapping of named
/// fields becomes a key map of the parsed values under the same names, in
/// order; a string, an integer that fits 32 bits, any other number become
/// constants; a sequence becomes a list of the parsed elements, in order.
pub open spec fn parsed_from(e: Expr, d: DocNode) -> bool
    decreases d,
{
    match d {
        DocNode::Mapping(es) => e is KeyMap && parsed_entries(e->KeyMap_0.entries@, es@),
        DocNode::Str(s) => e == Expr::Constant(Value::String(e->Constant_0->String_0))
            && e->Constant_0->String_0@ == s@,
        DocNode::Int(i, bits) => if i32::MIN <= i <= i32::MAX {
            e == Expr::Constant(Value::I32(i as i32))
        } else {
            e == Expr::Constant(Value::F32(bits))
        },
        DocNode::Float(bits) => e == Expr::Constant(Value::F32(bits)),
        DocNode::Sequence(xs) => e is Vec && parsed_list(e->Vec_0@, xs@),
        _ => false,
    }
}

/// Each expression of `es` is read from the node at the same place of `xs`.
pub open spec fn parsed_list(es: Seq<Expr>, xs: Seq<DocNode>) -> bool
    decreases xs,
{
    es.len() == xs.len() && (xs.len() == 0 || (parsed_list(es.drop_last(), xs.drop_last())
        && parsed_from(es.last(), xs.last())))
}

/// Each entry of `ms` has the string key and the parsed value of the
/// document entry at the same place of `ds`.
pub open spec fn parsed_entries(ms: Seq<(String, Expr)>, ds: Seq<(DocNode, DocNode)>) -> bool
    decreases ds,
{
    ms.len() == ds.len() && (ds.len() == 0 || (parsed_entries(ms.drop_last(), ds.drop_last())
        && ds.last().0 is Str && ms.last().0@ == ds.last().0->Str_0@ && parsed_from(
        ms.last().1,
        ds.last().1,
    )))
}

/// The value an expression denotes when it calls no function.
pub open spec fn data_model(e: Expr) -> Option<ValueModel>
    decreases e,
{
    match e {
        Expr::KeyMap(m) => match data_entries_model(m.entries@) {
            Some(es) => Some(ValueModel::KeyMap(es)),
            None => None,
        },
        Expr::Constant(v) => Some(v@),
        Expr::Vec(xs) => match data_list_model(xs@) {
            Some(vs) => Some(ValueModel::Vec(vs)),
            None => None,
        },
        Expr::Entity(m) => match data_entries_model(m.entries@) {
            Some(es) => Some(ValueModel::Entity(es)),
            None => None,
        },
        Expr::Func(_, _) => None,
    }
}

pub open spec fn data_list_model(xs: Seq<Expr>) -> Option<Seq<ValueModel>>
    decreases xs,
{
    if xs.len() == 0 {
        Some(Seq::empty())
    } else {
        match (data_list_model(xs.drop_last()), data_model(xs.last())) {
            (Some(vs), Some(v)) => Some(vs.push(v)),
            _ => None,
        }
    }
}

pub open spec fn data_entries_model(es: Seq<(String, Expr)>) -> Option<
    Seq<(Seq<char>, ValueModel)>,
>
    decreases es,
{
    if es.len() == 0 {
        Some(Seq::empty())
    } else {
        match (data_entries_model(es.drop_last()), data_model(es.last().1)) {
            (Some(vs), Some(v)) => Some(vs.push((es.last().0@, v))),
            _ => None,
        }
    }
}

/// An expression that calls no function evaluates to the value it denotes,
/// whatever the environment.
pub proof fn lemma_data_evaluates<E: Environment>(e: Expr, env: E)
    requires
        data_model(e) is Some,
    ensures
        eval_model(e, env) == Ok::<ValueModel, crate::error::ErrorModel>(data_model(e)->Some_0),
    decreases e,
{
    match e {
        Expr::KeyMap(m) => {
            lemma_data_entries_evaluate(m.entries@, env);
        },
        Expr::Vec(xs) => {
            lemma_data_list_evaluates(xs@, env);
        },
        Expr::Entity(m) => {
            lemma_data_entries_evaluate(m.entries@, env);
        },
        _ => {},
    }
}

proof fn lemma_data_list_evaluates<E: Environment>(xs: Seq<Expr>, env: E)
    requires
        data_list_model(xs) is Some,
    ensures
        eval_list_model(xs, env) == Ok::<Seq<ValueModel>, crate::error::ErrorModel>(
            data_list_model(xs)->Some_0,
        ),
    decreases xs,
{
    if xs.len() > 0 {
        lemma_data_list_evaluates(xs.drop_last(), env);
        lemma_data_evaluates(xs.last(), env);
    }
}

proof fn lemma_data_entries_evaluate<E: Environment>(es: Seq<(String, Expr)>, env: E)
    requires
        data_entries_model(es) is Some,
    ensures
        eval_entries_model(es, env) == Ok::<
            Seq<(Seq<char>, ValueModel)>,
            crate::error::ErrorModel,
        >(data_entries_model(es)->Some_0),
    decreases es,
{
    if es.len() > 0 {
        lemma_data_entries_evaluate(es.drop_last(), env);
        lemma_data_evaluates(es.last().1, env);
    }
}

proof fn lemma_doc_list_failure_stays(xs: Seq<DocNode>, k: int, j: int)
    requires
        0 <= k <= j <= xs.len(),
        doc_list_model(xs.take(k)) is None,
    ensures
        doc_list_model(xs.take(j)) is None,
    decreases j - k,
{
    if j > k {
        lemma_doc_list_failure_stays(xs, k, j - 1);
        assert(xs.take(j).drop_last() =~= xs.take(j - 1));
    }
}

proof fn lemma_doc_entries_failure_stays(es: Seq<(DocNode, DocNode)>, k: int, j: int)
    requires
        0 <= k <= j <= es.len(),
        doc_entries_model(es.take(k)) is None,
    ensures
        doc_entries_model(es.take(j)) is None,
    decreases j - k,
{
    if j > k {
        lemma_doc_entries_failure_stays(es, k, j - 1);
        assert(es.take(j).drop_last() =~= es.take(j - 1));
    }
}

proof fn lemma_data_entries_keys(es: Seq<(String, Expr)>)
    requires
        data_entries_model(es) is Some,
    ensures
        data_entries_model(es)->Some_0.len() == es.len(),
        forall|j: int|
            0 <= j < es.len() ==> #[trigger] data_entries_model(es)->Some_0[j].0 == es[j].0@,
    decreases es,
{
    if es.len() > 0 {
        lemma_data_entries_keys(es.drop_last());
        assert forall|j: int| 0 <= j < es.len() implies #[trigger] data_entries_model(
            es,
        )->Some_0[j].0 == es[j].0@ by {
            if j < es.len() - 1 {
                assert(es.drop_last()[j] == es[j]);
            }
        }
    }
}

proof fn lemma_list_depth_failure_stays(xs: Seq<DocNode>, limit: nat, k: int, j: int)
    requires
        0 <= k <= j <= xs.len(),
        !list_within_depth(xs.take(k), limit),
    ensures
        !list_within_depth(xs.take(j), limit),
    decreases j - k,
{
    if j > k {
        lemma_list_depth_failure_stays(xs, limit, k, j - 1);
        assert(xs.take(j).drop_last() =~= xs.take(j - 1));
    }
}

proof fn lemma_entries_depth_failure_stays(
    es: Seq<(DocNode, DocNode)>,
    limit: nat,
    k: int,
    j: int,
)
    requires
        0 <= k <= j <= es.len(),
        !entries_within_depth(es.take(k), limit),
    ensures
        !entries_within_depth(es.take(j), limit),
    decreases j - k,
{
    if j > k {
        lemma_entries_depth_failure_stays(es, limit, k, j - 1);
        assert(es.take(j).drop_last() =~= es.take(j - 1));
    }
}

/// Whether every node of `doc` lies at most `limit` levels below it. The
/// walk itself never goes deeper than `limit`.
pub fn is_within_depth(doc: &DocNode, limit: usize) -> (r: bool)
    ensures
        r == within_depth(*doc, limit as nat),
    decreases limit,
{
    match doc {
        DocNode::Mapping(es) => {
            if limit == 0 {
                return false;
            }
            let mut i: usize = 0;
            while i < es.len()
                invariant
                    *doc == DocNode::Mapping(*es),
                    limit > 0,
                    i <= es@.len(),
                    entries_within_depth(es@.take(i as int), (limit - 1) as nat),
                decreases es@.len() - i,
            {
                proof {
                    assert(es@.take(i + 1).drop_last() =~= es@.take(i as int));
                }
                if !is_within_depth(&es[i].0, limit - 1) || !is_within_depth(&es[i].1, limit - 1) {
                    proof {
                        lemma_entries_depth_failure_stays(es@, (limit - 1) as nat, i + 1, es@.len() as int);
                        assert(es@.take(es@.len() as int) =~= es@);
                    }
                    return false;
                }
                i = i + 1;
            }
            assert(es@.take(es@.len() as int) =~= es@);
            true
        },
        DocNode::Sequence(xs) => {
            if limit == 0 {
                return false;
            }
            let mut i: usize = 0;
            while i < xs.len()
                invariant
                    *doc == DocNode::Sequence(*xs),
                    limit > 0,
                    i <= xs@.len(),
                    list_within_depth(xs@.take(i as int), (limit - 1) as nat),
                decreases xs@.len() - i,
            {
                proof {
                    assert(xs@.take(i + 1).drop_last() =~= xs@.take(i as int));
                }
                if !is_within_depth(&xs[i], limit - 1) {
                    proof {
                        lemma_list_depth_failure_stays(xs@, (limit - 1) as nat, i + 1, xs@.len() as int);
                        assert(xs@.take(xs@.len() as int) =~= xs@);
                    }
                    return false;
                }
                i = i + 1;
            }
            assert(xs@.take(xs@.len() as int) =~= xs@);
            true
        },
        DocNode::Optional(inner) => {
            if limit == 0 {
                return false;
            }
            is_within_depth(inner, limit - 1)
        },
        _ => true,
    }
}

/// Reads every node of `xs` as an expression, or none where one has no
/// accepted shape.
fn parse_list(xs: &Vec<DocNode>) -> (r: Option<Vec<Expr>>)
    ensures
        r is Some <==> doc_list_model(xs@) is Some,
        r matches Some(es) ==> data_list_model(es@) == doc_list_model(xs@) && parsed_list(
            es@,
            xs@,
        ),
    decreases xs,
{
    let mut out: Vec<Expr> = Vec::new();
    let mut i: usize = 0;
    while i < xs.len()
        invariant
            i <= xs@.len(),
            doc_list_model(xs@.take(i as int)) is Some,
            data_list_model(out@) == doc_list_model(xs@.take(i as int)),
            parsed_list(out@, xs@.take(i as int)),
        decreases xs@.len() - i,
    {
        proof {
            assert(decreases_to!(xs => xs[i as int]));
            assert(xs@.take(i + 1).drop_last() =~= xs@.take(i as int));
        }
        match parse_node(&xs[i]) {
            Some(e) => {
                proof {
                    assert(out@.push(e).drop_last() =~= out@);
                }
                out.push(e);
            },
            None => {
                proof {
                    lemma_doc_list_failure_stays(xs@, i + 1, xs@.len() as int);
                    assert(xs@.take(xs@.len() as int) =~= xs@);
                }
                return None;
            },
        }
        i = i + 1;
    }
    assert(xs@.take(xs@.len() as int) =~= xs@);
    Some(out)
}

/// Reads a mapping of named fields: every key a string, no key twice, every
/// value an expression.
fn parse_entries(es: &Vec<(DocNode, DocNode)>) -> (r: Option<EntityMap<Expr>>)
    ensures
        r is Some <==> (doc_entries_model(es@) is Some && unique_model_keys(
            doc_entries_model(es@)->Some_0,
        )),
        r matches Some(m) ==> m.wf() && data_entries_model(m.entries@) == doc_entries_model(es@)
            && parsed_entries(m.entries@, es@),
    decreases es,
{
    let mut out: Vec<(String, Expr)> = Vec::new();
    let mut i: usize = 0;
    while i < es.len()
        invariant
            i <= es@.len(),
            doc_entries_model(es@.take(i as int)) is Some,
            data_entries_model(out@) == doc_entries_model(es@.take(i as int)),
            parsed_entries(out@, es@.take(i as int)),
        decreases es@.len() - i,
    {
        proof {
            assert(decreases_to!(es => es[i as int]));
            assert(decreases_to!(es[i as int] => es[i as int].1));
            assert(es@.take(i + 1).drop_last() =~= es@.take(i as int));
        }
        let key = match &es[i].0 {
            DocNode::Str(k) => k.clone(),
            _ => {
                proof {
                    lemma_doc_entries_failure_stays(es@, i + 1, es@.len() as int);
                    assert(es@.take(es@.len() as int) =~= es@);
                }
                return None;
            },
        };
        match parse_node(&es[i].1) {
            Some(e) => {
                proof {
                    assert(out@.push((key, e)).drop_last() =~= out@);
                }
                out.push((key, e));
            },
            None => {
                proof {
                    lemma_doc_entries_failure_stays(es@, i + 1, es@.len() as int);
                    assert(es@.take(es@.len() as int) =~= es@);
                }
                return None;
            },
        }
        i = i + 1;
    }
    assert(es@.take(es@.len() as int) =~= es@);
    proof {
        lemma_data_entries_keys(out@);
    }
    let ghost model = doc_entries_model(es@)->Some_0;
    let n = out.len();
    let mut a: usize = 0;
    while a < n
        invariant
            n == out@.len(),
            a <= n,
            model == doc_entries_model(es@)->Some_0,
            model.len() == n,
            forall|j: int| 0 <= j < n ==> #[trigger] model[j].0 == out@[j].0@,
            forall|x: int, y: int|
                0 <= x < a && 0 <= y < n && x != y ==> #[trigger] model[x].0 != #[trigger] model[y].0,
        decreases n - a,
    {
        let mut b: usize = 0;
        while b < n
            invariant
                n == out@.len(),
                a < n,
                model == doc_entries_model(es@)->Some_0,
                b <= n,
                model.len() == n,
                forall|j: int| 0 <= j < n ==> #[trigger] model[j].0 == out@[j].0@,
                forall|x: int, y: int|
                    0 <= x < a && 0 <= y < n && x != y ==> #[trigger] model[x].0 != #[trigger] model[y].0,
                forall|y: int| 0 <= y < b && a != y ==> model[a as int].0 != #[trigger] model[y].0,
            decreases n - b,
        {
            if a != b && out[a].0 == out[b].0 {
                assert(model[a as int].0 == model[b as int].0);
                return None;
            }
            b = b + 1;
        }
        a = a + 1;
    }
    let m = EntityMap { entries: out };
    assert(m.wf()) by {
        assert forall|x: int, y: int|
            0 <= x < n && 0 <= y < n && x != y implies #[trigger] m.entries@[x].0@
            != #[trigger] m.entries@[y].0@ by {
            assert(model[x].0 != model[y].0);
        }
    }
    Some(m)
}

/// The entity record that a document root denotes: a mapping whose keys are
/// component names.
pub open spec fn doc_entity_model(d: DocNode) -> Option<Seq<(Seq<char>, ValueModel)>> {
    match d {
        DocNode::Mapping(es) => match doc_entries_model(es@) {
            Some(m) => if unique_model_keys(m) {
                Some(m)
            } else {
                None
            },
            None => None,
        },
        _ => None,
    }
}

/// Reads a document root as an entity record; none where it is no mapping
/// of component names to accepted nodes.
pub fn parse_entity(doc: &DocNode) -> (r: Option<EntityMap<Expr>>)
    ensures
        r is Some <==> doc_entity_model(*doc) is Some,
        r matches Some(m) ==> m.wf() && data_entries_model(m.entries@) == doc_entity_model(*doc)
            && parsed_entries(m.entries@, doc->Mapping_0@),
{
    match doc {
        DocNode::Mapping(es) => parse_entries(es),
        _ => None,
    }
}

/// Parsing a document node and evaluating the expression gives back the
/// value that the document denotes: the same strings, numbers, sequences and
/// named mappings, in any environment.
pub proof fn lemma_parse_then_eval<E: Environment>(doc: DocNode, e: Expr, env: E)
    requires
        doc_model(doc) is Some,
        data_model(e) == doc_model(doc),
    ensures
        eval_model(e, env) == Ok::<ValueModel, crate::error::ErrorModel>(doc_model(doc)->Some_0),
{
    lemma_data_evaluates(e, env);
}

/// Reads one nested node as an expression, trying the shapes in their fixed
/// order; none where no shape accepts it.
pub fn parse_node(doc: &DocNode) -> (r: Option<Expr>)
    ensures
        r is Some <==> doc_model(*doc) is Some,
        r matches Some(e) ==> data_model(e) == doc_model(*doc) && parsed_from(e, *doc),
    decreases doc,
{
    if let DocNode::Mapping(es) = doc {
        return match parse_entries(es) {
            Some(m) => Some(Expr::KeyMap(m)),
            None => None,
        };
    }
    if let DocNode::Str(s) = doc {
        return Some(Expr::Constant(Value::String(s.clone())));
    }
    if let DocNode::Int(i, _) = doc {
        if -2147483648i64 <= *i && *i <= 2147483647i64 {
            return Some(Expr::Constant(Value::I32(*i as i32)));
        }
    }
    match doc {
        DocNode::Int(_, bits) => {
            return Some(Expr::Constant(Value::F32(*bits)));
        },
        DocNode::Float(bits) => {
            return Some(Expr::Constant(Value::F32(*bits)));
        },
        _ => {},
    }
    if let DocNode::Sequence(xs) = doc {
        return match parse_list(xs) {
            Some(items) => Some(Expr::Vec(items)),
            None => None,
        };
    }
    None
}

} // verus!
