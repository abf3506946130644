use prints::error::Error;
use prints::expr::{Context, EntityExprBuilder, Expr};
use prints::parse::{parse_entity, parse_node, DocNode};
use prints::runtime::{ConstantFunction, SimpleRuntime};
use prints::value::{EntityMap, Value};
use prints::parse::is_within_depth;
use prints::{Blueprint, DEFAULT_MAX_DEPTH};

fn from_json(v: &serde_json::Value) -> DocNode {
    match v {
        serde_json::Value::Null => DocNode::Unit,
        serde_json::Value::Bool(b) => DocNode::Bool(*b),
        serde_json::Value::Number(n) => match n.as_i64() {
            Some(i) => DocNode::Int(i, (i as f32).to_bits()),
            None => DocNode::Float((n.as_f64().unwrap() as f32).to_bits()),
        },
        serde_json::Value::String(s) => DocNode::Str(s.clone()),
        serde_json::Value::Array(xs) => DocNode::Sequence(xs.iter().map(from_json).collect()),
        serde_json::Value::Object(m) => DocNode::Mapping(
            m.iter()
                .map(|(k, v)| (DocNode::Str(k.clone()), from_json(v)))
                .collect(),
        ),
    }
}

fn f(x: f32) -> u32 {
    x.to_bits()
}

fn key_map(entries: Vec<(&str, Expr)>) -> Expr {
    let mut m = EntityMap::new();
    for (k, v) in entries {
        m.add_component(k, v);
    }
    Expr::KeyMap(m)
}

fn value_map(entries: Vec<(&str, Value)>) -> EntityMap<Value> {
    let mut m = EntityMap::new();
    for (k, v) in entries {
        m.add_component(k, v);
    }
    m
}

fn runtime() -> SimpleRuntime<ConstantFunction> {
    SimpleRuntime::new()
}

#[test]
fn test_parse() {
    let entity_json = r#"
        {
            "test_comp": {
                "x": 42.0,
                "y": 42.0
            }
        }
    "#;

    let expected_test_comp_expr = key_map(vec![
        ("x", Expr::Constant(Value::F32(f(42.0)))),
        ("y", Expr::Constant(Value::F32(f(42.0)))),
    ]);

    let json: serde_json::Value = serde_json::from_str(entity_json).unwrap();
    let parsed_entity = parse_entity(&from_json(&json)).unwrap();

    let components: Vec<(&str, &Expr)> = parsed_entity
        .components()
        .iter()
        .map(|(k, v)| (k.as_str(), v))
        .collect();

    assert_eq!(components, vec![("test_comp", &expected_test_comp_expr)]);
}

#[test]
fn parse_order_integers_before_floats() {
    assert_eq!(parse_node(&DocNode::Int(7, f(7.0))), Some(Expr::Constant(Value::I32(7))));
    let big: i64 = 3_000_000_000;
    assert_eq!(
        parse_node(&DocNode::Int(big, f(big as f32))),
        Some(Expr::Constant(Value::F32(f(big as f32))))
    );
    assert_eq!(parse_node(&DocNode::Float(f(1.5))), Some(Expr::Constant(Value::F32(f(1.5)))));
}

#[test]
fn parse_order_mapping_and_sequence() {
    let doc = DocNode::Sequence(vec![
        DocNode::Str("name".to_string()),
        DocNode::Sequence(vec![DocNode::Int(1, f(1.0))]),
    ]);
    let expected = Expr::Vec(vec![
        Expr::Constant(Value::String("name".to_string())),
        Expr::Vec(vec![Expr::Constant(Value::I32(1))]),
    ]);
    assert_eq!(parse_node(&doc), Some(expected));

    let map = DocNode::Mapping(vec![(DocNode::Str("a".to_string()), DocNode::Int(1, f(1.0)))]);
    assert_eq!(parse_node(&map), Some(key_map(vec![("a", Expr::Constant(Value::I32(1)))])));
}

#[test]
fn parse_rejects_unaccepted_nodes() {
    assert_eq!(parse_node(&DocNode::Bool(true)), None);
    assert_eq!(parse_node(&DocNode::Unit), None);
    assert_eq!(parse_node(&DocNode::Optional(Box::new(DocNode::Int(1, f(1.0))))), None);
    let nested = DocNode::Sequence(vec![DocNode::Int(1, f(1.0)), DocNode::Bool(false)]);
    assert_eq!(parse_node(&nested), None);
    let numeric_key = DocNode::Mapping(vec![(DocNode::Int(1, f(1.0)), DocNode::Int(1, f(1.0)))]);
    assert_eq!(parse_node(&numeric_key), None);
    let twice = DocNode::Mapping(vec![
        (DocNode::Str("a".to_string()), DocNode::Int(1, f(1.0))),
        (DocNode::Str("a".to_string()), DocNode::Int(2, f(2.0))),
    ]);
    assert_eq!(parse_node(&twice), None);
    assert!(parse_entity(&DocNode::Str("x".to_string())).is_none());
}

#[test]
fn parse_then_eval_keeps_structure() {
    let json: serde_json::Value = serde_json::from_str(
        r#"{"Stats": {"hp": 10, "speed": 2.5, "tags": ["a", "b"]}, "Name": "Rex"}"#,
    )
    .unwrap();
    let entity = parse_entity(&from_json(&json)).unwrap();
    let rt = runtime();
    let value = entity.eval(&Context::new(&rt)).unwrap();
    let expected = value_map(vec![
        ("Name", Value::String("Rex".to_string())),
        (
            "Stats",
            Value::KeyMap(value_map(vec![
                ("hp", Value::I32(10)),
                ("speed", Value::F32(f(2.5))),
                (
                    "tags",
                    Value::Vec(vec![
                        Value::String("a".to_string()),
                        Value::String("b".to_string()),
                    ]),
                ),
            ])),
        ),
    ]);
    assert_eq!(value, expected);
}

#[test]
fn eval_to_entity_rejects_other_roots() {
    let rt = runtime();
    let ctx = Context::new(&rt);
    let root = key_map(vec![("a", Expr::Constant(Value::I32(1)))]);
    assert_eq!(
        root.eval_to_entity(&ctx),
        Err(Error::UnexpectedType { unexpected: "map", expected: "entity" })
    );
    let root = Expr::Constant(Value::I32(3));
    assert_eq!(
        root.eval_to_entity(&ctx),
        Err(Error::UnexpectedType { unexpected: "i32", expected: "entity" })
    );
}

#[test]
fn eval_to_entity_keeps_component_names() {
    let rt = runtime();
    let ctx = Context::new(&rt);
    let entity = EntityExprBuilder::new()
        .add_component("A", Expr::Constant(Value::I32(1)))
        .add_component("B", Expr::Vec(vec![]))
        .build();
    let bp = Blueprint::new("bp", entity);
    let record = bp.eval_to_entity(&ctx).unwrap();
    let names: Vec<&str> = record.components().iter().map(|(k, _)| k.as_str()).collect();
    assert_eq!(names, vec!["A", "B"]);
    assert_eq!(bp.name(), "bp");
}

#[test]
fn function_calls_resolve_through_the_runtime() {
    let mut rt = runtime();
    rt.register_func("seven", ConstantFunction(Value::I32(7)));
    let ctx = Context::new(&rt);
    let call = Expr::Func(
        "seven".to_string(),
        vec![Expr::Constant(Value::I32(2)), Expr::Constant(Value::I32(5))],
    );
    assert_eq!(call.eval(&ctx), Ok(Value::I32(7)));

    let missing = Expr::Func("nope".to_string(), vec![]);
    assert_eq!(missing.eval(&ctx), Err(Error::UndefinedFunctionError("nope".to_string())));
}

#[test]
fn evaluation_stops_at_the_first_failure() {
    let rt = runtime();
    let ctx = Context::new(&rt);
    let xs = Expr::Vec(vec![
        Expr::Constant(Value::I32(1)),
        Expr::Func("first".to_string(), vec![]),
        Expr::Func("second".to_string(), vec![]),
    ]);
    assert_eq!(xs.eval(&ctx), Err(Error::UndefinedFunctionError("first".to_string())));
}

#[test]
fn load_from_document_names_the_blueprint() {
    let doc = DocNode::Mapping(vec![(DocNode::Str("Name".to_string()), DocNode::Str("Rex".to_string()))]);
    let bp = Blueprint::load_from_document(Some("rex"), "blueprints/rex.bp.ron", &doc, DEFAULT_MAX_DEPTH).unwrap();
    assert_eq!(bp.name(), "rex");
    let err = Blueprint::load_from_document(None, "blueprints/", &doc, DEFAULT_MAX_DEPTH).unwrap_err();
    assert_eq!(err, Error::CouldNotDetermineEntityName("blueprints/".to_string()));
    let err = Blueprint::load_from_document(Some("x"), "x.bp.ron", &DocNode::Unit, DEFAULT_MAX_DEPTH).unwrap_err();
    assert!(matches!(err, Error::ParseError(p, _) if p == "x.bp.ron"));
}

#[test]
fn documents_deeper_than_the_limit_are_refused() {
    let mut doc = DocNode::Int(1, f(1.0));
    for _ in 0..5 {
        doc = DocNode::Sequence(vec![doc]);
    }
    assert!(is_within_depth(&doc, 5));
    assert!(!is_within_depth(&doc, 4));
    let root = DocNode::Mapping(vec![(DocNode::Str("Deep".to_string()), doc)]);
    assert!(Blueprint::load_from_document(Some("deep"), "deep.bp.ron", &root, 6).is_ok());
    let err = Blueprint::load_from_document(Some("deep"), "deep.bp.ron", &root, 5).unwrap_err();
    assert!(matches!(err, Error::ParseError(p, _) if p == "deep.bp.ron"));
}

#[test]
fn empty_sequence_parses_as_a_list() {
    assert_eq!(parse_node(&DocNode::Sequence(vec![])), Some(Expr::Vec(vec![])));
    assert_eq!(parse_node(&DocNode::Mapping(vec![])), Some(Expr::KeyMap(EntityMap::new())));
}

#[test]
fn blueprint_name_comes_from_the_stem() {
    assert_eq!(Blueprint::name_from_stem(Some("rex"), "rex.bp.ron"), Ok("rex".to_string()));
    assert_eq!(
        Blueprint::name_from_stem(None, "/"),
        Err(Error::CouldNotDetermineEntityName("/".to_string()))
    );
}
