use prints::deser::{Decoded, Shape};
use prints::error::{Error, ToComponentError};
use prints::expr::{Context, EntityExprBuilder, Expr};
use prints::registry::{BlueprintComponentAdderRegistry, ComponentInserter};
use prints::runtime::{ConstantFunction, SimpleRuntime};
use prints::spawn::{plan_entity, reflect_component, ComponentStep, DynamicComponent, FieldValue};
use prints::value::{EntityMap, Value};
use prints::DEFAULT_MAX_DEPTH;

fn f(x: f32) -> u32 {
    x.to_bits()
}

fn point_value() -> Value {
    let mut m = EntityMap::new();
    m.add_component("x", Value::F32(f(42.0)));
    m.add_component("y", Value::F32(f(42.0)));
    Value::KeyMap(m)
}

fn attack_shape() -> Shape {
    Shape::Enum(vec!["FireBreath".to_string(), "Scratch".to_string(), "Bark".to_string()])
}

#[test]
fn decode_bare_enum_variant() {
    let v = Value::String("Scratch".to_string());
    assert_eq!(v.to_component(&attack_shape()), Ok(Decoded::Variant(1)));
    let v = Value::String("Unknown".to_string());
    assert_eq!(
        v.to_component(&attack_shape()),
        Err(ToComponentError::UnknownVariant { variant: "Unknown".to_string() })
    );
}

#[test]
fn decode_numeric_record() {
    let shape = Shape::Struct(vec![("x".to_string(), Shape::F32), ("y".to_string(), Shape::F32)]);
    let d = point_value().to_component(&shape).unwrap();
    assert_eq!(d, Decoded::Struct(vec![Decoded::F32(f(42.0)), Decoded::F32(f(42.0))]));
    if let Decoded::Struct(fields) = d {
        for field in fields {
            if let Decoded::F32(bits) = field {
                assert_eq!(f32::from_bits(bits), 42.0);
            }
        }
    }
}

#[test]
fn decode_shapes_and_errors() {
    let shape = Shape::Struct(vec![("z".to_string(), Shape::F32)]);
    assert_eq!(
        point_value().to_component(&shape),
        Err(ToComponentError::MissingField("z".to_string()))
    );
    assert_eq!(Value::I32(3).to_component(&Shape::F32), Ok(Decoded::IntAsFloat(3)));
    assert_eq!(
        Value::F32(f(1.0)).to_component(&Shape::I32),
        Err(ToComponentError::InvalidType { unexpected: "f32", expected: "i32" })
    );
    assert_eq!(
        Value::Entity(EntityMap::new()).to_component(&Shape::Newtype(Box::new(Shape::Str))),
        Err(ToComponentError::InvalidType { unexpected: "entity", expected: "string" })
    );
    let list = Value::Vec(vec![Value::String("Bark".to_string()), Value::String("Scratch".to_string())]);
    assert_eq!(
        list.to_component(&Shape::List(Box::new(attack_shape()))),
        Ok(Decoded::List(vec![Decoded::Variant(2), Decoded::Variant(1)]))
    );
    let pair = Value::Vec(vec![Value::I32(1), Value::String("s".to_string())]);
    assert_eq!(
        pair.to_component(&Shape::Tuple(vec![Shape::I32, Shape::Str])),
        Ok(Decoded::Tuple(vec![Decoded::I32(1), Decoded::Str("s".to_string())]))
    );
    assert_eq!(
        pair.to_component(&Shape::Tuple(vec![Shape::I32])),
        Err(ToComponentError::InvalidType { unexpected: "vec", expected: "tuple" })
    );
    let e: Error = ToComponentError::MissingField("z".to_string()).into();
    assert_eq!(e, Error::ToComponentError(ToComponentError::MissingField("z".to_string())));
}

#[test]
fn test_simple_spawn() {
    let entity_expr = EntityExprBuilder::new()
        .add_component(
            "TestComp",
            Expr::KeyMap({
                let mut m = EntityMap::new();
                m.add_component("x", Expr::Constant(Value::F32(f(42.0))));
                m.add_component("y", Expr::Constant(Value::F32(f(42.0))));
                m
            }),
        )
        .build();
    let runtime: SimpleRuntime<ConstantFunction> = SimpleRuntime::new();
    let entity_value = entity_expr.eval(&Context::new(&runtime)).unwrap();
    let registry: BlueprintComponentAdderRegistry<Shape> = BlueprintComponentAdderRegistry::new();
    let steps = plan_entity(entity_value, &registry, &vec!["TestComp".to_string()]).unwrap();
    assert_eq!(steps.len(), 1);
    match &steps[0] {
        ComponentStep::Reflected { name, component } => {
            assert_eq!(name, "TestComp");
            assert_eq!(
                component,
                &DynamicComponent::Struct(vec![
                    ("x".to_string(), FieldValue::F32(f(42.0))),
                    ("y".to_string(), FieldValue::F32(f(42.0))),
                ])
            );
        },
        other => panic!("unexpected step {:?}", other),
    }
}

#[test]
fn unknown_component_fails_the_whole_record() {
    let mut record = EntityMap::new();
    record.add_component("Name", Value::String("Rex".to_string()));
    record.add_component("Mystery", Value::I32(1));
    let mut registry: BlueprintComponentAdderRegistry<Shape> = BlueprintComponentAdderRegistry::new();
    registry.register_component("Name", Shape::Newtype(Box::new(Shape::Str)));
    let r = plan_entity(record, &registry, &vec![]);
    assert_eq!(r.unwrap_err(), Error::UnknownComponent("Mystery".to_string()));
}

#[test]
fn reflection_refuses_nested_and_scalar_values() {
    let mut m = EntityMap::new();
    m.add_component("inner", point_value());
    assert_eq!(
        reflect_component(&Value::KeyMap(m)),
        Err(Error::UnexpectedType { unexpected: "map", expected: "field value" })
    );
    assert_eq!(
        reflect_component(&Value::I32(1)),
        Err(Error::UnexpectedType { unexpected: "i32", expected: "map or vec" })
    );
    assert_eq!(
        reflect_component(&Value::Vec(vec![Value::I32(1), Value::String("a".to_string())])),
        Ok(DynamicComponent::TupleStruct(vec![
            FieldValue::I32(1),
            FieldValue::String("a".to_string())
        ]))
    );
}

#[test]
fn dependencies_follow_the_primary_component() {
    let inserter: ComponentInserter<Shape, u8> = ComponentInserter::new(Shape::Str)
        .depends_on("A", 1)
        .depends_on("B", 2);
    assert_eq!(
        inserter.attached_names("Primary"),
        vec!["Primary".to_string(), "A".to_string(), "B".to_string()]
    );
    let deps: Vec<(&str, u8)> = inserter.dependency_list().iter().map(|(n, p)| (n.as_str(), *p)).collect();
    assert_eq!(deps, vec![("A", 1), ("B", 2)]);
    assert_eq!(inserter.build_fn(), &Shape::Str);
    let (old, swapped) = inserter.replace_builder(Shape::I32);
    assert_eq!(old, Shape::Str);
    assert_eq!(swapped.build_fn(), &Shape::I32);
    assert_eq!(swapped.attached_names("P"), vec!["P".to_string(), "A".to_string(), "B".to_string()]);
}

#[test]
fn registry_lookup() {
    let mut registry: BlueprintComponentAdderRegistry<u8> = BlueprintComponentAdderRegistry::new();
    registry.register_component("A", 1);
    registry.register_component("B", 2);
    registry.register_component("A", 3);
    assert_eq!(registry.get_adder("A"), Some(&3));
    assert_eq!(registry.get_adder("B"), Some(&2));
    assert_eq!(registry.get_adder("C"), None);
}

#[test]
fn end_to_end_name_and_hitpoints() {
    let doc = prints::parse::DocNode::Mapping(vec![
        (
            prints::parse::DocNode::Str("Name".to_string()),
            prints::parse::DocNode::Str("Rex".to_string()),
        ),
        (
            prints::parse::DocNode::Str("Hitpoints".to_string()),
            prints::parse::DocNode::Float(f(10.5)),
        ),
    ]);
    let bp = prints::Blueprint::load_from_document(Some("rex"), "rex.bp.json", &doc, DEFAULT_MAX_DEPTH).unwrap();
    let runtime: SimpleRuntime<ConstantFunction> = SimpleRuntime::new();
    let record = bp.eval_to_entity(&Context::new(&runtime)).unwrap();

    let mut registry: BlueprintComponentAdderRegistry<Shape> = BlueprintComponentAdderRegistry::new();
    registry.register_component("Name", Shape::Newtype(Box::new(Shape::Str)));
    registry.register_component("Hitpoints", Shape::Newtype(Box::new(Shape::F32)));

    let steps = plan_entity(record, &registry, &vec![]).unwrap();
    let mut attached: Vec<(String, Decoded)> = Vec::new();
    for step in steps {
        match step {
            ComponentStep::Registered { name, value } => {
                let shape = registry.get_adder(&name).unwrap();
                attached.push((name, value.to_component(shape).unwrap()));
            },
            ComponentStep::Reflected { .. } => panic!("no reflection expected"),
        }
    }
    assert_eq!(
        attached,
        vec![
            ("Name".to_string(), Decoded::Str("Rex".to_string())),
            ("Hitpoints".to_string(), Decoded::F32(f(10.5))),
        ]
    );
}

#[test]
fn empty_record_plans_nothing() {
    let registry: BlueprintComponentAdderRegistry<Shape> = BlueprintComponentAdderRegistry::new();
    let steps = plan_entity(EntityMap::new(), &registry, &vec![]).unwrap();
    assert!(steps.is_empty());
    let empty = prints::parse::parse_entity(&prints::parse::DocNode::Mapping(vec![])).unwrap();
    assert!(empty.components().is_empty());
}
