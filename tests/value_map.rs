use prints::value::{EntityMap, Value};

#[test]
fn add_component_replaces_in_place() {
    let mut m: EntityMap<i32> = EntityMap::new();
    m.add_component("a", 1);
    m.add_component("b", 2);
    m.add_component("a", 3);
    let entries: Vec<(&str, i32)> = m.components().iter().map(|(k, v)| (k.as_str(), *v)).collect();
    assert_eq!(entries, vec![("a", 3), ("b", 2)]);
    assert_eq!(m.into_components().len(), 2);
}

#[test]
fn map_and_try_map_keep_names() {
    let mut m: EntityMap<i32> = EntityMap::new();
    m.add_component("a", 1);
    m.add_component("b", 2);
    let doubled = m.map(|x: i32| x * 2);
    let entries: Vec<(String, i32)> = doubled.into_components();
    assert_eq!(entries, vec![("a".to_string(), 2), ("b".to_string(), 4)]);

    let mut m: EntityMap<i32> = EntityMap::new();
    m.add_component("a", 1);
    m.add_component("b", -2);
    m.add_component("c", -3);
    let r = m.try_map(|x: i32| if x >= 0 { Ok(x) } else { Err(x) });
    assert_eq!(r.unwrap_err(), -2);
}

#[test]
fn typename_and_deep_copy() {
    let v = Value::Vec(vec![Value::I32(1), Value::String("s".to_string())]);
    assert_eq!(v.typename(), "vec");
    assert_eq!(Value::F32(0).typename(), "f32");
    assert_eq!(Value::KeyMap(EntityMap::new()).typename(), "map");
    assert_eq!(Value::Entity(EntityMap::new()).typename(), "entity");
    assert_eq!(v.deep_copy(), v);
}
