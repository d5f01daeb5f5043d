use serde_v8::{from_v8, to_v8, NodeData, Payload, Scope, Shape, Value, VariantForm};

/// Renders an encoded node as a serde_json value, to hold the tagging
/// convention against the JSON codec it is meant to interoperate with.
fn node_to_json(scope: &Scope, h: usize) -> serde_json::Value {
    match scope.node(h) {
        NodeData::Null => serde_json::Value::Null,
        NodeData::Boolean(b) => serde_json::Value::Bool(*b),
        NodeData::Number(n) => serde_json::Value::from(*n as i64),
        NodeData::Text(t) => serde_json::Value::String(t.clone()),
        NodeData::Array(hs) => {
            serde_json::Value::Array(hs.iter().map(|c| node_to_json(scope, *c)).collect())
        },
        NodeData::Object(ps) => {
            let mut m = serde_json::Map::new();
            for (k, c) in ps.iter() {
                m.insert(k.clone(), node_to_json(scope, *c));
            }
            serde_json::Value::Object(m)
        },
    }
}

fn json(s: &str) -> serde_json::Value {
    serde_json::from_str(s).unwrap()
}

fn status_variants() -> Vec<(String, VariantForm)> {
    vec![
        ("Stopped".to_string(), VariantForm::Unit),
        ("Error".to_string(), VariantForm::Newtype(Box::new(Shape::Str))),
        ("Point".to_string(), VariantForm::Tuple(vec![Shape::U32, Shape::U32])),
        (
            "Moved".to_string(),
            VariantForm::Struct(vec![
                ("x".to_string(), Shape::U32),
                ("y".to_string(), Shape::U32),
            ]),
        ),
    ]
}

#[test]
fn unit_variant_encodes_to_bare_string() {
    let mut scope = Scope::new();
    let h = to_v8(&mut scope, &Value::Enum("Stopped".to_string(), Payload::Unit)).unwrap();
    assert_eq!(node_to_json(&scope, h), json("\"Stopped\""));
    let shape = Shape::Enum(status_variants());
    match from_v8(&mut scope, h, &shape).unwrap() {
        Value::Enum(name, Payload::Unit) => assert_eq!(name, "Stopped"),
        other => panic!("expected the unit variant back, got {:?}", other),
    }
}

#[test]
fn newtype_variant_encodes_to_single_key_object() {
    let mut scope = Scope::new();
    let v = Value::Enum(
        "Error".to_string(),
        Payload::Newtype(Box::new(Value::Str("x".to_string()))),
    );
    let h = to_v8(&mut scope, &v).unwrap();
    assert_eq!(node_to_json(&scope, h), json("{\"Error\": \"x\"}"));
    let shape = Shape::Enum(status_variants());
    match from_v8(&mut scope, h, &shape).unwrap() {
        Value::Enum(name, Payload::Newtype(inner)) => {
            assert_eq!(name, "Error");
            match *inner {
                Value::Str(s) => assert_eq!(s, "x"),
                other => panic!("expected the payload string, got {:?}", other),
            }
        },
        other => panic!("expected the newtype variant back, got {:?}", other),
    }
}

#[test]
fn tuple_variant_encodes_to_object_with_array() {
    let mut scope = Scope::new();
    let v = Value::Enum(
        "Point".to_string(),
        Payload::Tuple(vec![Value::U32(1), Value::U32(2)]),
    );
    let h = to_v8(&mut scope, &v).unwrap();
    assert_eq!(node_to_json(&scope, h), json("{\"Point\": [1, 2]}"));
    let shape = Shape::Enum(status_variants());
    match from_v8(&mut scope, h, &shape).unwrap() {
        Value::Enum(name, Payload::Tuple(vs)) => {
            assert_eq!(name, "Point");
            assert!(matches!(vs[0], Value::U32(1)));
            assert!(matches!(vs[1], Value::U32(2)));
        },
        other => panic!("expected the tuple variant back, got {:?}", other),
    }
}

#[test]
fn struct_variant_encodes_to_object_with_object() {
    let mut scope = Scope::new();
    let v = Value::Enum(
        "Moved".to_string(),
        Payload::Struct(vec![
            ("x".to_string(), Value::U32(1)),
            ("y".to_string(), Value::U32(2)),
        ]),
    );
    let h = to_v8(&mut scope, &v).unwrap();
    assert_eq!(node_to_json(&scope, h), json("{\"Moved\": {\"x\": 1, \"y\": 2}}"));
    let shape = Shape::Enum(status_variants());
    match from_v8(&mut scope, h, &shape).unwrap() {
        Value::Enum(name, Payload::Struct(fields)) => {
            assert_eq!(name, "Moved");
            assert_eq!(fields.len(), 2);
            assert_eq!(fields[0].0, "x");
            assert!(matches!(fields[0].1, Value::U32(1)));
            assert_eq!(fields[1].0, "y");
            assert!(matches!(fields[1].1, Value::U32(2)));
        },
        other => panic!("expected the struct variant back, got {:?}", other),
    }
}

#[test]
fn unknown_variant_is_typed_error() {
    let mut scope = Scope::new();
    let h = to_v8(&mut scope, &Value::Enum("Gone".to_string(), Payload::Unit)).unwrap();
    let shape = Shape::Enum(status_variants());
    assert!(matches!(
        from_v8(&mut scope, h, &shape),
        Err(serde_v8::Error::TypeMismatch(_, _))
    ));
}

#[test]
fn enum_convention_matches_json_codec() {
    // The same data rendered by serde_json directly, for each payload kind
    // of the tagging convention.
    let mut scope = Scope::new();
    let pairs: Vec<(Value, &str)> = vec![
        (Value::Enum("Stopped".to_string(), Payload::Unit), "\"Stopped\""),
        (
            Value::Enum(
                "Error".to_string(),
                Payload::Newtype(Box::new(Value::Str("x".to_string()))),
            ),
            "{\"Error\":\"x\"}",
        ),
        (
            Value::Enum(
                "Point".to_string(),
                Payload::Tuple(vec![Value::U32(1), Value::U32(2)]),
            ),
            "{\"Point\":[1,2]}",
        ),
    ];
    for (v, expected) in pairs {
        let h = to_v8(&mut scope, &v).unwrap();
        let rendered = serde_json::to_string(&node_to_json(&scope, h)).unwrap();
        assert_eq!(rendered, expected);
    }
}
