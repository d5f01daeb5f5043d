use serde_v8::{
    from_v8, from_v8_cached, to_v8, Deserializer, Error, KeyCache, NodeData, Scope, Shape, Value,
};

fn u32_field(v: &Value) -> u32 {
    match v {
        Value::U32(x) => *x,
        other => panic!("expected a 32-bit unsigned field, got {:?}", other),
    }
}

#[test]
fn optional_field_none_round_trip() {
    let mut scope = Scope::new();
    let v = Value::Struct(vec![("a".to_string(), Value::Optional(None))]);
    let h = to_v8(&mut scope, &v).unwrap();
    let shape = Shape::Struct(vec![("a".to_string(), Shape::Optional(Box::new(Shape::U32)))]);
    match from_v8(&mut scope, h, &shape).unwrap() {
        Value::Struct(fields) => {
            assert_eq!(fields.len(), 1);
            assert_eq!(fields[0].0, "a");
            assert!(matches!(fields[0].1, Value::Optional(None)));
        },
        other => panic!("expected a struct, got {:?}", other),
    }
}

#[test]
fn optional_field_absent_decodes_to_none() {
    let mut scope = Scope::new();
    // An object with no fields at all: the lookup of "a" reads the
    // missing-value sentinel.
    let h = to_v8(&mut scope, &Value::Struct(vec![])).unwrap();
    let shape = Shape::Struct(vec![("a".to_string(), Shape::Optional(Box::new(Shape::U32)))]);
    match from_v8(&mut scope, h, &shape).unwrap() {
        Value::Struct(fields) => {
            assert_eq!(fields.len(), 1);
            assert!(matches!(fields[0].1, Value::Optional(None)));
        },
        other => panic!("expected a struct, got {:?}", other),
    }
}

#[test]
fn optional_field_present_decodes_to_some() {
    let mut scope = Scope::new();
    let v = Value::Struct(vec![(
        "a".to_string(),
        Value::Optional(Some(Box::new(Value::U32(7)))),
    )]);
    let h = to_v8(&mut scope, &v).unwrap();
    let shape = Shape::Struct(vec![("a".to_string(), Shape::Optional(Box::new(Shape::U32)))]);
    match from_v8(&mut scope, h, &shape).unwrap() {
        Value::Struct(fields) => match &fields[0].1 {
            Value::Optional(Some(inner)) => assert_eq!(u32_field(inner), 7),
            other => panic!("expected a present optional, got {:?}", other),
        },
        other => panic!("expected a struct, got {:?}", other),
    }
}

#[test]
fn missing_required_field_is_typed_error() {
    let mut scope = Scope::new();
    let h = to_v8(&mut scope, &Value::Struct(vec![])).unwrap();
    let shape = Shape::Struct(vec![("a".to_string(), Shape::U32)]);
    assert_eq!(from_v8(&mut scope, h, &shape).unwrap_err(), Error::ExpectedNumber);
}

#[test]
fn forward_compatible_struct_decode() {
    let mut scope = Scope::new();
    let v = Value::Struct(vec![
        ("a".to_string(), Value::U32(1)),
        ("b".to_string(), Value::U32(2)),
        ("extra".to_string(), Value::U32(3)),
    ]);
    let h = to_v8(&mut scope, &v).unwrap();
    let shape = Shape::Struct(vec![
        ("a".to_string(), Shape::U32),
        ("b".to_string(), Shape::U32),
    ]);
    match from_v8(&mut scope, h, &shape).unwrap() {
        Value::Struct(fields) => {
            assert_eq!(fields.len(), 2);
            assert_eq!(fields[0].0, "a");
            assert_eq!(u32_field(&fields[0].1), 1);
            assert_eq!(fields[1].0, "b");
            assert_eq!(u32_field(&fields[1].1), 2);
        },
        other => panic!("expected a struct, got {:?}", other),
    }
}

#[test]
fn cached_decode_equals_plain_decode() {
    let mut scope = Scope::new();
    let v = Value::Struct(vec![
        ("a".to_string(), Value::U32(1)),
        ("b".to_string(), Value::U32(2)),
    ]);
    let h = to_v8(&mut scope, &v).unwrap();
    let shape = Shape::Struct(vec![
        ("a".to_string(), Shape::U32),
        ("b".to_string(), Shape::U32),
    ]);
    let plain = from_v8(&mut scope, h, &shape).unwrap();
    let mut cache = KeyCache::new();
    let cached = from_v8_cached(&mut scope, h, &shape, &mut cache).unwrap();
    let again = from_v8_cached(&mut scope, h, &shape, &mut cache).unwrap();
    for r in [&plain, &cached, &again] {
        match r {
            Value::Struct(fields) => {
                assert_eq!(fields.len(), 2);
                assert_eq!(u32_field(&fields[0].1), 1);
                assert_eq!(u32_field(&fields[1].1), 2);
            },
            other => panic!("expected a struct, got {:?}", other),
        }
    }
}

#[test]
fn deserializer_reads_its_input() {
    let mut scope = Scope::new();
    let h = to_v8(&mut scope, &Value::Bool(true)).unwrap();
    let mut d = Deserializer::new(h, None);
    match d.deserialize(&mut scope, &Shape::Bool).unwrap() {
        Value::Bool(b) => assert!(b),
        other => panic!("expected a boolean, got {:?}", other),
    }
}

#[test]
fn duplicate_keys_last_insertion_wins() {
    let mut scope = Scope::new();
    let v = Value::Struct(vec![
        ("a".to_string(), Value::U32(1)),
        ("a".to_string(), Value::U32(9)),
    ]);
    let h = to_v8(&mut scope, &v).unwrap();
    let shape = Shape::Struct(vec![("a".to_string(), Shape::U32)]);
    match from_v8(&mut scope, h, &shape).unwrap() {
        Value::Struct(fields) => assert_eq!(u32_field(&fields[0].1), 9),
        other => panic!("expected a struct, got {:?}", other),
    }
}

#[test]
fn tuple_is_driven_by_requested_arity() {
    let mut scope = Scope::new();
    // A two-slot request over a one-element array: the second slot reads the
    // missing-value sentinel, which only an optional accepts.
    let h = to_v8(&mut scope, &Value::Tuple(vec![Value::U32(1)])).unwrap();
    let strict = Shape::Tuple(vec![Shape::U32, Shape::U32]);
    assert_eq!(from_v8(&mut scope, h, &strict).unwrap_err(), Error::ExpectedNumber);
    let lenient = Shape::Tuple(vec![Shape::U32, Shape::Optional(Box::new(Shape::U32))]);
    match from_v8(&mut scope, h, &lenient).unwrap() {
        Value::Tuple(vs) => {
            assert_eq!(vs.len(), 2);
            assert_eq!(u32_field(&vs[0]), 1);
            assert!(matches!(vs[1], Value::Optional(None)));
        },
        other => panic!("expected a tuple, got {:?}", other),
    }
}

#[test]
fn struct_node_layout() {
    let mut scope = Scope::new();
    let v = Value::Struct(vec![("x".to_string(), Value::U32(1))]);
    let h = to_v8(&mut scope, &v).unwrap();
    match scope.node(h) {
        NodeData::Object(ps) => {
            assert_eq!(ps.len(), 1);
            assert_eq!(ps[0].0, "x");
            match scope.node(ps[0].1) {
                NodeData::Number(n) => assert_eq!(*n, 1),
                other => panic!("expected a number node, got {:?}", other),
            }
        },
        other => panic!("expected an object node, got {:?}", other),
    }
}
