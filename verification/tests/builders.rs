use serde_v8::{
    from_v8, number_from_i64, number_from_u64, v8_struct_key, ArraySerializer, BasicRuntime,
    NodeData, ObjectSerializer, Scope, Serializer, Shape, Value, VariantSerializer,
};

#[test]
fn array_serializer_builds_an_array_node() {
    let mut scope = Scope::new();
    let mut b = ArraySerializer::new();
    b.serialize_element(&mut scope, &Value::U32(1)).unwrap();
    b.serialize_element(&mut scope, &Value::U32(2)).unwrap();
    let h = b.end(&mut scope);
    match from_v8(&mut scope, h, &Shape::Sequence(Box::new(Shape::U32))).unwrap() {
        Value::Sequence(vs) => {
            assert_eq!(vs.len(), 2);
            assert!(matches!(vs[0], Value::U32(1)));
            assert!(matches!(vs[1], Value::U32(2)));
        },
        other => panic!("expected a sequence, got {:?}", other),
    }
}

#[test]
fn object_serializer_builds_an_object_node() {
    let mut scope = Scope::new();
    let mut b = ObjectSerializer::new();
    b.serialize_field(&mut scope, "a", &Value::U32(5)).unwrap();
    let h = b.end(&mut scope);
    let shape = Shape::Struct(vec![("a".to_string(), Shape::U32)]);
    match from_v8(&mut scope, h, &shape).unwrap() {
        Value::Struct(fields) => {
            assert_eq!(fields[0].0, "a");
            assert!(matches!(fields[0].1, Value::U32(5)));
        },
        other => panic!("expected a struct, got {:?}", other),
    }
}

#[test]
fn variant_serializer_wraps_under_the_variant_name() {
    let mut scope = Scope::new();
    let mut b = VariantSerializer::new("Point".to_string(), ArraySerializer::new());
    b.serialize_field(&mut scope, &Value::U32(1)).unwrap();
    b.serialize_field(&mut scope, &Value::U32(2)).unwrap();
    let h = b.end(&mut scope);
    match scope.node(h) {
        NodeData::Object(ps) => {
            assert_eq!(ps.len(), 1);
            assert_eq!(ps[0].0, "Point");
            match scope.node(ps[0].1) {
                NodeData::Array(hs) => assert_eq!(hs.len(), 2),
                other => panic!("expected an array payload, got {:?}", other),
            }
        },
        other => panic!("expected a single-key object, got {:?}", other),
    }

    let mut b = VariantSerializer::new("Moved".to_string(), ObjectSerializer::new());
    b.serialize_field(&mut scope, "x", &Value::U32(1)).unwrap();
    let h2 = b.end(&mut scope);
    match scope.node(h2) {
        NodeData::Object(ps) => {
            assert_eq!(ps[0].0, "Moved");
            assert!(matches!(scope.node(ps[0].1), NodeData::Object(_)));
        },
        other => panic!("expected a single-key object, got {:?}", other),
    }
}

#[test]
fn serializer_is_the_central_dispatch() {
    let mut scope = Scope::new();
    let s = Serializer::new();
    let h = s.serialize(&mut scope, &Value::Bool(true)).unwrap();
    assert!(matches!(scope.node(h), NodeData::Boolean(true)));
}

#[test]
fn struct_key_is_an_interned_string_node() {
    let mut scope = Scope::new();
    let k = v8_struct_key(&mut scope, "first_name");
    match scope.node(k) {
        NodeData::Text(t) => assert_eq!(t, "first_name"),
        other => panic!("expected a string node, got {:?}", other),
    }
}

#[test]
fn runtime_owns_scope_and_context() {
    let mut rt = BasicRuntime::new();
    let ctx = rt.global_context();
    let scope = rt.scope();
    assert!(matches!(scope.node(ctx), NodeData::Object(_)));
    let h = serde_v8::to_v8(scope, &Value::U32(3)).unwrap();
    match from_v8(scope, h, &Shape::U32).unwrap() {
        Value::U32(x) => assert_eq!(x, 3),
        other => panic!("expected the number back, got {:?}", other),
    }
}

#[test]
fn number_conversions_match_doubles() {
    // Exact below 2^53, round-half-even above, sign symmetric.
    let cases: Vec<i64> = vec![
        0,
        1,
        -7,
        9007199254740992,
        9007199254740993,
        (1i64 << 60) + 3,
        i64::MAX,
        i64::MIN,
    ];
    for &x in &cases {
        assert_eq!(number_from_i64(x), (x as f64) as i128, "i64 case {}", x);
    }
    let ucases: Vec<u64> = vec![0, 1, 9007199254740993, u64::MAX];
    for &x in &ucases {
        assert_eq!(number_from_u64(x), (x as f64) as i128, "u64 case {}", x);
    }
}
