use serde_v8::{from_v8, to_v8, Error, Scope, Shape, ShapeKind, Value};

#[test]
fn round_trip_bool() {
    let mut scope = Scope::new();
    let h = to_v8(&mut scope, &Value::Bool(true)).unwrap();
    match from_v8(&mut scope, h, &Shape::Bool).unwrap() {
        Value::Bool(b) => assert!(b),
        _ => panic!("expected a boolean"),
    }
    let h2 = to_v8(&mut scope, &Value::Bool(false)).unwrap();
    match from_v8(&mut scope, h2, &Shape::Bool).unwrap() {
        Value::Bool(b) => assert!(!b),
        _ => panic!("expected a boolean"),
    }
}

#[test]
fn round_trip_string() {
    let mut scope = Scope::new();
    let h = to_v8(&mut scope, &Value::Str("hello world".to_string())).unwrap();
    match from_v8(&mut scope, h, &Shape::Str).unwrap() {
        Value::Str(s) => assert_eq!(s, "hello world"),
        _ => panic!("expected a string"),
    }
}

#[test]
fn round_trip_integers_in_exact_range() {
    let mut scope = Scope::new();
    let cases: Vec<i64> = vec![
        0,
        1,
        -1,
        42,
        -12345,
        9007199254740992,
        -9007199254740992,
        9007199254740991,
    ];
    for &x in &cases {
        let h = to_v8(&mut scope, &Value::I64(x)).unwrap();
        match from_v8(&mut scope, h, &Shape::I64).unwrap() {
            Value::I64(y) => assert_eq!(y, x),
            _ => panic!("expected a signed integer"),
        }
    }
    let h = to_v8(&mut scope, &Value::U64(9007199254740992)).unwrap();
    match from_v8(&mut scope, h, &Shape::U64).unwrap() {
        Value::U64(y) => assert_eq!(y, 9007199254740992),
        _ => panic!("expected an unsigned integer"),
    }
    let h = to_v8(&mut scope, &Value::U8(255)).unwrap();
    match from_v8(&mut scope, h, &Shape::U8).unwrap() {
        Value::U8(y) => assert_eq!(y, 255),
        _ => panic!("expected a byte"),
    }
    let h = to_v8(&mut scope, &Value::I32(i32::MIN)).unwrap();
    match from_v8(&mut scope, h, &Shape::I32).unwrap() {
        Value::I32(y) => assert_eq!(y, i32::MIN),
        _ => panic!("expected a 32-bit integer"),
    }
}

#[test]
fn lossy_boundary_wide_integer() {
    // 2^60 + 3 is not a representable double: the nearest double is 2^60
    // exactly (the spacing there is 256 and 3 rounds down), so the round
    // trip documents the loss rather than the original value.
    let mut scope = Scope::new();
    let x: i64 = (1i64 << 60) + 3;
    let h = to_v8(&mut scope, &Value::I64(x)).unwrap();
    match from_v8(&mut scope, h, &Shape::I64).unwrap() {
        Value::I64(y) => {
            assert_ne!(y, x);
            assert_eq!(y, 1i64 << 60);
            assert_eq!(y, ((1i64 << 60) + 3) as f64 as i64);
        },
        _ => panic!("expected a signed integer"),
    }
}

#[test]
fn ties_round_to_even() {
    let mut scope = Scope::new();
    let x: i64 = 9007199254740993; // 2^53 + 1, halfway between 2^53 and 2^53 + 2
    let h = to_v8(&mut scope, &Value::I64(x)).unwrap();
    match from_v8(&mut scope, h, &Shape::I64).unwrap() {
        Value::I64(y) => {
            assert_eq!(y, 9007199254740992);
            assert_eq!(y, x as f64 as i64);
        },
        _ => panic!("expected a signed integer"),
    }
}

#[test]
fn unsupported_map_encode() {
    let mut scope = Scope::new();
    let m = Value::Mapping(vec![(Value::Str("k".to_string()), Value::U32(1))]);
    match to_v8(&mut scope, &m) {
        Err(Error::Unsupported(ShapeKind::Mapping)) => {},
        other => panic!("expected the unsupported-map error, got {:?}", other),
    }
}

#[test]
fn unsupported_map_decode() {
    let mut scope = Scope::new();
    let h = to_v8(&mut scope, &Value::U32(1)).unwrap();
    let shape = Shape::Mapping(Box::new(Shape::Str), Box::new(Shape::U32));
    match from_v8(&mut scope, h, &shape) {
        Err(Error::Unsupported(ShapeKind::Mapping)) => {},
        other => panic!("expected the unsupported-map error, got {:?}", other),
    }
}

#[test]
fn unsupported_bytes_and_char() {
    let mut scope = Scope::new();
    match to_v8(&mut scope, &Value::Bytes(vec![1, 2])) {
        Err(Error::Unsupported(ShapeKind::Bytes)) => {},
        other => panic!("expected the unsupported-bytes error, got {:?}", other),
    }
    match to_v8(&mut scope, &Value::Char('x')) {
        Err(Error::Unsupported(ShapeKind::Char)) => {},
        other => panic!("expected the unsupported-char error, got {:?}", other),
    }
    // An unsupported element deep inside a supported shape still fails.
    let nested = Value::Sequence(vec![Value::U32(1), Value::Char('x')]);
    match to_v8(&mut scope, &nested) {
        Err(Error::Unsupported(ShapeKind::Char)) => {},
        other => panic!("expected the unsupported-char error, got {:?}", other),
    }
}

#[test]
fn scalar_mismatches_are_typed_errors() {
    let mut scope = Scope::new();
    let h = to_v8(&mut scope, &Value::U32(7)).unwrap();
    assert_eq!(from_v8(&mut scope, h, &Shape::Bool).unwrap_err(), Error::ExpectedBoolean);
    assert_eq!(from_v8(&mut scope, h, &Shape::Str).unwrap_err(), Error::ExpectedString);
    assert_eq!(from_v8(&mut scope, h, &Shape::Unit).unwrap_err(), Error::ExpectedNull);
    let hs = to_v8(&mut scope, &Value::Str("x".to_string())).unwrap();
    assert_eq!(from_v8(&mut scope, hs, &Shape::U32).unwrap_err(), Error::ExpectedNumber);
    assert_eq!(
        from_v8(&mut scope, hs, &Shape::Sequence(Box::new(Shape::U32))).unwrap_err(),
        Error::ExpectedArray
    );
    assert_eq!(
        from_v8(&mut scope, hs, &Shape::Struct(vec![])).unwrap_err(),
        Error::ExpectedObject
    );
}

#[test]
fn unit_and_none_encode_to_null() {
    let mut scope = Scope::new();
    let h = to_v8(&mut scope, &Value::Unit).unwrap();
    match scope.node(h) {
        serde_v8::NodeData::Null => {},
        other => panic!("expected a null node, got {:?}", other),
    }
    let h2 = to_v8(&mut scope, &Value::Optional(None)).unwrap();
    match scope.node(h2) {
        serde_v8::NodeData::Null => {},
        other => panic!("expected a null node, got {:?}", other),
    }
    match from_v8(&mut scope, h, &Shape::Unit).unwrap() {
        Value::Unit => {},
        other => panic!("expected unit, got {:?}", other),
    }
}

#[test]
fn self_describing_decode() {
    let mut scope = Scope::new();
    let v = Value::Sequence(vec![Value::Bool(true), Value::Str("a".to_string())]);
    let h = to_v8(&mut scope, &v).unwrap();
    match from_v8(&mut scope, h, &Shape::Any).unwrap() {
        Value::Sequence(vs) => {
            assert_eq!(vs.len(), 2);
            assert!(matches!(vs[0], Value::Bool(true)));
            match &vs[1] {
                Value::Str(s) => assert_eq!(s, "a"),
                other => panic!("expected a string, got {:?}", other),
            }
        },
        other => panic!("expected a sequence, got {:?}", other),
    }
}

#[test]
fn round_trip_narrow_widths() {
    let mut scope = Scope::new();
    let h = to_v8(&mut scope, &Value::I8(-128)).unwrap();
    assert!(matches!(from_v8(&mut scope, h, &Shape::I8).unwrap(), Value::I8(-128)));
    let h = to_v8(&mut scope, &Value::I16(-32768)).unwrap();
    assert!(matches!(from_v8(&mut scope, h, &Shape::I16).unwrap(), Value::I16(-32768)));
    let h = to_v8(&mut scope, &Value::U16(65535)).unwrap();
    assert!(matches!(from_v8(&mut scope, h, &Shape::U16).unwrap(), Value::U16(65535)));
}

#[test]
fn round_trip_empty_string() {
    let mut scope = Scope::new();
    let h = to_v8(&mut scope, &Value::Str(String::new())).unwrap();
    match from_v8(&mut scope, h, &Shape::Str).unwrap() {
        Value::Str(s) => assert_eq!(s, ""),
        _ => panic!("expected a string"),
    }
}

#[test]
fn optional_at_top_level() {
    let mut scope = Scope::new();
    let v = Value::Optional(Some(Box::new(Value::U32(9))));
    let h = to_v8(&mut scope, &v).unwrap();
    match from_v8(&mut scope, h, &Shape::Optional(Box::new(Shape::U32))).unwrap() {
        Value::Optional(Some(inner)) => assert!(matches!(*inner, Value::U32(9))),
        other => panic!("expected a present optional, got {:?}", other),
    }
}

#[test]
fn number_through_self_description() {
    let mut scope = Scope::new();
    let h = to_v8(&mut scope, &Value::U32(12)).unwrap();
    match from_v8(&mut scope, h, &Shape::Any).unwrap() {
        Value::Number(n) => assert_eq!(n, 12),
        other => panic!("expected a number, got {:?}", other),
    }
}

#[test]
fn tuple_round_trip_exact() {
    let mut scope = Scope::new();
    let v = Value::Tuple(vec![Value::Bool(true), Value::U32(2)]);
    let h = to_v8(&mut scope, &v).unwrap();
    match from_v8(&mut scope, h, &Shape::Tuple(vec![Shape::Bool, Shape::U32])).unwrap() {
        Value::Tuple(vs) => {
            assert_eq!(vs.len(), 2);
            assert!(matches!(vs[0], Value::Bool(true)));
            assert!(matches!(vs[1], Value::U32(2)));
        },
        other => panic!("expected a tuple, got {:?}", other),
    }
}

#[test]
fn saturating_decode_out_of_width() {
    let mut scope = Scope::new();
    let h = to_v8(&mut scope, &Value::I64(300)).unwrap();
    assert!(matches!(from_v8(&mut scope, h, &Shape::U8).unwrap(), Value::U8(255)));
    let h = to_v8(&mut scope, &Value::I64(-5)).unwrap();
    assert!(matches!(from_v8(&mut scope, h, &Shape::U32).unwrap(), Value::U32(0)));
}
