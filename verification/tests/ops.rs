use serde_v8::{add, from_v8, promote, sum, to_v8, AddArgs, Person, Scope, Shape, Value};

#[test]
fn sequence_round_trip_and_sum() {
    let mut scope = Scope::new();
    let input: Vec<u64> = vec![1, 2, 3, 4, 5];
    let v = Value::Sequence(input.iter().map(|&x| Value::U64(x)).collect());
    let h = to_v8(&mut scope, &v).unwrap();
    let decoded = match from_v8(&mut scope, h, &Shape::Sequence(Box::new(Shape::U64))).unwrap() {
        Value::Sequence(vs) => vs,
        other => panic!("expected a sequence, got {:?}", other),
    };
    let nums: Vec<u64> = decoded
        .iter()
        .map(|e| match e {
            Value::U64(x) => *x,
            other => panic!("expected an unsigned element, got {:?}", other),
        })
        .collect();
    assert_eq!(nums, input);
    // Summing the decoded sequence equals summing the literal input.
    assert_eq!(sum(nums), 15);
    assert_eq!(sum(input), 15);
}

#[test]
fn sequence_round_trip_u32() {
    let mut scope = Scope::new();
    let v = Value::Sequence((1u32..=5).map(Value::U32).collect());
    let h = to_v8(&mut scope, &v).unwrap();
    match from_v8(&mut scope, h, &Shape::Sequence(Box::new(Shape::U32))).unwrap() {
        Value::Sequence(vs) => {
            let nums: Vec<u32> = vs
                .iter()
                .map(|e| match e {
                    Value::U32(x) => *x,
                    other => panic!("expected an unsigned element, got {:?}", other),
                })
                .collect();
            assert_eq!(nums, vec![1, 2, 3, 4, 5]);
        },
        other => panic!("expected a sequence, got {:?}", other),
    }
}

#[test]
fn add_args() {
    assert_eq!(add(AddArgs { a: 123, b: 321 }), 444);
}

#[test]
fn promote_uppercases_and_ages() {
    let p = promote(Person {
        first_name: "Bill".to_string(),
        last_name: "Gates".to_string(),
        age: 60,
    });
    assert_eq!(p.first_name, "BILL");
    assert_eq!(p.last_name, "GATES");
    assert_eq!(p.age, 61);
}

#[test]
fn promote_keeps_non_letters() {
    let p = promote(Person {
        first_name: "".to_string(),
        last_name: "o'hara-2".to_string(),
        age: 0,
    });
    assert_eq!(p.first_name, "");
    assert_eq!(p.last_name, "O'HARA-2");
    assert_eq!(p.age, 1);
}
