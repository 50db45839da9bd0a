use lightray::engine::{from_engine, to_engine, EngineValue};
use lightray::semantics::clone_value;
use lightray::value::{value_eq, SerializableIValue};

#[test]
fn engine_round_trip_plain_tags() {
    let values = vec![
        SerializableIValue::Null,
        SerializableIValue::Bool(true),
        SerializableIValue::Int(-42),
        SerializableIValue::Double((2.5f64).to_bits()),
        SerializableIValue::Str("hello".to_string()),
        SerializableIValue::Tuple(vec![
            SerializableIValue::Int(1),
            SerializableIValue::Str("x".to_string()),
        ]),
        SerializableIValue::List(vec![SerializableIValue::Bool(false)]),
    ];
    for v in values {
        let engine = to_engine(&v).unwrap();
        let back = from_engine(&engine).unwrap();
        assert!(value_eq(&v, &back));
    }
}

#[test]
fn optional_flattens_on_conversion() {
    let none_wrapped = SerializableIValue::Optional(None);
    match to_engine(&none_wrapped).unwrap() {
        EngineValue::Null => (),
        _ => panic!("an empty optional converts to the engine's null"),
    }
    let some_wrapped = SerializableIValue::Optional(Some(Box::new(SerializableIValue::Int(5))));
    match to_engine(&some_wrapped).unwrap() {
        EngineValue::Int(5) => (),
        _ => panic!("a filled optional converts to its payload"),
    }
}

#[test]
fn primitive_engine_lists_demote_to_generic_lists() {
    let doubles = EngineValue::DoubleList(vec![(1.5f64).to_bits(), (2.5f64).to_bits()]);
    assert_eq!(
        from_engine(&doubles).unwrap(),
        SerializableIValue::List(vec![
            SerializableIValue::Double((1.5f64).to_bits()),
            SerializableIValue::Double((2.5f64).to_bits()),
        ])
    );
    let ints = EngineValue::IntList(vec![7, 8]);
    assert_eq!(
        from_engine(&ints).unwrap(),
        SerializableIValue::List(vec![
            SerializableIValue::Int(7),
            SerializableIValue::Int(8),
        ])
    );
    let bools = EngineValue::BoolList(vec![true]);
    assert_eq!(
        from_engine(&bools).unwrap(),
        SerializableIValue::List(vec![SerializableIValue::Bool(true)])
    );
}

#[test]
fn unsupported_engine_values_fail() {
    assert_eq!(
        from_engine(&EngineValue::Unsupported).unwrap_err(),
        "unsupported engine value"
    );
}

#[test]
fn double_equality_is_bit_for_bit() {
    let nan1 = SerializableIValue::Double(f64::NAN.to_bits());
    let nan2 = SerializableIValue::Double(f64::NAN.to_bits());
    assert!(value_eq(&nan1, &nan2));
    let plus_zero = SerializableIValue::Double((0.0f64).to_bits());
    let minus_zero = SerializableIValue::Double((-0.0f64).to_bits());
    assert!(!value_eq(&plus_zero, &minus_zero));
}

#[test]
fn clone_value_is_deep() {
    let v = SerializableIValue::Tuple(vec![
        SerializableIValue::Str("abc".to_string()),
        SerializableIValue::Optional(Some(Box::new(SerializableIValue::List(vec![
            SerializableIValue::Int(1),
        ])))),
    ]);
    let c = clone_value(&v);
    assert!(value_eq(&v, &c));
    assert_eq!(v, c);
}
