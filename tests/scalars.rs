use graphql_core::error::InputValueError;
use graphql_core::input::{parse_bool, InputValueType};
use graphql_core::scalars::ScalarType;
use graphql_core::value::{Pos, Value};

#[test]
fn char_parse() {
    assert_eq!(<char as ScalarType>::parse(Value::String("x".to_string())).unwrap(), 'x');
    assert_eq!(<char as ScalarType>::parse(Value::String("é".to_string())).unwrap(), 'é');
    match <char as ScalarType>::parse(Value::String("xy".to_string())) {
        Err(InputValueError::Custom(m)) => {
            assert_eq!(m, "There can only be one unicode character in the string.")
        }
        _ => panic!("two characters"),
    }
    match <char as ScalarType>::parse(Value::String(String::new())) {
        Err(InputValueError::Custom(m)) => assert_eq!(m, "A unicode character is required."),
        _ => panic!("no character"),
    }
    assert!(matches!(
        <char as ScalarType>::parse(Value::Number(1)),
        Err(InputValueError::ExpectedType(Value::Number(1)))
    ));
}

#[test]
fn char_valid_and_value() {
    assert!(<char as ScalarType>::is_valid(&Value::String("ab".to_string())));
    assert!(!<char as ScalarType>::is_valid(&Value::Boolean(true)));
    assert!(matches!('q'.to_value(), Value::String(s) if s == "q"));
}

#[test]
fn bool_parse() {
    assert_eq!(parse_bool(Value::Boolean(true)).unwrap(), true);
    assert!(parse_bool(Value::Null).is_err());
    assert_eq!(<bool as InputValueType>::parse(Some(Value::Boolean(false))).unwrap(), false);
    assert!(<bool as InputValueType>::parse(None).is_err());
}

#[test]
fn input_error_positions() {
    let e = InputValueError::Custom("bad".to_string()).into_server_error(Pos { line: 2, column: 3 });
    assert_eq!(e.message, "bad");
    assert_eq!(e.pos, Some(Pos { line: 2, column: 3 }));
}

#[test]
fn value_deep_clone() {
    let v = Value::Object(vec![(
        "a".to_string(),
        Value::List(vec![Value::Enum("E".to_string()), Value::Number(-4)]),
    )]);
    let c = v.deep_clone();
    assert_eq!(format!("{:?}", c), format!("{:?}", v));
}


#[test]
fn value_text_forms() {
    let v = Value::Object(vec![
        ("a".to_string(), Value::List(vec![Value::Number(1), Value::Number(-20)])),
        ("b".to_string(), Value::String("say \"hi\"\n\\".to_string())),
        ("c".to_string(), Value::Null),
        ("d".to_string(), Value::Boolean(false)),
        ("e".to_string(), Value::Enum("RED".to_string())),
        ("f".to_string(), Value::List(vec![])),
    ]);
    assert_eq!(v.to_string(), "{a: [1, -20], b: \"say \\\"hi\\\"\\n\\\\\", c: null, d: false, e: RED, f: []}");
    assert_eq!(Value::Object(vec![]).to_string(), "{}");
}
