//! Tests of the type grammar and of string-to-JSON value coercion.

use backend::coerce::ToJson;
use backend::helix_types::{HelixType, HelixTypeError};
use backend::json::JsonValue;

fn num_value(v: &JsonValue) -> f64 {
    match v {
        JsonValue::Num(t) => t.parse::<f64>().unwrap(),
        JsonValue::Int(n) => *n as f64,
        JsonValue::Uint(n) => *n as f64,
        other => panic!("expected a number, got {:?}", other),
    }
}

#[test]
fn test_helix_type_display() {
    assert_eq!(HelixType::String.to_text(), "String");
    assert_eq!(HelixType::I32.to_text(), "I32");
    assert_eq!(HelixType::Array(Box::new(HelixType::F64)).to_text(), "[F64]");
}

#[test]
fn test_helix_type_from_str() {
    assert_eq!("String".parse::<HelixType>().unwrap(), HelixType::String);
    assert_eq!("I32".parse::<HelixType>().unwrap(), HelixType::I32);
    assert_eq!(
        "[F64]".parse::<HelixType>().unwrap(),
        HelixType::Array(Box::new(HelixType::F64))
    );
    assert_eq!(
        "Array(F64)".parse::<HelixType>().unwrap(),
        HelixType::Array(Box::new(HelixType::F64))
    );
}

#[test]
fn test_to_rust_type() {
    assert_eq!(HelixType::String.to_rust_type(), "String");
    assert_eq!(HelixType::I32.to_rust_type(), "i32");
    assert_eq!(
        HelixType::Array(Box::new(HelixType::F64)).to_rust_type(),
        "Vec<f64>"
    );
}

#[test]
fn test_to_json_string() {
    let result = "hello".to_json(&HelixType::String).unwrap();
    assert_eq!(result, JsonValue::Str("hello".to_string()));

    let result = "123".to_json(&HelixType::ID).unwrap();
    assert_eq!(result, JsonValue::Str("123".to_string()));
}

#[test]
fn test_to_json_numbers() {
    let result = "42".to_json(&HelixType::I32).unwrap();
    assert_eq!(result, JsonValue::Int(42));

    let result = "3.14".to_json(&HelixType::F64).unwrap();
    assert_eq!(num_value(&result), 3.14);
}

#[test]
fn test_to_json_array() {
    let array_type = HelixType::Array(Box::new(HelixType::F64));
    let result = "[1.0, 2.0, 3.0]".to_json(&array_type).unwrap();

    if let JsonValue::Array(arr) = result {
        assert_eq!(arr.len(), 3);
        assert_eq!(num_value(&arr[0]), 1.0);
        assert_eq!(num_value(&arr[1]), 2.0);
        assert_eq!(num_value(&arr[2]), 3.0);
    } else {
        panic!("Expected array");
    }
}

#[test]
fn test_conversion_errors() {
    let result = "invalid".to_json(&HelixType::I32);
    assert!(result.is_err());

    let err = result.unwrap_err();
    match err {
        HelixTypeError::Conversion {
            value,
            expected_type,
            ..
        } => {
            assert_eq!(value, "invalid");
            assert_eq!(expected_type, HelixType::I32);
        }
        _ => panic!("Expected conversion error"),
    }
}

#[test]
fn test_typed_conversion_string() {
    let result = "hello".to_json(&HelixType::String).unwrap();
    assert_eq!(result, JsonValue::Str("hello".to_string()));

    let result = "123".to_json(&HelixType::ID).unwrap();
    assert_eq!(result, JsonValue::Str("123".to_string()));
}

#[test]
fn test_typed_conversion_integers() {
    let result = "42".to_json(&HelixType::I32).unwrap();
    assert_eq!(result, JsonValue::Int(42));

    let result = "invalid".to_json(&HelixType::I32);
    assert!(result.is_err());

    let result = "123".to_json(&HelixType::I64).unwrap();
    assert_eq!(result, JsonValue::Int(123));
}

#[test]
fn test_typed_conversion_unsigned() {
    let result = "42".to_json(&HelixType::U32).unwrap();
    assert_eq!(result, JsonValue::Uint(42));

    let result = "invalid".to_json(&HelixType::U32);
    assert!(result.is_err());

    let result = "123".to_json(&HelixType::U64).unwrap();
    assert_eq!(result, JsonValue::Uint(123));
}

#[test]
fn test_typed_conversion_float() {
    let result = "3.14".to_json(&HelixType::F64).unwrap();
    assert_eq!(num_value(&result), 3.14);

    let result = "invalid".to_json(&HelixType::F64);
    assert!(result.is_err());
}

#[test]
fn test_typed_conversion_array_f64() {
    let array_type = HelixType::Array(Box::new(HelixType::F64));
    let result = "[1.0, 2.0, 3.0]".to_json(&array_type).unwrap();
    if let JsonValue::Array(arr) = result {
        assert_eq!(arr.len(), 3);
        assert_eq!(num_value(&arr[0]), 1.0);
        assert_eq!(num_value(&arr[1]), 2.0);
        assert_eq!(num_value(&arr[2]), 3.0);
    } else {
        panic!("Expected array");
    }

    let literal = "[1.0, 2.0, 3.0]".to_json(&array_type).unwrap();
    let comma = "1.0, 2.0, 3.0".to_json(&array_type).unwrap();
    if let JsonValue::Array(arr) = &comma {
        assert_eq!(arr.len(), 3);
        assert_eq!(num_value(&arr[0]), 1.0);
        assert_eq!(num_value(&arr[1]), 2.0);
        assert_eq!(num_value(&arr[2]), 3.0);
    } else {
        panic!("Expected array");
    }
    assert_eq!(literal, comma);

    let result = "invalid".to_json(&array_type);
    assert!(result.is_err());
}

#[test]
fn test_typed_conversion_unknown() {
    let result = "UnknownType".parse::<HelixType>();
    assert!(result.is_err());
}

#[test]
fn test_scalar_names_round_trip() {
    for name in ["String", "I32", "I64", "U32", "U64", "U128", "F64", "ID"] {
        let t = name.parse::<HelixType>().unwrap();
        assert_eq!(t.to_text(), name);
    }
}

#[test]
fn test_unknown_type_error_message() {
    match HelixType::parse_text("Nope") {
        Err(HelixTypeError::ParseType(m)) => assert_eq!(m, "Unknown type: Nope"),
        other => panic!("expected a parse error, got {:?}", other),
    }
}

#[test]
fn test_u128_converts_to_float_number() {
    let result = "123".to_json(&HelixType::U128).unwrap();
    assert_eq!(num_value(&result), 123.0);
}

#[test]
fn test_nested_array_type_unsupported() {
    let t = HelixType::Array(Box::new(HelixType::I32));
    match "1, 2".to_json(&t) {
        Err(HelixTypeError::Conversion { error, .. }) => {
            assert_eq!(error, "Array type not yet supported");
        }
        other => panic!("expected a conversion error, got {:?}", other),
    }
}

#[test]
fn test_i32_overflow_cause() {
    match "2147483648".to_json(&HelixType::I32) {
        Err(HelixTypeError::Conversion { error, .. }) => {
            assert_eq!(error, "number too large to fit in target type");
        }
        other => panic!("expected a conversion error, got {:?}", other),
    }
    assert_eq!(
        "-2147483648".to_json(&HelixType::I32).unwrap(),
        JsonValue::Int(-2147483648)
    );
}

#[test]
fn test_non_finite_floats_dropped_from_array() {
    let array_type = HelixType::Array(Box::new(HelixType::F64));
    let result = "1.0, inf, 3.0".to_json(&array_type).unwrap();
    if let JsonValue::Array(arr) = result {
        assert_eq!(arr.len(), 2);
        assert_eq!(num_value(&arr[0]), 1.0);
        assert_eq!(num_value(&arr[1]), 3.0);
    } else {
        panic!("Expected array");
    }
}
