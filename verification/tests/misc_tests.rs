//! Tests of limit validation, lenient string conversion, API errors, and
//! client URL resolution.

use backend::coerce::convert_string_to_type;
use backend::errors::ApiError;
use backend::json::JsonValue;
use backend::url::{client_base_url, resolve_url};
use backend::validate_limit;

#[test]
fn main_test_validate_limit_valid() {
    assert_eq!(validate_limit(Some(100)), Some(100));
    assert_eq!(validate_limit(Some(300)), Some(300));
    assert_eq!(validate_limit(Some(1)), Some(1));
}

#[test]
fn main_test_validate_limit_exceeds_max() {
    assert_eq!(validate_limit(Some(301)), None);
    assert_eq!(validate_limit(Some(1000)), None);
}

#[test]
fn main_test_validate_limit_none() {
    assert_eq!(validate_limit(None), None);
}

#[test]
fn utils_test_validate_limit_valid() {
    assert_eq!(validate_limit(Some(100)), Some(100));
    assert_eq!(validate_limit(Some(300)), Some(300));
    assert_eq!(validate_limit(Some(1)), Some(1));
}

#[test]
fn utils_test_validate_limit_exceeds_max() {
    assert_eq!(validate_limit(Some(301)), None);
    assert_eq!(validate_limit(Some(1000)), None);
}

#[test]
fn utils_test_validate_limit_none() {
    assert_eq!(validate_limit(None), None);
}

#[test]
fn main_test_convert_string_to_type_string() {
    let result = convert_string_to_type("hello", "String");
    assert_eq!(result, JsonValue::Str("hello".to_string()));

    let result = convert_string_to_type("123", "ID");
    assert_eq!(result, JsonValue::Str("123".to_string()));
}

#[test]
fn main_test_convert_string_to_type_integers() {
    let result = convert_string_to_type("42", "I32");
    assert_eq!(result, JsonValue::Int(42));

    let result = convert_string_to_type("invalid", "I32");
    assert_eq!(result, JsonValue::Str("invalid".to_string()));

    let result = convert_string_to_type("123", "I64");
    assert_eq!(result, JsonValue::Int(123));
}

#[test]
fn main_test_convert_string_to_type_unsigned() {
    let result = convert_string_to_type("42", "U32");
    assert_eq!(result, JsonValue::Uint(42));

    let result = convert_string_to_type("invalid", "U32");
    assert_eq!(result, JsonValue::Uint(0));

    let result = convert_string_to_type("123", "U64");
    assert_eq!(result, JsonValue::Uint(123));
}

#[test]
fn main_test_convert_string_to_type_float() {
    let result = convert_string_to_type("3.14", "F64");
    match result {
        JsonValue::Num(t) => assert_eq!(t.parse::<f64>().unwrap(), 3.14),
        other => panic!("Expected number, got {:?}", other),
    }

    let result = convert_string_to_type("invalid", "F64");
    assert_eq!(result, JsonValue::Str("invalid".to_string()));
}

#[test]
fn main_test_convert_string_to_type_array_f64() {
    let result = convert_string_to_type("[1.0, 2.0, 3.0]", "Array(F64)");
    match result {
        JsonValue::Array(arr) => {
            assert_eq!(arr.len(), 3);
            match &arr[0] {
                JsonValue::Num(t) => assert_eq!(t.parse::<f64>().unwrap(), 1.0),
                other => panic!("Expected number, got {:?}", other),
            }
        }
        other => panic!("Expected array, got {:?}", other),
    }

    let result = convert_string_to_type("1.0, 2.0, 3.0", "Array(F64)");
    match result {
        JsonValue::Array(arr) => assert_eq!(arr.len(), 3),
        other => panic!("Expected array, got {:?}", other),
    }

    let result = convert_string_to_type("invalid", "Array(F64)");
    assert_eq!(result, JsonValue::Str("invalid".to_string()));
}

#[test]
fn main_test_convert_string_to_type_unknown() {
    let result = convert_string_to_type("value", "UnknownType");
    assert_eq!(result, JsonValue::Str("value".to_string()));
}

#[test]
fn utils_test_convert_string_to_type_string() {
    let result = convert_string_to_type("hello", "String");
    assert_eq!(result, JsonValue::Str("hello".to_string()));
}

#[test]
fn utils_test_convert_string_to_type_integers() {
    assert_eq!(convert_string_to_type("42", "I32"), JsonValue::Int(42));
    assert_eq!(
        convert_string_to_type("invalid", "I32"),
        JsonValue::Str("invalid".to_string())
    );
}

#[test]
fn utils_test_convert_string_to_type_unsigned() {
    assert_eq!(convert_string_to_type("42", "U32"), JsonValue::Uint(42));
    assert_eq!(convert_string_to_type("invalid", "U32"), JsonValue::Uint(0));
}

#[test]
fn utils_test_convert_string_to_type_float() {
    match convert_string_to_type("3.14", "F64") {
        JsonValue::Num(t) => assert_eq!(t.parse::<f64>().unwrap(), 3.14),
        other => panic!("Expected number, got {:?}", other),
    }
}

#[test]
fn utils_test_convert_string_to_type_array_f64() {
    match convert_string_to_type("[1.0, 2.0, 3.0]", "Array(F64)") {
        JsonValue::Array(arr) => assert_eq!(arr.len(), 3),
        other => panic!("Expected array, got {:?}", other),
    }
}

#[test]
fn utils_test_convert_string_to_type_unknown() {
    assert_eq!(
        convert_string_to_type("value", "UnknownType"),
        JsonValue::Str("value".to_string())
    );
}

#[test]
fn test_bracket_array_name_not_lenient() {
    // The lenient converter matches only the legacy `Array(F64)` spelling.
    assert_eq!(
        convert_string_to_type("[1.0]", "[F64]"),
        JsonValue::Str("[1.0]".to_string())
    );
}

#[test]
fn test_database_error_status_code() {
    let error = ApiError::DatabaseError("Connection timeout".to_string());
    assert_eq!(error.status_code(), 503);
}

#[test]
fn test_invalid_query_status_code() {
    let error = ApiError::InvalidQuery("Missing required parameter".to_string());
    assert_eq!(error.status_code(), 400);
}

#[test]
fn test_not_found_status_code() {
    let error = ApiError::NotFound("User not found".to_string());
    assert_eq!(error.status_code(), 404);
}

#[test]
fn test_unauthorized_status_code() {
    let error = ApiError::Unauthorized;
    assert_eq!(error.status_code(), 401);
}

#[test]
fn test_validation_error_status_code() {
    let error = ApiError::ValidationError("Invalid input".to_string());
    assert_eq!(error.status_code(), 400);
}

#[test]
fn test_internal_status_code() {
    let error = ApiError::Internal("Something went wrong".to_string());
    assert_eq!(error.status_code(), 500);
}

#[test]
fn test_api_error_messages() {
    assert_eq!(
        ApiError::DatabaseError("down".to_string()).message(),
        "Database connection failed: down"
    );
    assert_eq!(ApiError::Unauthorized.message(), "Authentication required");
}

#[test]
fn test_resolve_url_relative_endpoint() {
    let base = client_base_url(Some("http://localhost:6969"), None);

    let result = resolve_url(&base, "introspect");
    assert_eq!(result, "http://localhost:6969/introspect");

    let result = resolve_url(&base, "nodes-edges");
    assert_eq!(result, "http://localhost:6969/nodes-edges");

    let result = resolve_url(&base, "node-details?id=123");
    assert_eq!(result, "http://localhost:6969/node-details?id=123");
}

#[test]
fn test_resolve_url_relative_endpoint_with_leading_slash() {
    let base = client_base_url(Some("http://localhost:6969"), None);

    let result = resolve_url(&base, "/introspect");
    assert_eq!(result, "http://localhost:6969/introspect");

    let result = resolve_url(&base, "/nodes-edges");
    assert_eq!(result, "http://localhost:6969/nodes-edges");
}

#[test]
fn test_resolve_url_full_http_url() {
    let base = client_base_url(Some("http://localhost:6969"), None);

    let result = resolve_url(&base, "http://example.com/api/data");
    assert_eq!(result, "http://example.com/api/data");
}

#[test]
fn test_resolve_url_full_https_url() {
    let base = client_base_url(Some("http://localhost:6969"), None);

    let result = resolve_url(&base, "https://api.helixdb.com/introspect");
    assert_eq!(result, "https://api.helixdb.com/introspect");
}

#[test]
fn test_resolve_url_base_url_with_trailing_slash() {
    let base = "http://localhost:6969/";

    let result = resolve_url(base, "introspect");
    assert_eq!(result, "http://localhost:6969/introspect");

    let result = resolve_url(base, "/introspect");
    assert_eq!(result, "http://localhost:6969/introspect");
}

#[test]
fn test_resolve_url_cloud_endpoint() {
    let base = client_base_url(Some("https://api.helixdb.com"), None);

    let result = resolve_url(&base, "introspect");
    assert_eq!(result, "https://api.helixdb.com/introspect");

    let result = resolve_url(&base, "query/get-users");
    assert_eq!(result, "https://api.helixdb.com/query/get-users");
}

#[test]
fn test_client_base_url_with_port() {
    assert_eq!(client_base_url(None, Some(6969)), "http://localhost:6969");
    assert_eq!(
        client_base_url(Some("https://api.helixdb.com"), None),
        "https://api.helixdb.com"
    );
}
