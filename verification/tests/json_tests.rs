//! Tests of the JSON canonicalizer, the parameter merge engine, and URL
//! building.

use backend::json::{sort_json_object, JsonValue};
use backend::params::QueryParams;
use backend::smap::StrMap;
use backend::webutil::{create_default_error_data, create_node_connections_error_data};

fn obj(pairs: Vec<(&str, JsonValue)>) -> JsonValue {
    JsonValue::Object(
        pairs
            .into_iter()
            .map(|(k, v)| (k.to_string(), v))
            .collect(),
    )
}

fn keys_of(v: &JsonValue) -> Vec<String> {
    match v {
        JsonValue::Object(fields) => fields.iter().map(|(k, _)| k.clone()).collect(),
        other => panic!("expected an object, got {:?}", other),
    }
}

fn get<'a>(v: &'a JsonValue, key: &str) -> Option<&'a JsonValue> {
    match v {
        JsonValue::Object(fields) => fields.iter().find(|(k, _)| k == key).map(|(_, val)| val),
        other => panic!("expected an object, got {:?}", other),
    }
}

fn smap(pairs: Vec<(&str, &str)>) -> StrMap {
    let mut m = StrMap::new();
    for (k, v) in pairs {
        m.insert(k.to_string(), v.to_string());
    }
    m
}

#[test]
fn main_test_sort_json_object_basic() {
    let input = obj(vec![
        ("name", JsonValue::Str("John".to_string())),
        ("id", JsonValue::Str("123".to_string())),
        ("2", JsonValue::Str("second".to_string())),
        ("1", JsonValue::Str("first".to_string())),
    ]);

    let result = sort_json_object(input);
    assert_eq!(keys_of(&result), vec!["1", "2", "id", "name"]);
}

#[test]
fn main_test_sort_json_object_nested() {
    let input = obj(vec![
        (
            "data",
            obj(vec![
                ("3", JsonValue::Str("third".to_string())),
                ("1", JsonValue::Str("first".to_string())),
                ("name", JsonValue::Str("test".to_string())),
            ]),
        ),
        ("id", JsonValue::Str("main".to_string())),
    ]);

    let result = sort_json_object(input);
    let nested = get(&result, "data").expect("nested object");
    assert_eq!(keys_of(nested), vec!["1", "3", "name"]);
}

#[test]
fn main_test_sort_json_object_array() {
    let input = JsonValue::Array(vec![
        obj(vec![
            ("name", JsonValue::Str("B".to_string())),
            ("1", JsonValue::Str("first".to_string())),
        ]),
        obj(vec![
            ("name", JsonValue::Str("A".to_string())),
            ("2", JsonValue::Str("second".to_string())),
        ]),
    ]);

    let result = sort_json_object(input);
    let JsonValue::Array(arr) = result else {
        panic!("Expected array");
    };

    assert_eq!(arr.len(), 2);
    for item in arr {
        let keys = keys_of(&item);
        if keys.iter().any(|k| k == "1") {
            assert_eq!(keys, vec!["1", "name"]);
        } else {
            assert_eq!(keys, vec!["2", "name"]);
        }
    }
}

#[test]
fn utils_test_sort_json_object_basic() {
    let input = obj(vec![
        ("name", JsonValue::Str("John".to_string())),
        ("id", JsonValue::Str("123".to_string())),
        ("2", JsonValue::Str("second".to_string())),
        ("1", JsonValue::Str("first".to_string())),
    ]);

    let result = sort_json_object(input);
    assert_eq!(keys_of(&result), vec!["1", "2", "id", "name"]);
}

#[test]
fn utils_test_sort_json_object_nested() {
    let input = obj(vec![
        (
            "data",
            obj(vec![
                ("3", JsonValue::Str("third".to_string())),
                ("1", JsonValue::Str("first".to_string())),
                ("name", JsonValue::Str("test".to_string())),
            ]),
        ),
        ("id", JsonValue::Str("main".to_string())),
    ]);

    let result = sort_json_object(input);
    let nested = get(&result, "data").expect("nested object");
    assert_eq!(keys_of(nested), vec!["1", "3", "name"]);
}

#[test]
fn utils_test_sort_json_object_array() {
    let input = JsonValue::Array(vec![
        obj(vec![
            ("name", JsonValue::Str("B".to_string())),
            ("1", JsonValue::Str("first".to_string())),
        ]),
        obj(vec![
            ("name", JsonValue::Str("A".to_string())),
            ("2", JsonValue::Str("second".to_string())),
        ]),
    ]);

    let result = sort_json_object(input);
    let JsonValue::Array(arr) = result else {
        panic!("Expected array");
    };
    assert_eq!(arr.len(), 2);
}

#[test]
fn test_numeric_keys_sorted_by_value_stably() {
    let input = obj(vec![
        ("10", JsonValue::Int(1)),
        ("07", JsonValue::Int(2)),
        ("7", JsonValue::Int(3)),
        ("2", JsonValue::Int(4)),
    ]);
    let result = sort_json_object(input);
    assert_eq!(keys_of(&result), vec!["2", "07", "7", "10"]);
}

#[test]
fn test_merge_parameters() {
    let param_types = smap(vec![("limit", "U32"), ("active", "String")]);
    let query_params = smap(vec![("limit", "50"), ("filter", "test")]);

    let body = obj(vec![
        ("user_id", JsonValue::Str("123".to_string())),
        ("active", JsonValue::Bool(true)),
    ]);

    let result = QueryParams::merge_parameters(&query_params, Some(&body), &param_types);

    assert_eq!(get(&result, "user_id"), Some(&JsonValue::Str("123".to_string())));
    assert_eq!(get(&result, "active"), Some(&JsonValue::Bool(true)));
    assert_eq!(get(&result, "limit"), Some(&JsonValue::Uint(50)));
    assert_eq!(get(&result, "filter"), Some(&JsonValue::Str("test".to_string())));
}

#[test]
fn test_merge_parameters_body_priority() {
    let param_types = StrMap::new();
    let query_params = smap(vec![("name", "from_query")]);

    let body = obj(vec![("name", JsonValue::Str("from_body".to_string()))]);

    let result = QueryParams::merge_parameters(&query_params, Some(&body), &param_types);

    assert_eq!(get(&result, "name"), Some(&JsonValue::Str("from_body".to_string())));
}

#[test]
fn test_merge_parameters_non_object_body() {
    let param_types = StrMap::new();
    let query_params = StrMap::new();

    let body = JsonValue::Str("simple_string".to_string());
    let result = QueryParams::merge_parameters(&query_params, Some(&body), &param_types);

    assert_eq!(
        get(&result, "body"),
        Some(&JsonValue::Str("simple_string".to_string()))
    );
}

#[test]
fn test_merge_parameters_uncatalogued_key_stays_string() {
    let result = QueryParams::merge_parameters(
        &smap(vec![("limit", "oops")]),
        None,
        &smap(vec![("limit", "U32")]),
    );
    assert_eq!(get(&result, "limit"), Some(&JsonValue::Str("oops".to_string())));
}

#[test]
fn test_endpoint_building() {
    let params = QueryParams {
        limit: Some(50),
        q: Some("search".to_string()),
        params: smap(vec![("user_id", "123"), ("status", "active")]),
    };

    let endpoint = params.to_url("test-endpoint");
    assert!(endpoint.contains("test-endpoint?"));
    assert!(endpoint.contains("limit=50"));
    assert!(endpoint.contains("q=search"));
    assert!(endpoint.contains("user_id=123"));
    assert!(endpoint.contains("status=active"));
}

#[test]
fn test_extra_params() {
    let params = QueryParams {
        limit: None,
        q: None,
        params: smap(vec![("custom_param", "custom_value"), ("numeric_param", "42")]),
    };

    let endpoint = params.to_url("test");
    assert!(endpoint.contains("custom_param=custom_value"));
    assert!(endpoint.contains("numeric_param=42"));
}

#[test]
fn test_to_url_without_params_is_base() {
    let params = QueryParams::new();
    assert_eq!(params.to_url("nodes-edges"), "nodes-edges");
}

#[test]
fn main_test_create_default_error_data() {
    let error_data = create_default_error_data();
    let JsonValue::Object(ref map) = error_data else {
        panic!("Expected object");
    };
    let keys: Vec<&str> = map.iter().map(|(k, _)| k.as_str()).collect();
    assert!(keys.contains(&"nodes"));
    assert!(keys.contains(&"edges"));
    assert!(keys.contains(&"vectors"));
    assert_eq!(get(&error_data, "nodes"), Some(&JsonValue::Array(vec![])));
}

#[test]
fn utils_test_create_default_error_data() {
    let error_data = create_default_error_data();
    let keys = keys_of(&error_data);
    assert!(keys.iter().any(|k| k == "nodes"));
    assert!(keys.iter().any(|k| k == "edges"));
    assert!(keys.iter().any(|k| k == "vectors"));
}

#[test]
fn main_test_create_node_connections_error_data() {
    let error_data = create_node_connections_error_data();
    let keys = keys_of(&error_data);
    assert!(keys.iter().any(|k| k == "connected_nodes"));
    assert!(keys.iter().any(|k| k == "incoming_edges"));
    assert!(keys.iter().any(|k| k == "outgoing_edges"));
}

#[test]
fn utils_test_create_node_connections_error_data() {
    let error_data = create_node_connections_error_data();
    let keys = keys_of(&error_data);
    assert!(keys.iter().any(|k| k == "connected_nodes"));
    assert!(keys.iter().any(|k| k == "incoming_edges"));
    assert!(keys.iter().any(|k| k == "outgoing_edges"));
}
