//! Tests of introspection-derived endpoints and data-source configuration.

use backend::config::{resolve_helix_url, DataSource};
use backend::json::JsonValue;
use backend::query::QueryDefinition;
use backend::webutil::{map_query_to_endpoint, IntrospectQuery};

#[test]
fn test_map_query_to_endpoint_object_params() {
    let query = IntrospectQuery {
        name: "createUser".to_string(),
        parameters: JsonValue::Object(vec![
            ("name".to_string(), JsonValue::Str("String".to_string())),
            ("age".to_string(), JsonValue::Str("I32".to_string())),
            ("flags".to_string(), JsonValue::Int(3)),
        ]),
    };
    let endpoint = map_query_to_endpoint(query);
    assert_eq!(endpoint.path, "/api/query/createUser");
    assert_eq!(endpoint.method, "POST");
    assert_eq!(endpoint.query_name, "createUser");
    assert_eq!(endpoint.parameters.len(), 3);
    assert_eq!(endpoint.parameters[0].name, "name");
    assert_eq!(endpoint.parameters[0].param_type, "String");
    assert_eq!(endpoint.parameters[1].param_type, "i32");
    // A non-string parameter type falls back to String.
    assert_eq!(endpoint.parameters[2].param_type, "String");
}

#[test]
fn test_map_query_to_endpoint_non_object_params() {
    let query = IntrospectQuery {
        name: "getUsers".to_string(),
        parameters: JsonValue::Null,
    };
    let endpoint = map_query_to_endpoint(query);
    assert_eq!(endpoint.method, "GET");
    assert!(endpoint.parameters.is_empty());
}

#[test]
fn test_queries_from_content() {
    let defs = QueryDefinition::from_content(
        "// header\nQUERY getUserById (user_id: ID) => User\nnot a query\n",
    );
    assert_eq!(defs.len(), 1);
    assert_eq!(defs[0].name, "getUserById");
    assert_eq!(defs[0].endpoint_path, "/api/query/get-user-by-id/{user_id}");
}

#[test]
fn test_resolve_helix_url_modes() {
    let local = resolve_helix_url(&DataSource::LocalIntrospect, "localhost", 6969, &None);
    assert_eq!(local, Some("http://localhost:6969".to_string()));

    let cloud_missing = resolve_helix_url(&DataSource::Cloud, "localhost", 6969, &None);
    assert_eq!(cloud_missing, None);

    let cloud = resolve_helix_url(
        &DataSource::Cloud,
        "localhost",
        6969,
        &Some("https://api.helixdb.com".to_string()),
    );
    assert_eq!(cloud, Some("https://api.helixdb.com".to_string()));
}
