//! Tests of the query definition parser and the REST naming convention.

use backend::query::{
    convert_camel_to_kebab, determine_endpoint_info, generate_endpoint_path,
    map_helix_type_to_rust, QueryDefinition, QueryParameter,
};
use backend::webutil::determine_http_method;

#[test]
fn test_map_helix_type_to_rust() {
    assert_eq!(map_helix_type_to_rust("String"), "String");
    assert_eq!(map_helix_type_to_rust("I32"), "i32");
    assert_eq!(map_helix_type_to_rust("I64"), "i64");
    assert_eq!(map_helix_type_to_rust("F64"), "f64");
    assert_eq!(map_helix_type_to_rust("ID"), "String");
    assert_eq!(map_helix_type_to_rust("[F64]"), "Vec<f64>");
    assert_eq!(map_helix_type_to_rust("CustomType"), "CustomType");
}

#[test]
fn test_convert_camel_to_kebab() {
    assert_eq!(convert_camel_to_kebab("getUserById"), "get-user-by-id");
    assert_eq!(convert_camel_to_kebab("createUser"), "create-user");
    assert_eq!(convert_camel_to_kebab("user"), "user");
    assert_eq!(
        convert_camel_to_kebab("getAllUsersFromDB"),
        "get-all-users-from-d-b"
    );
    assert_eq!(convert_camel_to_kebab(""), "");
}

#[test]
fn test_determine_endpoint_info() {
    let params = vec![QueryParameter::new(
        "user_id".to_string(),
        "String".to_string(),
    )];

    let (method, path) = determine_endpoint_info("createUser", &params);
    assert_eq!(method, "POST");
    assert_eq!(path, "/api/query/create-user/{user_id}");

    let (method, _path) = determine_endpoint_info("updateUser", &params);
    assert_eq!(method, "PUT");

    let (method, _path) = determine_endpoint_info("deleteUser", &params);
    assert_eq!(method, "DELETE");

    let (method, _path) = determine_endpoint_info("getUser", &params);
    assert_eq!(method, "GET");
}

#[test]
fn test_generate_endpoint_path_with_id_params() {
    let params = vec![
        QueryParameter::new("user_id".to_string(), "String".to_string()),
        QueryParameter::new("post_id".to_string(), "String".to_string()),
    ];

    let path = generate_endpoint_path("getUserPosts", &params);
    assert_eq!(path, "/api/query/get-user-posts/{user_id}/{post_id}");
}

#[test]
fn test_generate_endpoint_path_without_id_params() {
    let params = vec![
        QueryParameter::new("name".to_string(), "String".to_string()),
        QueryParameter::new("age".to_string(), "i32".to_string()),
    ];

    let path = generate_endpoint_path("getAllUsers", &params);
    assert_eq!(path, "/api/query/get-all-users");
}

#[test]
fn test_generate_endpoint_path_with_id_param() {
    let params = vec![QueryParameter::new("id".to_string(), "String".to_string())];

    let path = generate_endpoint_path("getUser", &params);
    assert_eq!(path, "/api/query/get-user/{id}");
}

#[test]
fn test_parse_parameters_empty() {
    let result = QueryParameter::parse_multiple("");
    assert!(result.is_empty());

    let result = QueryParameter::parse_multiple("   ");
    assert!(result.is_empty());
}

#[test]
fn test_parse_parameters_single() {
    let result = QueryParameter::parse_multiple("name: String");
    assert_eq!(result.len(), 1);
    assert_eq!(result[0].name, "name");
    assert_eq!(result[0].param_type, "String");
}

#[test]
fn test_parse_parameters_multiple() {
    let result = QueryParameter::parse_multiple("user_id: ID, name: String, age: I32");
    assert_eq!(result.len(), 3);

    assert_eq!(result[0].name, "user_id");
    assert_eq!(result[0].param_type, "String");

    assert_eq!(result[1].name, "name");
    assert_eq!(result[1].param_type, "String");

    assert_eq!(result[2].name, "age");
    assert_eq!(result[2].param_type, "i32");
}

#[test]
fn test_parse_query_line_valid() {
    let line = "QUERY getUserById (user_id: ID) => User";
    let result = QueryDefinition::from_line(line);

    assert!(result.is_some());
    let query = result.unwrap();
    assert_eq!(query.name, "getUserById");
    assert_eq!(query.parameters.len(), 1);
    assert_eq!(query.parameters[0].name, "user_id");
    assert_eq!(query.parameters[0].param_type, "String");
    assert_eq!(query.http_method, "GET");
    assert_eq!(query.endpoint_path, "/api/query/get-user-by-id/{user_id}");
}

#[test]
fn test_parse_query_line_no_params() {
    let line = "QUERY getAllUsers () => [User]";
    let result = QueryDefinition::from_line(line);

    assert!(result.is_some());
    let query = result.unwrap();
    assert_eq!(query.name, "getAllUsers");
    assert!(query.parameters.is_empty());
    assert_eq!(query.http_method, "GET");
    assert_eq!(query.endpoint_path, "/api/query/get-all-users");
}

#[test]
fn test_parse_query_line_invalid() {
    let line = "INVALID LINE";
    let result = QueryDefinition::from_line(line);
    assert!(result.is_none());

    let line = "QUERY incomplete";
    let result = QueryDefinition::from_line(line);
    assert!(result.is_none());
}

#[test]
fn test_parse_queries_file_content() {
    let content = r#"
            // Some comment
            QUERY getUserById (user_id: ID) => User
            QUERY createUser (name: String, age: I32) => User
            // Another comment
            QUERY deleteUser (user_id: ID) => Boolean
        "#;

    let mut queries = Vec::new();
    for line in content.lines() {
        let line = line.trim();
        if line.starts_with("QUERY ") {
            if let Some(query_def) = QueryDefinition::from_line(line) {
                queries.push(query_def);
            }
        }
    }

    assert_eq!(queries.len(), 3);
    assert_eq!(queries[0].name, "getUserById");
    assert_eq!(queries[0].http_method, "GET");
    assert_eq!(queries[1].name, "createUser");
    assert_eq!(queries[1].http_method, "POST");
    assert_eq!(queries[2].name, "deleteUser");
    assert_eq!(queries[2].http_method, "DELETE");
}

#[test]
fn main_test_determine_http_method() {
    assert_eq!(determine_http_method("createUser"), "POST");
    assert_eq!(determine_http_method("addUser"), "POST");
    assert_eq!(determine_http_method("assignRole"), "POST");

    assert_eq!(determine_http_method("updateUser"), "PUT");

    assert_eq!(determine_http_method("deleteUser"), "DELETE");
    assert_eq!(determine_http_method("removeUser"), "DELETE");

    assert_eq!(determine_http_method("getUser"), "GET");
    assert_eq!(determine_http_method("findUser"), "GET");
    assert_eq!(determine_http_method("listUsers"), "GET");
}

#[test]
fn utils_test_determine_http_method() {
    assert_eq!(determine_http_method("createUser"), "POST");
    assert_eq!(determine_http_method("addUser"), "POST");
    assert_eq!(determine_http_method("assignRole"), "POST");

    assert_eq!(determine_http_method("updateUser"), "PUT");

    assert_eq!(determine_http_method("deleteUser"), "DELETE");
    assert_eq!(determine_http_method("removeUser"), "DELETE");

    assert_eq!(determine_http_method("getUser"), "GET");
    assert_eq!(determine_http_method("findUser"), "GET");
    assert_eq!(determine_http_method("listUsers"), "GET");
}

#[test]
fn test_create_user_line_exposure() {
    let query = QueryDefinition::from_line("QUERY createUser (name: String, age: I32) => User")
        .unwrap();
    assert_eq!(query.http_method, "POST");
    assert_eq!(query.endpoint_path, "/api/query/create-user");
}

#[test]
fn test_method_prefix_is_case_insensitive() {
    let query = QueryDefinition::from_line("QUERY CreateUser (name: String) => User").unwrap();
    assert_eq!(query.http_method, "POST");
}

#[test]
fn test_all_api_endpoints_from_content() {
    let endpoints = backend::query::get_all_api_endpoints(
        "QUERY getUserById (user_id: ID) => User\nQUERY createUser (name: String) => User\n",
    );
    assert_eq!(endpoints.len(), 2);
    assert_eq!(endpoints[0].path, "/api/query/get-user-by-id/{user_id}");
    assert_eq!(endpoints[0].method, "GET");
    assert_eq!(endpoints[0].query_name, "getUserById");
    assert_eq!(endpoints[1].path, "/api/query/create-user");
    assert_eq!(endpoints[1].method, "POST");
}
