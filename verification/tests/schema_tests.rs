//! Tests of the schema definition parser.

use backend::schema::{
    create_empty_schema, default_node_type, default_vector_type, parse_property_line, SchemaInfo,
};

#[test]
fn test_parse_property_line_basic() {
    let result = parse_property_line("name: String");
    assert_eq!(result, Some(("name".to_string(), "String".to_string())));
}

#[test]
fn test_parse_property_line_with_comma() {
    let result = parse_property_line("age: I32,");
    assert_eq!(result, Some(("age".to_string(), "I32".to_string())));
}

#[test]
fn test_parse_property_line_array_type() {
    let result = parse_property_line("scores: [F64]");
    assert_eq!(result, Some(("scores".to_string(), "Array<F64>".to_string())));
}

#[test]
fn test_parse_property_line_invalid() {
    let result = parse_property_line("invalid line");
    assert_eq!(result, None);
}

#[test]
fn test_parse_property_line_empty() {
    let result = parse_property_line("");
    assert_eq!(result, None);
}

#[test]
fn test_default_node_type() {
    assert_eq!(default_node_type(), "N");
}

#[test]
fn test_default_vector_type() {
    assert_eq!(default_vector_type(), "V");
}

#[test]
fn test_parse_schema_content_empty() {
    let content = "";
    let result = SchemaInfo::from_content(content).unwrap();
    assert!(result.nodes.is_empty());
    assert!(result.edges.is_empty());
    assert!(result.vectors.is_empty());
}

#[test]
fn test_parse_schema_content_with_comments() {
    let content = r#"
            // This is a comment
            // Another comment
        "#;
    let result = SchemaInfo::from_content(content).unwrap();
    assert!(result.nodes.is_empty());
    assert!(result.edges.is_empty());
    assert!(result.vectors.is_empty());
}

#[test]
fn test_parse_schema_content_node() {
    let content = r#"
            N::User {
                name: String,
                age: I32
            }
        "#;
    let result = SchemaInfo::from_content(content).unwrap();
    assert_eq!(result.nodes.len(), 1);

    let node = &result.nodes[0];
    assert_eq!(node.name, "User");
    assert_eq!(node.node_type, "N");
    assert_eq!(node.properties.get("name"), Some(&"String".to_string()));
    assert_eq!(node.properties.get("age"), Some(&"I32".to_string()));
}

#[test]
fn test_parse_schema_content_vector() {
    let content = r#"
            V::Embedding {
                vector: [F64],
                dimension: I32
            }
        "#;
    let result = SchemaInfo::from_content(content).unwrap();
    assert_eq!(result.vectors.len(), 1);

    let vector = &result.vectors[0];
    assert_eq!(vector.name, "Embedding");
    assert_eq!(vector.vector_type, "V");
    assert_eq!(
        vector.properties.get("vector"),
        Some(&"Array<F64>".to_string())
    );
    assert_eq!(vector.properties.get("dimension"), Some(&"I32".to_string()));
}

#[test]
fn test_parse_schema_content_edge() {
    let content = r#"
            E::Follows {
                From: User,
                To: User,
                Properties: {
                    since: String,
                    weight: F64
                }
            }
        "#;
    let result = SchemaInfo::from_content(content).unwrap();
    assert_eq!(result.edges.len(), 1);

    let edge = &result.edges[0];
    assert_eq!(edge.name, "Follows");
    assert_eq!(edge.from_node, "User");
    assert_eq!(edge.to_node, "User");
    assert_eq!(edge.properties.get("since"), Some(&"String".to_string()));
    assert_eq!(edge.properties.get("weight"), Some(&"F64".to_string()));
}

#[test]
fn test_parse_schema_content_mixed() {
    let content = r#"
            N::User {
                name: String
            }

            E::Likes {
                From: User,
                To: Post
            }

            V::TextEmbedding {
                content: String
            }
        "#;
    let result = SchemaInfo::from_content(content).unwrap();
    assert_eq!(result.nodes.len(), 1);
    assert_eq!(result.edges.len(), 1);
    assert_eq!(result.vectors.len(), 1);
}

#[test]
fn main_test_create_empty_schema() {
    let schema = create_empty_schema();
    assert!(schema.nodes.is_empty());
    assert!(schema.edges.is_empty());
    assert!(schema.vectors.is_empty());
}

#[test]
fn utils_test_create_empty_schema() {
    let schema = create_empty_schema();
    assert!(schema.nodes.is_empty());
    assert!(schema.edges.is_empty());
    assert!(schema.vectors.is_empty());
}

#[test]
fn test_repeated_property_key_takes_last_value() {
    let content = "N::User {\n  name: String,\n  name: I32\n}\n";
    let result = SchemaInfo::from_content(content).unwrap();
    assert_eq!(result.nodes[0].properties.len(), 1);
    assert_eq!(result.nodes[0].properties.get("name"), Some(&"I32".to_string()));
}

#[test]
fn test_unterminated_block_stops_at_end_of_input() {
    let content = "N::User {\n  name: String\n";
    let result = SchemaInfo::from_content(content).unwrap();
    assert_eq!(result.nodes.len(), 1);
    assert_eq!(result.nodes[0].properties.get("name"), Some(&"String".to_string()));
}

#[test]
fn test_unrecognized_top_level_lines_skipped() {
    let content = "whatever\nN::User {\n name: String\n}\nstray }\n";
    let result = SchemaInfo::from_content(content).unwrap();
    assert_eq!(result.nodes.len(), 1);
    assert!(result.edges.is_empty());
}

#[test]
fn test_dangling_edge_refs() {
    let content = r#"
            N::User {
                name: String
            }
            E::Likes {
                From: User,
                To: Post
            }
        "#;
    let result = SchemaInfo::from_content(content).unwrap();
    assert_eq!(result.dangling_edge_refs(), vec!["Post".to_string()]);

    let ok = SchemaInfo::from_content("N::User {\n name: String\n}\n").unwrap();
    assert!(ok.dangling_edge_refs().is_empty());
}
