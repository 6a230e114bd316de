use smart_diff::ast::{AstNode, NodeType};
use smart_diff::features::{
    FeatureKind, extract_features, node_type_distribution, context_control_flow, node_type_name,
};

fn node(node_type: NodeType, attributes: &[(&str, &str)]) -> AstNode {
    AstNode {
        node_type,
        children: Vec::new(),
        line: 1,
        column: 1,
        attributes: attributes.iter().map(|(k, v)| (k.to_string(), v.to_string())).collect(),
        original_text: "test_code".to_string(),
    }
}

#[test]
fn test_content_similarity_extraction() {
    let node1 = node(NodeType::Identifier, &[("identifier", "variable1"), ("literal", "42")]);
    let node2 = node(NodeType::Identifier, &[("identifier", "variable1"), ("literal", "42")]);
    let features1 = extract_features(FeatureKind::Content, &node1);
    let features2 = extract_features(FeatureKind::Content, &node2);
    assert!(features1.contains(&"id:variable1".to_string()));
    assert!(features1.contains(&"lit:42".to_string()));
    assert_eq!(features1, features2);
}

#[test]
fn test_node_type_distribution() {
    let mut root = node(NodeType::Function, &[]);
    root.children.push(node(NodeType::IfStatement, &[]));
    root.children.push(node(NodeType::IfStatement, &[]));
    root.children.push(node(NodeType::WhileLoop, &[]));
    let distribution = node_type_distribution(&root);
    let get = |name: &str| distribution.iter().find(|(n, _)| n == name).map(|(_, c)| *c);
    assert_eq!(get("Function"), Some(1));
    assert_eq!(get("IfStatement"), Some(2));
    assert_eq!(get("WhileLoop"), Some(1));
    assert_eq!(distribution.len(), 3);
}

#[test]
fn api_and_resource_patterns() {
    let mut root = node(NodeType::Block, &[]);
    root.children.push(node(NodeType::CallExpression, &[("function_name", "getValue")]));
    root.children.push(node(NodeType::CallExpression, &[("function_name", "openConnection")]));
    root.children.push(node(NodeType::CallExpression, &[("function_name", "close")]));
    let api = extract_features(FeatureKind::ApiPatterns, &root);
    assert_eq!(api, vec!["accessor_pattern".to_string()]);
    let resources = extract_features(FeatureKind::ResourceManagement, &root);
    assert_eq!(resources, vec!["resource_acquisition".to_string(), "resource_cleanup".to_string()]);
    let calls = extract_features(FeatureKind::Calls, &root);
    assert_eq!(calls.len(), 3);
}

#[test]
fn algorithm_patterns_see_nesting() {
    let mut outer = node(NodeType::ForLoop, &[]);
    outer.children.push(node(NodeType::ForLoop, &[]));
    let mut root = node(NodeType::Function, &[]);
    root.children.push(outer);
    root.children.push(node(NodeType::CallExpression, &[("function_name", "quickSort"), ("parent_function", "quickSort")]));
    let patterns = extract_features(FeatureKind::Algorithm, &root);
    assert!(patterns.contains(&"iteration".to_string()));
    assert!(patterns.contains(&"nested_iteration".to_string()));
    assert!(patterns.contains(&"recursion".to_string()));
    assert!(!patterns.contains(&"sorting_algorithm".to_string()));
    let single = extract_features(FeatureKind::Algorithm, &node(NodeType::ForLoop, &[]));
    assert_eq!(single, vec!["iteration".to_string()]);
}

#[test]
fn error_handling_patterns() {
    let mut root = node(NodeType::Block, &[]);
    root.children.push(node(NodeType::IfStatement, &[("condition", "x == null")]));
    root.children.push(node(NodeType::TryStatement, &[]));
    root.children.push(node(NodeType::IfStatement, &[("condition", "x > 0")]));
    let patterns = extract_features(FeatureKind::ErrorHandling, &root);
    assert_eq!(patterns, vec!["error_check".to_string(), "try_catch".to_string()]);
}

#[test]
fn context_flow_keeps_repeats() {
    let mut root = node(NodeType::Function, &[]);
    root.children.push(node(NodeType::IfStatement, &[]));
    root.children.push(node(NodeType::SwitchStatement, &[]));
    root.children.push(node(NodeType::IfStatement, &[]));
    assert_eq!(context_control_flow(&root), vec!["IfStatement".to_string(), "IfStatement".to_string()]);
    assert_eq!(node_type_name(NodeType::TypeReference), "TypeReference");
}
