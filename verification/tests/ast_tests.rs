use smart_diff::ast::{
    AstNode, NodeType, count_nodes, calculate_tree_depth, extract_control_flow_patterns,
    extract_namespace, join_path,
};

fn create_test_ast_node(node_type: NodeType) -> AstNode {
    AstNode {
        node_type,
        children: Vec::new(),
        line: 1,
        column: 1,
        attributes: Vec::new(),
        original_text: "test_code".to_string(),
    }
}

#[test]
fn test_control_flow_pattern_extraction() {
    let if_node = create_test_ast_node(NodeType::IfStatement);
    let while_node = create_test_ast_node(NodeType::WhileLoop);
    let mut root = create_test_ast_node(NodeType::Function);
    root.children.push(if_node);
    root.children.push(while_node);
    let patterns = extract_control_flow_patterns(&root);
    assert!(patterns.contains(&"if".to_string()));
    assert!(patterns.contains(&"while".to_string()));
}

#[test]
fn test_tree_depth_calculation() {
    let mut root = create_test_ast_node(NodeType::Function);
    let mut child1 = create_test_ast_node(NodeType::IfStatement);
    let child2 = create_test_ast_node(NodeType::WhileLoop);
    child1.children.push(child2);
    root.children.push(child1);
    assert_eq!(calculate_tree_depth(&root), 3);
}

#[test]
fn test_node_count() {
    let mut root = create_test_ast_node(NodeType::Function);
    root.children.push(create_test_ast_node(NodeType::IfStatement));
    root.children.push(create_test_ast_node(NodeType::WhileLoop));
    assert_eq!(count_nodes(&root), 3);
}

#[test]
fn nested_flow_patterns_carry_their_path() {
    let mut outer = create_test_ast_node(NodeType::IfStatement);
    outer.children.push(create_test_ast_node(NodeType::ForLoop));
    let mut root = create_test_ast_node(NodeType::Function);
    root.children.push(outer);
    let patterns = extract_control_flow_patterns(&root);
    assert_eq!(patterns, vec!["if".to_string(), "if->for".to_string()]);
}

#[test]
fn depth_never_exceeds_count() {
    let mut root = create_test_ast_node(NodeType::Block);
    for _ in 0..4 {
        root.children.push(create_test_ast_node(NodeType::Literal));
    }
    assert!(calculate_tree_depth(&root) <= count_nodes(&root));
    assert_eq!(calculate_tree_depth(&root), 2);
    assert_eq!(count_nodes(&root), 5);
}

#[test]
fn namespaces_and_paths() {
    assert_eq!(extract_namespace("com.example.Calculator"), "com.example");
    assert_eq!(extract_namespace("Calculator"), "global");
    assert_eq!(join_path(&vec!["a".to_string(), "b".to_string(), "c".to_string()]), "a->b->c");
    assert_eq!(join_path(&Vec::new()), "");
}
