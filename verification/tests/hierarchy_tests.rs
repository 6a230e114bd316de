use smart_diff::hierarchy::{
    ClassNode, MethodInfo, Visibility, MethodMigrationType, HierarchyChangeType,
    build_hierarchy, is_ancestor, are_siblings, methods_similar, get_class_depth,
    calculate_max_depth, determine_migration_type, find_moved_methods, detect_hierarchy_changes,
    calculate_statistics,
};

fn create_test_class(name: &str, parent: Option<String>, methods: Vec<MethodInfo>) -> ClassNode {
    ClassNode {
        qualified_name: name.to_string(),
        name: name.to_string(),
        parent,
        interfaces: Vec::new(),
        traits: Vec::new(),
        methods,
        fields: Vec::new(),
        file_path: format!("{}.java", name),
        line: 1,
        is_abstract: false,
        is_interface: false,
    }
}

fn method(name: &str, signature: &str) -> MethodInfo {
    MethodInfo {
        name: name.to_string(),
        signature: signature.to_string(),
        visibility: Visibility::Public,
        is_static: false,
        is_abstract: false,
        is_override: false,
        line: 1,
    }
}

const MAX_DEPTH: usize = 10;

#[test]
fn test_method_similarity() {
    assert!(methods_similar("void foo(int x)", "void foo(int x)"));
    assert!(methods_similar("void foo(int x)", "void  foo( int  x )"));
    assert!(!methods_similar("void foo(int x)", "void bar(int x)"));
}

#[test]
fn test_is_ancestor() {
    let classes = vec![
        ("Child".to_string(), create_test_class("Child", Some("Parent".to_string()), vec![])),
        ("Parent".to_string(), create_test_class("Parent", Some("GrandParent".to_string()), vec![])),
        ("GrandParent".to_string(), create_test_class("GrandParent", None, vec![])),
    ];
    let hierarchy = build_hierarchy(&classes);
    assert!(is_ancestor("Parent", "Child", &hierarchy, MAX_DEPTH));
    assert!(is_ancestor("GrandParent", "Child", &hierarchy, MAX_DEPTH));
    assert!(!is_ancestor("Child", "Parent", &hierarchy, MAX_DEPTH));
}

#[test]
fn test_are_siblings() {
    let classes = vec![
        ("Child1".to_string(), create_test_class("Child1", Some("Parent".to_string()), vec![])),
        ("Child2".to_string(), create_test_class("Child2", Some("Parent".to_string()), vec![])),
        ("Parent".to_string(), create_test_class("Parent", None, vec![])),
    ];
    let hierarchy = build_hierarchy(&classes);
    assert!(are_siblings("Child1", "Child2", &hierarchy, &hierarchy));
    assert!(!are_siblings("Child1", "Parent", &hierarchy, &hierarchy));
}

#[test]
fn ancestry_depth_is_bounded() {
    let classes = vec![
        ("A".to_string(), create_test_class("A", Some("B".to_string()), vec![])),
        ("B".to_string(), create_test_class("B", Some("C".to_string()), vec![])),
        ("C".to_string(), create_test_class("C", None, vec![])),
    ];
    let hierarchy = build_hierarchy(&classes);
    assert_eq!(get_class_depth("A", &hierarchy, MAX_DEPTH), 2);
    assert_eq!(get_class_depth("C", &hierarchy, MAX_DEPTH), 0);
    assert_eq!(get_class_depth("A", &hierarchy, 1), 1);
    assert!(!is_ancestor("C", "A", &hierarchy, 1));
    assert_eq!(calculate_max_depth(&hierarchy, MAX_DEPTH), 2);
    assert_eq!(hierarchy.root_classes.len(), 1);
    assert_eq!(hierarchy.inheritance_map.len(), 2);
}

#[test]
fn cyclic_parents_stop_at_max_depth() {
    let classes = vec![
        ("X".to_string(), create_test_class("X", Some("Y".to_string()), vec![])),
        ("Y".to_string(), create_test_class("Y", Some("X".to_string()), vec![])),
    ];
    let hierarchy = build_hierarchy(&classes);
    assert_eq!(get_class_depth("X", &hierarchy, MAX_DEPTH), MAX_DEPTH);
    assert!(!is_ancestor("Z", "X", &hierarchy, MAX_DEPTH));
}

#[test]
fn migration_kinds() {
    let classes = vec![
        ("Child".to_string(), create_test_class("Child", Some("Base".to_string()), vec![])),
        ("Other".to_string(), create_test_class("Other", Some("Base".to_string()), vec![])),
        ("Base".to_string(), create_test_class("Base", None, vec![])),
        ("Loner".to_string(), create_test_class("Loner", None, vec![])),
    ];
    let h = build_hierarchy(&classes);
    assert_eq!(determine_migration_type("Child", "Base", &h, &h, MAX_DEPTH), MethodMigrationType::PullUp);
    assert_eq!(determine_migration_type("Base", "Child", &h, &h, MAX_DEPTH), MethodMigrationType::PushDown);
    assert_eq!(determine_migration_type("Child", "Other", &h, &h, MAX_DEPTH), MethodMigrationType::MovedToSibling);
    assert_eq!(determine_migration_type("Child", "Fresh", &h, &h, MAX_DEPTH), MethodMigrationType::ExtractedToNewClass);
    assert_eq!(determine_migration_type("Child", "Loner", &h, &h, MAX_DEPTH), MethodMigrationType::MovedToUnrelated);
}

#[test]
fn moved_methods_are_those_the_target_keeps() {
    let source = create_test_class("S", None, vec![method("foo", "void foo()"), method("bar", "int bar(String s)")]);
    let target = create_test_class("S", None, vec![method("foo", "void foo()")]);
    assert_eq!(find_moved_methods(&source, &target), vec!["foo".to_string()]);
}

#[test]
fn parent_change_is_detected() {
    let old = vec![
        ("A".to_string(), create_test_class("A", Some("B".to_string()), vec![])),
        ("B".to_string(), create_test_class("B", None, vec![])),
    ];
    let new = vec![
        ("A".to_string(), create_test_class("A", Some("C".to_string()), vec![])),
        ("B".to_string(), create_test_class("B", None, vec![])),
        ("C".to_string(), create_test_class("C", None, vec![])),
    ];
    let changes = detect_hierarchy_changes(&build_hierarchy(&old), &build_hierarchy(&new));
    assert!(changes.iter().any(|c| c.class_name == "A"
        && c.change_type == HierarchyChangeType::ParentChanged
        && c.old_parent.as_deref() == Some("B")
        && c.new_parent.as_deref() == Some("C")));
}

#[test]
fn statistics_count_methods() {
    let classes = vec![
        ("A".to_string(), create_test_class("A", Some("B".to_string()), vec![method("f", "void f()")])),
        ("B".to_string(), create_test_class("B", None, vec![method("g", "void g()"), method("h", "void h()")])),
    ];
    let h = build_hierarchy(&classes);
    let st = calculate_statistics(&h, 1, 2, 3, MAX_DEPTH).unwrap();
    assert_eq!(st.total_classes, 2);
    assert_eq!(st.total_methods, 3);
    assert_eq!(st.classes_with_inheritance, 1);
    assert_eq!(st.max_hierarchy_depth, 1);
    assert_eq!(st.total_class_moves, 1);
    assert_eq!(st.total_method_migrations, 2);
    assert_eq!(st.total_hierarchy_changes, 3);
}
