use smart_diff::changes::{ChangeType, CodeElement};
use smart_diff::refactoring::{
    Change, RefactoringType, RefactoringToggles, RefactoringComplexityLevel, RefactoringEffort,
    affected_files, count_affected_files, assess_complexity, is_complex_extract_group,
    within_related_distance, group_related_changes, indices_of_kind, sole_pair, class_members,
};

fn element(name: &str, file: &str, line: usize) -> CodeElement {
    CodeElement {
        name: name.to_string(),
        file_path: file.to_string(),
        start_line: line,
        end_line: line + 10,
        element_type: "function".to_string(),
    }
}

fn change(t: ChangeType, source: Option<CodeElement>, target: Option<CodeElement>) -> Change {
    Change { change_type: t, source, target }
}

#[test]
fn test_supported_refactoring_types() {
    let types = RefactoringToggles::default().get_supported_refactoring_types();
    assert!(types.contains(&RefactoringType::ExtractMethod));
    assert!(types.contains(&RefactoringType::InlineMethod));
    assert!(types.contains(&RefactoringType::RenameMethod));
    assert!(types.contains(&RefactoringType::MoveMethod));
    assert!(types.contains(&RefactoringType::MoveClass));
    assert!(types.contains(&RefactoringType::ExtractClass));
    assert!(types.contains(&RefactoringType::InlineClass));
    assert!(types.contains(&RefactoringType::ChangeSignature));
}

#[test]
fn disabled_kinds_are_not_supported() {
    let mut toggles = RefactoringToggles::default();
    toggles.enable_move_detection = false;
    toggles.enable_inline_class = false;
    let types = toggles.get_supported_refactoring_types();
    assert_eq!(types, vec![
        RefactoringType::ExtractMethod,
        RefactoringType::InlineMethod,
        RefactoringType::RenameMethod,
        RefactoringType::ExtractClass,
        RefactoringType::ChangeSignature,
    ]);
}

#[test]
fn affected_files_are_distinct() {
    let changes = vec![
        change(ChangeType::Rename, Some(element("a", "A.java", 1)), Some(element("b", "A.java", 1))),
        change(ChangeType::Move, Some(element("c", "A.java", 5)), Some(element("c", "B.java", 5))),
        change(ChangeType::Add, None, Some(element("d", "C.java", 1))),
    ];
    assert_eq!(affected_files(&changes), vec!["A.java".to_string(), "B.java".to_string(), "C.java".to_string()]);
    assert_eq!(count_affected_files(&changes), 3);
    assert_eq!(count_affected_files(&Vec::new()), 0);
}

#[test]
fn complexity_by_kind_and_files() {
    let one_file = vec![change(ChangeType::Rename, Some(element("a", "A.java", 1)), Some(element("b", "A.java", 1)))];
    let rename = assess_complexity(RefactoringType::RenameMethod, &one_file);
    assert_eq!(rename.complexity_level, RefactoringComplexityLevel::Simple);
    assert_eq!(rename.estimated_effort, RefactoringEffort::Low);
    assert_eq!(rename.elements_involved, 1);
    assert_eq!(rename.files_affected, 1);
    let two_files = vec![change(ChangeType::Move, Some(element("a", "A.java", 1)), Some(element("a", "B.java", 1)))];
    assert_eq!(assess_complexity(RefactoringType::RenameMethod, &two_files).complexity_level, RefactoringComplexityLevel::Moderate);
    assert_eq!(assess_complexity(RefactoringType::MoveMethod, &two_files).complexity_level, RefactoringComplexityLevel::Moderate);
    let three_files = vec![
        change(ChangeType::Move, Some(element("a", "A.java", 1)), Some(element("a", "B.java", 1))),
        change(ChangeType::Add, None, Some(element("x", "C.java", 1))),
    ];
    let mv = assess_complexity(RefactoringType::MoveClass, &three_files);
    assert_eq!(mv.complexity_level, RefactoringComplexityLevel::Complex);
    assert_eq!(mv.estimated_effort, RefactoringEffort::High);
    assert_eq!(assess_complexity(RefactoringType::ExtractClass, &one_file).estimated_effort, RefactoringEffort::High);
    assert_eq!(assess_complexity(RefactoringType::ExtractMethod, &three_files).complexity_level, RefactoringComplexityLevel::Simple);
}

#[test]
fn complex_extract_group_needs_three_kinds() {
    let group = vec![
        change(ChangeType::Add, None, Some(element("helper", "S.java", 30))),
        change(ChangeType::Modify, Some(element("main", "S.java", 10)), Some(element("main", "S.java", 10))),
        change(ChangeType::Rename, Some(element("old", "S.java", 20)), Some(element("new", "S.java", 20))),
    ];
    assert!(is_complex_extract_group(&group));
    assert!(!is_complex_extract_group(&group[..2].to_vec()));
}

#[test]
fn proximity_within_a_file() {
    let a = change(ChangeType::Modify, Some(element("a", "S.java", 10)), None);
    let b = change(ChangeType::Modify, Some(element("b", "S.java", 60)), None);
    let c = change(ChangeType::Modify, Some(element("c", "T.java", 10)), None);
    assert!(within_related_distance(&a, &b, 50));
    assert!(!within_related_distance(&a, &b, 49));
    assert!(!within_related_distance(&a, &c, 1000));
}

#[test]
fn grouping_partitions_changes() {
    let related = vec![
        vec![false, false, true, false],
        vec![false, false, false, true],
        vec![true, false, false, true],
        vec![false, true, true, false],
    ];
    let groups = group_related_changes(&related);
    assert_eq!(groups, vec![vec![0, 2], vec![1, 3]]);
    let mut all: Vec<usize> = groups.concat();
    all.sort();
    assert_eq!(all, vec![0, 1, 2, 3]);
    assert!(group_related_changes(&Vec::new()).is_empty());
}

#[test]
fn positions_of_a_kind_in_order() {
    let group = vec![
        change(ChangeType::Add, None, Some(element("a", "A.java", 1))),
        change(ChangeType::Modify, Some(element("m", "A.java", 5)), Some(element("m", "A.java", 5))),
        change(ChangeType::Add, None, Some(element("b", "A.java", 9))),
    ];
    assert_eq!(indices_of_kind(&group, ChangeType::Add), vec![0, 2]);
    assert_eq!(indices_of_kind(&group, ChangeType::Modify), vec![1]);
    assert_eq!(indices_of_kind(&group, ChangeType::Delete), Vec::<usize>::new());
}

#[test]
fn one_modification_and_one_addition() {
    let group = vec![
        change(ChangeType::Add, None, Some(element("helper", "A.java", 20))),
        change(ChangeType::Modify, Some(element("main", "A.java", 1)), Some(element("main", "A.java", 1))),
    ];
    assert_eq!(sole_pair(&group, ChangeType::Modify, ChangeType::Add), Some((1, 0)));
    assert_eq!(sole_pair(&group, ChangeType::Delete, ChangeType::Modify), None);
    let mut two_adds = group.clone();
    two_adds.push(change(ChangeType::Add, None, Some(element("other", "A.java", 40))));
    assert_eq!(sole_pair(&two_adds, ChangeType::Modify, ChangeType::Add), None);
}

#[test]
fn class_members_share_a_file() {
    let group = vec![
        change(ChangeType::Add, None, Some(element("a", "New.java", 1))),
        change(ChangeType::Modify, Some(element("m", "Old.java", 5)), Some(element("m", "Old.java", 5))),
        change(ChangeType::Add, None, Some(element("b", "New.java", 9))),
    ];
    assert_eq!(class_members(&group, ChangeType::Add, true), Some(vec![0, 2]));
    assert_eq!(class_members(&group, ChangeType::Add, false), None);
    let mut scattered = group.clone();
    scattered[2] = change(ChangeType::Add, None, Some(element("b", "Other.java", 9)));
    assert_eq!(class_members(&scattered, ChangeType::Add, true), None);
    let no_modification = vec![group[0].clone(), group[2].clone()];
    assert_eq!(class_members(&no_modification, ChangeType::Add, true), None);
}

#[test]
fn test_changes_related_detection() {
    let change1 = change(ChangeType::Modify, Some(element("method1", "Service.java", 10)), Some(element("method1", "Service.java", 10)));
    let change2 = change(ChangeType::Add, None, Some(element("method2", "Service.java", 15)));
    let change3 = change(ChangeType::Add, None, Some(element("method3", "Other.java", 100)));
    let change4 = change(ChangeType::Delete, Some(element("method1Similar", "Service.java", 50)), None);
    assert!(within_related_distance(&change1, &change2, 50));
    assert!(!within_related_distance(&change1, &change3, 50));
    assert!(within_related_distance(&change1, &change4, 50));
}
