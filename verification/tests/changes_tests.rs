use smart_diff::changes::{
    ChangeType, CodeElement, ImpactLevel, EffortLevel, RiskLevel, SignatureInfo,
    SignatureVisibility, SimilarityBand, classify_change, detect_split, detect_merge,
    assess_addition_impact, assess_deletion_impact, assess_modification_impact,
    generate_change_description, analyze_location, describe_name_change,
};

fn element(name: &str, file: &str, line: usize) -> CodeElement {
    CodeElement {
        name: name.to_string(),
        file_path: file.to_string(),
        start_line: line,
        end_line: line + 10,
        element_type: "function".to_string(),
    }
}

fn signature(name: &str, params: usize, ret: &str, vis: SignatureVisibility, cc: Option<u32>) -> SignatureInfo {
    SignatureInfo {
        name: name.to_string(),
        parameter_count: params,
        return_type: ret.to_string(),
        visibility: vis,
        cyclomatic_complexity: cc,
    }
}

#[test]
fn simple_classification() {
    let a = element("oldFunction", "test.java", 10);
    let b = element("newFunction", "test.java", 10);
    let c = element("oldFunction", "other.java", 10);
    let d = element("oldFunction", "test.java", 20);
    assert_eq!(classify_change(None, Some(&b)), ChangeType::Add);
    assert_eq!(classify_change(Some(&a), None), ChangeType::Delete);
    assert_eq!(classify_change(Some(&a), Some(&b)), ChangeType::Rename);
    assert_eq!(classify_change(Some(&a), Some(&c)), ChangeType::CrossFileMove);
    assert_eq!(classify_change(Some(&a), Some(&d)), ChangeType::Move);
    assert_eq!(classify_change(Some(&a), Some(&a)), ChangeType::Modify);
    assert_eq!(classify_change(None, None), ChangeType::Modify);
}

#[test]
fn splits_and_merges_need_related_names() {
    let src = element("process", "a.java", 1);
    let parts = vec![element("processPart1", "a.java", 1), element("processPart2", "a.java", 20)];
    assert!(detect_split(&src, &parts));
    assert!(!detect_split(&src, &vec![element("processPart1", "a.java", 1)]));
    assert!(!detect_split(&src, &vec![element("processPart1", "a.java", 1), element("other", "a.java", 5)]));
    assert!(detect_merge(&parts, &element("process", "a.java", 1)));
}

#[test]
fn addition_impact_levels() {
    let t = element("newFunction", "test.java", 10);
    let plain = assess_addition_impact(&t, None);
    assert_eq!(plain.impact_level, ImpactLevel::Low);
    assert!(plain.affected_components.is_empty());
    assert!(!plain.is_breaking_change);
    let complex = signature("newFunction", 1, "void", SignatureVisibility::Public, Some(25));
    let impact = assess_addition_impact(&t, Some(&complex));
    assert_eq!(impact.impact_level, ImpactLevel::High);
    assert_eq!(impact.implementation_effort, EffortLevel::High);
    assert_eq!(impact.risk_level, RiskLevel::High);
    assert_eq!(impact.affected_components, vec!["newFunction".to_string()]);
    let medium_public = signature("f", 0, "void", SignatureVisibility::Public, Some(15));
    assert_eq!(assess_addition_impact(&t, Some(&medium_public)).impact_level, ImpactLevel::High);
    let simple_public = signature("f", 0, "void", SignatureVisibility::Public, None);
    assert_eq!(assess_addition_impact(&t, Some(&simple_public)).impact_level, ImpactLevel::Low);
    let medium_private = signature("f", 0, "void", SignatureVisibility::Private, Some(15));
    assert_eq!(assess_addition_impact(&t, Some(&medium_private)).impact_level, ImpactLevel::Medium);
}

#[test]
fn deletion_of_public_function_breaks() {
    let s = element("oldFunction", "test.java", 10);
    let sig = signature("oldFunction", 2, "int", SignatureVisibility::Public, None);
    let impact = assess_deletion_impact(&s, Some(&sig));
    assert!(impact.is_breaking_change);
    let private_sig = signature("oldFunction", 2, "int", SignatureVisibility::Private, None);
    assert!(!assess_deletion_impact(&s, Some(&private_sig)).is_breaking_change);
}

#[test]
fn modification_impact_of_signature_changes() {
    let s = element("f", "a.java", 1);
    let t = element("f", "a.java", 1);
    let before = signature("f", 1, "int", SignatureVisibility::Public, None);
    let more_params = signature("f", 2, "int", SignatureVisibility::Public, None);
    let impact = assess_modification_impact(&s, &t, Some(SimilarityBand::SixTenthsOrMore), Some(&before), Some(&more_params));
    assert_eq!(impact.impact_level, ImpactLevel::High);
    assert_eq!(impact.risk_level, RiskLevel::High);
    assert!(impact.is_breaking_change);
    let same = assess_modification_impact(&s, &t, Some(SimilarityBand::SixTenthsOrMore), Some(&before), Some(&before));
    assert_eq!(same.impact_level, ImpactLevel::Low);
    assert!(!same.is_breaking_change);
    let low = assess_modification_impact(&s, &t, Some(SimilarityBand::BelowThreeTenths), None, None);
    assert_eq!(low.impact_level, ImpactLevel::High);
    let moved = assess_modification_impact(&s, &element("f", "b.java", 1), Some(SimilarityBand::BelowSixTenths), None, None);
    assert_eq!(moved.impact_level, ImpactLevel::High);
    assert_eq!(moved.implementation_effort, EffortLevel::Medium);
}

#[test]
fn change_descriptions() {
    let s = element("oldFunction", "old.java", 10);
    let t = element("newFunction", "new.java", 20);
    assert_eq!(generate_change_description(ChangeType::Add, &s, &t, "90.0"), "Added new element 'newFunction'");
    assert_eq!(generate_change_description(ChangeType::Delete, &s, &t, "90.0"), "Deleted element 'oldFunction'");
    assert_eq!(
        generate_change_description(ChangeType::Rename, &s, &t, "85.0"),
        "Renamed 'oldFunction' to 'newFunction' (similarity: 85.0%)"
    );
    assert!(generate_change_description(ChangeType::Move, &s, &t, "85.0").contains("Moved"));
}

#[test]
fn location_of_a_modification() {
    let s = element("f", "a.java", 10);
    let moved = analyze_location(&s, &element("f", "a.java", 25), ChangeType::Modify).unwrap();
    assert_eq!(moved.value, "Line: 10 → 25 (distance: 15)");
    assert_eq!(moved.description, "Element moved 15 lines");
    assert_eq!(moved.line_distance, Some(15));
    assert_eq!(moved.secondary, Some(ChangeType::Move));
    let other = analyze_location(&s, &element("f", "b.java", 10), ChangeType::CrossFileMove).unwrap();
    assert_eq!(other.value, "File: a.java → b.java");
    assert_eq!(other.secondary, None);
    assert!(analyze_location(&s, &element("g", "a.java", 10), ChangeType::Rename).is_none());
    assert_eq!(describe_name_change(&s, &element("g", "a.java", 10)).unwrap(), "Name changed from 'f' to 'g'");
    assert!(describe_name_change(&s, &s).is_none());
}

fn create_test_code_element(name: &str, file_path: &str, start_line: usize) -> CodeElement {
    element(name, file_path, start_line)
}

fn create_test_signature(name: &str, complexity: u32) -> SignatureInfo {
    signature(name, 0, "void", SignatureVisibility::Public, Some(complexity))
}

#[test]
fn test_simple_addition_classification() {
    let target = create_test_code_element("newFunction", "test.java", 10);
    assert_eq!(classify_change(None, Some(&target)), ChangeType::Add);
}

#[test]
fn test_simple_deletion_classification() {
    let source = create_test_code_element("oldFunction", "test.java", 10);
    assert_eq!(classify_change(Some(&source), None), ChangeType::Delete);
}

#[test]
fn test_simple_rename_classification() {
    let source = create_test_code_element("oldFunction", "test.java", 10);
    let target = create_test_code_element("newFunction", "test.java", 10);
    assert_eq!(classify_change(Some(&source), Some(&target)), ChangeType::Rename);
}

#[test]
fn test_simple_move_classification() {
    let source = create_test_code_element("function", "test.java", 10);
    let target = create_test_code_element("function", "test.java", 20);
    assert_eq!(classify_change(Some(&source), Some(&target)), ChangeType::Move);
}

#[test]
fn test_cross_file_move_classification() {
    let source = create_test_code_element("function", "old.java", 10);
    let target = create_test_code_element("function", "new.java", 10);
    assert_eq!(classify_change(Some(&source), Some(&target)), ChangeType::CrossFileMove);
}

#[test]
fn test_modification_classification() {
    let source = create_test_code_element("function", "test.java", 10);
    let target = create_test_code_element("function", "test.java", 10);
    assert_eq!(classify_change(Some(&source), Some(&target)), ChangeType::Modify);
}

#[test]
fn test_impact_assessment_levels() {
    let low_complexity_sig = create_test_signature("simpleFunction", 2);
    let target = create_test_code_element("simpleFunction", "test.java", 10);
    let impact = assess_addition_impact(&target, Some(&low_complexity_sig));
    assert_eq!(impact.impact_level, ImpactLevel::Low);

    let high_complexity_sig = create_test_signature("complexFunction", 25);
    let target = create_test_code_element("complexFunction", "test.java", 10);
    let impact = assess_addition_impact(&target, Some(&high_complexity_sig));
    assert_eq!(impact.impact_level, ImpactLevel::High);
}

#[test]
fn test_change_description_generation() {
    let source = create_test_code_element("oldFunction", "old.java", 10);
    let target = create_test_code_element("newFunction", "new.java", 20);

    let description = generate_change_description(ChangeType::Rename, &source, &target, "0.0");
    assert!(description.contains("Renamed"));
    assert!(description.contains("oldFunction"));
    assert!(description.contains("newFunction"));

    let description = generate_change_description(ChangeType::CrossFileMove, &source, &target, "0.0");
    assert!(description.contains("Moved"));
    assert!(description.contains("old.java"));
    assert!(description.contains("new.java"));
}

#[test]
fn public_deletion_and_simple_public_addition() {
    let source = create_test_code_element("oldFunction", "test.java", 10);
    let impact = assess_deletion_impact(&source, Some(&create_test_signature("oldFunction", 5)));
    assert!(impact.is_breaking_change);
    assert_eq!(impact.impact_level, ImpactLevel::High);
    let target = create_test_code_element("newFunction", "test.java", 10);
    let impact = assess_addition_impact(&target, Some(&create_test_signature("newFunction", 5)));
    assert!(!impact.is_breaking_change);
    assert_eq!(impact.impact_level, ImpactLevel::Low);
}

#[test]
fn line_distance_is_measured_in_i32() {
    let s = element("f", "a.java", (1usize << 32) + 3);
    let t = element("f", "a.java", 5);
    let moved = analyze_location(&s, &t, ChangeType::Modify).unwrap();
    assert_eq!(moved.line_distance, Some(2));
    assert_eq!(moved.value, format!("Line: {} → 5 (distance: 2)", (1usize << 32) + 3));
}
