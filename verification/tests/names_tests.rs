use smart_diff::names::{
    is_potential_split_function, is_potential_merge_function, is_extract_method_name_pattern,
    are_files_related, checked_potential_split_function, checked_files_related, take_bytes,
};

#[test]
fn test_split_function_detection() {
    assert!(is_potential_split_function("processData", "processDataPart1"));
    assert!(is_potential_split_function("calculateTotal", "calculateTotalHelper"));
    assert!(is_potential_split_function("validateInput", "validateInputStep1"));
    assert!(!is_potential_split_function("processData", "formatOutput"));
    assert!(!is_potential_split_function("calculateTotal", "deleteRecord"));
}

#[test]
fn test_merge_function_detection() {
    assert!(is_potential_merge_function("validateInput", "combinedValidation"));
    assert!(is_potential_merge_function("processData", "unifiedDataProcessor"));
    assert!(is_potential_merge_function("formatOutput", "integratedFormatter"));
    assert!(!is_potential_merge_function("validateInput", "deleteRecord"));
    assert!(!is_potential_merge_function("processData", "calculateTotal"));
}

#[test]
fn test_extract_method_name_patterns() {
    assert!(is_extract_method_name_pattern("validateInput"));
    assert!(is_extract_method_name_pattern("calculateTotal"));
    assert!(is_extract_method_name_pattern("processData"));
    assert!(is_extract_method_name_pattern("handleRequest"));
    assert!(is_extract_method_name_pattern("checkPermissions"));
    assert!(is_extract_method_name_pattern("parseJson"));
    assert!(is_extract_method_name_pattern("formatOutput"));
    assert!(is_extract_method_name_pattern("helperMethod"));
    assert!(is_extract_method_name_pattern("doSomething"));
    assert!(is_extract_method_name_pattern("getValue"));
    assert!(is_extract_method_name_pattern("setValue"));
    assert!(is_extract_method_name_pattern("isValid"));
    assert!(is_extract_method_name_pattern("hasPermission"));
    assert!(!is_extract_method_name_pattern("main"));
    assert!(!is_extract_method_name_pattern("run"));
    assert!(!is_extract_method_name_pattern("x"));
}

#[test]
fn test_file_relationship_detection() {
    assert!(are_files_related("src/main/Calculator.java", "src/main/MathUtils.java"));
    assert!(are_files_related("Calculator.java", "CalculatorUtils.java"));
    assert!(!are_files_related("src/main/Calculator.java", "test/unit/DatabaseTest.java"));
}

#[test]
fn checked_variants_agree() {
    assert_eq!(checked_potential_split_function("processData", "processDataPart1"), Some(true));
    assert_eq!(checked_files_related("Calculator.java", "CalculatorUtils.java"), Some(true));
}

#[test]
fn take_bytes_respects_char_boundaries() {
    assert_eq!(take_bytes("abcdef", 3), Some("abc".to_string()));
    assert_eq!(take_bytes("éa", 1), None);
    assert_eq!(take_bytes("éa", 2), Some("é".to_string()));
    assert_eq!(take_bytes("ab", 5), None);
}
