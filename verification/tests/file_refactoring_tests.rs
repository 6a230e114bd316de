use smart_diff::file_refactoring::{
    Relocation, FileRelocation, classify_relocation, create_fingerprint, extract_identifiers,
    identifier_overlap, identifier_union_size, plan_relocations, refactoring_stats, hash_hex,
};

#[test]
fn test_content_fingerprinting() {
    let content1 = "class Test { void method() { } }";
    let content2 = "class   Test   {   void   method()   {   }   }";
    let fp1 = create_fingerprint(content1);
    let fp2 = create_fingerprint(content2);
    assert_eq!(fp1.normalized_hash, fp2.normalized_hash, "Normalized hashes should match despite whitespace differences");
}

#[test]
fn test_identifier_extraction() {
    let content = r#"
class Calculator {
    function add(a, b) {
        return a + b;
    }
    const PI = 3.14;
}
"#;
    let fingerprint = create_fingerprint(content);
    assert!(fingerprint.identifier_set.contains(&"Calculator".to_string()), "Should extract class name");
    assert!(fingerprint.identifier_set.contains(&"add".to_string()), "Should extract function name");
    assert!(fingerprint.identifier_set.contains(&"PI".to_string()), "Should extract constant name");
}

#[test]
fn same_name_in_other_directory_is_a_move() {
    assert_eq!(classify_relocation("src/Calculator.java", "lib/Calculator.java"), Relocation::Move);
}

#[test]
fn other_name_in_other_directory_is_move_and_rename() {
    assert_eq!(classify_relocation("src/Calculator.java", "lib/MathCalc.java"), Relocation::MoveAndRename);
}

#[test]
fn pure_rename_stays_in_directory() {
    assert_eq!(classify_relocation("src/Calculator.java", "src/MathCalc.java"), Relocation::Rename);
    assert_eq!(classify_relocation("Calculator.java", "MathCalculator.java"), Relocation::Rename);
}

#[test]
fn fingerprint_counts_lines() {
    let fp = create_fingerprint("a\n\n  \nb\r\nc");
    assert_eq!(fp.line_count, 5);
    assert_eq!(fp.non_empty_line_count, 3);
    let same = create_fingerprint("a\n\n  \nb\r\nc");
    assert_eq!(fp.content_hash, same.content_hash);
    assert!(fp.content_hash.chars().all(|c| c.is_ascii_hexdigit() && !c.is_ascii_uppercase()));
    assert_eq!(hash_hex("abc"), hash_hex("abc"));
}

#[test]
fn identifiers_are_distinct() {
    let ids = extract_identifiers("let x = 1;\nlet x = 2;\nvar y;\nfn main() {}");
    assert_eq!(ids.len(), 3);
    let mut sorted = ids.clone();
    sorted.sort();
    assert_eq!(sorted, vec!["main".to_string(), "x".to_string(), "y".to_string()]);
}

#[test]
fn overlap_and_union() {
    let a = create_fingerprint("class A {}\nfn f() {}\nfn g() {}");
    let b = create_fingerprint("class A {}\nfn g() {}\nfn h() {}\nfn i() {}");
    assert_eq!(identifier_overlap(&a, &b), 2);
    assert_eq!(identifier_union_size(&a, &b), 5);
}

#[test]
fn relocation_plan_and_statistics() {
    let sources = vec!["src/A.java".to_string(), "src/B.java".to_string(), "src/C.java".to_string()];
    let targets = vec!["lib/A.java".to_string(), "src/D.java".to_string()];
    let plan = plan_relocations(&vec![Some(0), None, Some(1)], &sources, &targets);
    assert_eq!(plan, vec![
        FileRelocation { source: 0, target: 0, kind: Relocation::Move },
        FileRelocation { source: 2, target: 1, kind: Relocation::Rename },
    ]);
    let stats = refactoring_stats(3, 2, &plan, 0, 1, 7);
    assert_eq!(stats.rename_count, 1);
    assert_eq!(stats.move_count, 1);
    assert_eq!(stats.merge_count, 1);
    assert_eq!(stats.total_source_files, 3);
}

#[test]
fn inserted_white_space_keeps_normalized_hash() {
    let a = "fn main() {";
    let b = "let x = 1; }";
    let joined = create_fingerprint(&format!("{}{}", a, b));
    let spaced = create_fingerprint(&format!("{} \t\n  {}", a, b));
    assert_eq!(joined.normalized_hash, spaced.normalized_hash);
    assert_ne!(joined.content_hash, spaced.content_hash);
    assert!(spaced.non_empty_line_count <= spaced.line_count);
}

#[test]
fn test_file_move_vs_rename() {
    let kind = classify_relocation("src/Calculator.java", "lib/Calculator.java");
    assert_eq!(kind, Relocation::Move, "Pure directory move should not be marked as renamed");
}

#[test]
fn test_combined_move_and_rename() {
    let kind = classify_relocation("src/Calculator.java", "lib/MathCalc.java");
    assert_eq!(kind, Relocation::MoveAndRename, "Move with name change should be marked as renamed");
}
