use smart_diff::binary_matcher::{
    BinaryFunctionInfo, exact_name_pairs, unmatched_by_name, fuzzy_name_distances,
};
use smart_diff::matching::greedy_match;

fn f(name: &str, addr: &str) -> BinaryFunctionInfo {
    BinaryFunctionInfo::new(name.to_string(), addr.to_string())
}

#[test]
fn exact_name_pairs_follow_source_order() {
    let a = vec![f("main", "0x1000"), f("process_data", "0x2000")];
    let b = vec![f("main", "0x1100"), f("helper", "0x2100")];
    assert_eq!(exact_name_pairs(&a, &b), vec![(0, 0)]);
}

#[test]
fn duplicate_names_pair_with_the_last() {
    let a = vec![f("x", "1")];
    let b = vec![f("x", "2"), f("y", "3"), f("x", "4")];
    assert_eq!(exact_name_pairs(&a, &b), vec![(0, 2)]);
}

#[test]
fn unmatched_functions_after_exact_matching() {
    let a = vec![f("main", "0x1000"), f("process_data", "0x2000")];
    let b = vec![f("main", "0x1100"), f("helper", "0x2100")];
    assert_eq!(unmatched_by_name(&a, &b), vec![1]);
    assert_eq!(unmatched_by_name(&b, &a), vec![1]);
}

#[test]
fn fuzzy_candidates_within_distance() {
    let a = vec![f("process_data", "0x1000")];
    let b = vec![f("process_dat", "0x1100"), f("completely_other", "0x2")];
    let d = fuzzy_name_distances(&a, &b, 3);
    assert_eq!(d, vec![vec![Some(1), None]]);
}

#[test]
fn with_code_keeps_the_rest() {
    let g = f("main", "0x1").with_code("int main() {}".to_string());
    assert_eq!(g.name, "main");
    assert_eq!(g.address, "0x1");
    assert_eq!(g.decompiled_code.as_deref(), Some("int main() {}"));
}

#[test]
fn greedy_matching_takes_best_free_target() {
    let scores = vec![
        vec![Some(5), Some(9), None],
        vec![Some(4), Some(9), Some(1)],
        vec![None, None, None],
    ];
    let m = greedy_match(&scores, 3);
    assert_eq!(m.assignment, vec![Some(1), Some(0), None]);
    assert_eq!(m.unmatched_targets, vec![2]);
}

#[test]
fn greedy_matching_prefers_earliest_on_ties() {
    let scores = vec![vec![Some(7), Some(7)]];
    let m = greedy_match(&scores, 2);
    assert_eq!(m.assignment, vec![Some(0)]);
    assert_eq!(m.unmatched_targets, vec![1]);
}

#[test]
fn test_exact_name_matching() {
    let functions_a = vec![
        BinaryFunctionInfo::new("main".to_string(), "0x1000".to_string()),
        BinaryFunctionInfo::new("process_data".to_string(), "0x2000".to_string()),
    ];
    let functions_b = vec![
        BinaryFunctionInfo::new("main".to_string(), "0x1100".to_string()),
        BinaryFunctionInfo::new("helper".to_string(), "0x2100".to_string()),
    ];
    let matches = exact_name_pairs(&functions_a, &functions_b);
    assert_eq!(matches.len(), 1);
    assert_eq!(functions_a[matches[0].0].name, "main");
    assert_eq!(functions_b[matches[0].1].name, "main");
}

#[test]
fn test_fuzzy_name_matching() {
    let functions_a = vec![BinaryFunctionInfo::new("process_data".to_string(), "0x1000".to_string())];
    let functions_b = vec![BinaryFunctionInfo::new("process_dat".to_string(), "0x1100".to_string())];
    let distances = fuzzy_name_distances(&functions_a, &functions_b, 3);
    // Should match with edit distance of 1
    assert_eq!(distances, vec![vec![Some(1)]]);
    let name_similarity = 1.0 - 1.0 / ("process_data".len() as f64);
    assert!(name_similarity > 0.9);
}
