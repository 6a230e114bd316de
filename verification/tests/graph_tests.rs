use std::hash::{Hash, Hasher};
use smart_diff::graph::{
    MatchType, MatchSimilarity, StringDistance, DependencyChangeType, determine_match_type,
    compare_strings, optimal_pairs, acceptable_pairs, ids_not_matched, dependency_changes,
    generate_combinations,
};

#[test]
fn match_types() {
    assert_eq!(determine_match_type("f", "g", "a", "b", MatchSimilarity::Identical), MatchType::Exact);
    assert_eq!(determine_match_type("f", "g", "a", "b", MatchSimilarity::High), MatchType::MovedAndRenamed);
    assert_eq!(determine_match_type("f", "g", "a", "a", MatchSimilarity::High), MatchType::Renamed);
    assert_eq!(determine_match_type("f", "f", "a", "b", MatchSimilarity::Lower), MatchType::Moved);
    assert_eq!(determine_match_type("f", "f", "a", "a", MatchSimilarity::High), MatchType::Similar);
    assert_eq!(determine_match_type("f", "f", "a", "a", MatchSimilarity::Lower), MatchType::Refactored);
}

#[test]
fn string_distances_by_edit_distance_crate() {
    assert_eq!(compare_strings("abc", "abc"), StringDistance::Identical);
    assert_eq!(compare_strings("", "abc"), StringDistance::Empty);
    assert_eq!(compare_strings("kitten", "sitting"), StringDistance::Distance { distance: 3, max_len: 7 });
    assert_eq!(compare_strings("é", "e"), StringDistance::Distance { distance: 1, max_len: 2 });
}

#[test]
fn optimal_assignment_minimises_cost() {
    let costs = vec![1, 2, 1, 4, 5, 6, 7, 8, 9];
    let ok = vec![vec![true; 3]; 3];
    assert_eq!(optimal_pairs(&costs, 3, 3, &ok), vec![(0, 2), (1, 1), (2, 0)]);
}

#[test]
fn optimal_assignment_drops_unacceptable_pairs() {
    let costs = vec![1, 0, 5, 2, 3, 1];
    let ok = vec![vec![true, false, true], vec![true, true, true]];
    assert_eq!(optimal_pairs(&costs, 2, 3, &ok), vec![(1, 2)]);
    assert!(optimal_pairs(&Vec::new(), 0, 0, &Vec::new()).is_empty());
}

#[test]
fn acceptable_pairs_filter() {
    let ok = vec![vec![true, true], vec![false, true], vec![true, true]];
    assert_eq!(acceptable_pairs(&vec![Some(1), Some(0), None], 2, &ok), vec![(0, 1)]);
}

#[test]
fn additions_and_deletions() {
    let ids = vec!["a".to_string(), "b".to_string(), "c".to_string()];
    let matched = vec!["b".to_string()];
    assert_eq!(ids_not_matched(&ids, &matched), vec!["a".to_string(), "c".to_string()]);
}

#[test]
fn dependency_deltas() {
    let src = vec!["x".to_string(), "y".to_string()];
    let tgt = vec!["y".to_string(), "z".to_string()];
    let ds = dependency_changes(&"f".to_string(), &src, &tgt);
    assert_eq!(ds.len(), 2);
    assert_eq!(ds[0].change_type, DependencyChangeType::Added);
    assert_eq!(ds[0].target_function, "z");
    assert_eq!(ds[1].change_type, DependencyChangeType::Removed);
    assert_eq!(ds[1].target_function, "x");
    assert_eq!(ds[1].source_function, "f");
}

#[test]
fn dependencies_reconcile() {
    let src = vec!["a".to_string(), "b".to_string(), "c".to_string()];
    let tgt = vec!["c".to_string(), "d".to_string(), "a".to_string()];
    let added = ids_not_matched(&tgt, &src);
    let removed = ids_not_matched(&src, &tgt);
    assert_eq!(added, vec!["d".to_string()]);
    assert_eq!(removed, vec!["b".to_string()]);
    let mut rebuilt: Vec<String> = src.iter().filter(|d| !removed.contains(d)).cloned().collect();
    rebuilt.extend(added.iter().cloned());
    rebuilt.sort();
    let mut expected = tgt.clone();
    expected.sort();
    assert_eq!(rebuilt, expected);
}

#[test]
fn unchanged_dependencies_report_nothing() {
    let deps = vec!["a".to_string(), "b".to_string(), "a".to_string()];
    assert!(ids_not_matched(&deps, &deps).is_empty());
    assert!(dependency_changes(&"f".to_string(), &deps, &deps).is_empty());
}

#[test]
fn combinations_in_lexicographic_order() {
    let ids = vec![4, 7, 9];
    assert_eq!(generate_combinations(&ids, 2), vec![vec![4, 7], vec![4, 9], vec![7, 9]]);
    assert_eq!(generate_combinations(&ids, 1), vec![vec![4], vec![7], vec![9]]);
    assert_eq!(generate_combinations(&ids, 3), vec![vec![4, 7, 9]]);
    assert!(generate_combinations(&ids, 0).is_empty());
    assert!(generate_combinations(&ids, 4).is_empty());
    let five = vec![0, 1, 2, 3, 4];
    let groups = generate_combinations(&five, 3);
    assert_eq!(groups.len(), 10);
    assert!(groups.iter().all(|g| g.len() == 3));
}

fn context_hash_by_std(deps: &[&str], dependents: &[&str]) -> String {
    let mut hasher = std::collections::hash_map::DefaultHasher::new();
    let mut d: Vec<String> = deps.iter().map(|s| s.to_string()).collect();
    d.sort();
    Hash::hash(&d, &mut hasher);
    let mut e: Vec<String> = dependents.iter().map(|s| s.to_string()).collect();
    e.sort();
    Hash::hash(&e, &mut hasher);
    format!("{:x}", Hasher::finish(&hasher))
}

#[test]
fn context_hash_of_sorted_lists() {
    let deps = vec!["parse".to_string(), "emit".to_string()];
    let dependents = vec!["main".to_string()];
    assert_eq!(
        smart_diff::graph::calculate_context_hash(&deps, &dependents),
        context_hash_by_std(&["parse", "emit"], &["main"])
    );
}

#[test]
fn context_hash_ignores_order() {
    let a = smart_diff::graph::calculate_context_hash(
        &vec!["b".to_string(), "a".to_string(), "c".to_string()],
        &vec!["y".to_string(), "x".to_string()],
    );
    let b = smart_diff::graph::calculate_context_hash(
        &vec!["c".to_string(), "b".to_string(), "a".to_string()],
        &vec!["x".to_string(), "y".to_string()],
    );
    assert_eq!(a, b);
    let c = smart_diff::graph::calculate_context_hash(&vec!["a".to_string()], &vec![]);
    let d = smart_diff::graph::calculate_context_hash(&vec![], &vec!["a".to_string()]);
    assert_ne!(c, d);
}

#[test]
fn optimal_assignment_with_bounded_exclusions() {
    let big = 1_073_741_823;
    let costs = vec![0, 0, big, 9, 9, 0, 9, 9, 0];
    let ok = vec![vec![true, true, false], vec![true, true, true], vec![true, true, true]];
    let pairs = optimal_pairs(&costs, 3, 3, &ok);
    assert_eq!(pairs.len(), 3);
    let total: i64 = pairs.iter().map(|&(i, j)| costs[i * 3 + j] as i64).sum();
    assert_eq!(total, 9);
}
