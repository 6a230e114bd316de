use smart_diff::changes::ChangeType;
use smart_diff::smart::{
    FunctionRef, MatchVerdict, FunctionChange, classify_change_type, change_type_description,
    plan_function_changes, plan_matched_changes, unpaired_indices, DiffError, diff_statistics,
};
use smart_diff::matching::greedy_match;

fn f(name: &str, file: &str) -> FunctionRef {
    FunctionRef { name: name.to_string(), file_path: file.to_string() }
}

#[test]
fn smart_change_kinds() {
    assert_eq!(classify_change_type(&f("a", "x"), &f("a", "y"), false), ChangeType::CrossFileMove);
    assert_eq!(classify_change_type(&f("a", "x"), &f("b", "x"), true), ChangeType::Rename);
    assert_eq!(classify_change_type(&f("a", "x"), &f("b", "y"), false), ChangeType::Move);
    assert_eq!(classify_change_type(&f("a", "x"), &f("b", "x"), false), ChangeType::Modify);
    assert_eq!(change_type_description(ChangeType::CrossFileMove), "moved to different file");
    assert_eq!(change_type_description(ChangeType::Add), "changed");
}

#[test]
fn plan_after_greedy_matching() {
    let sources = vec![f("a", "x"), f("b", "x"), f("c", "x")];
    let targets = vec![f("a", "x"), f("z", "x"), f("b", "y")];
    let scores = vec![
        vec![Some(10), None, None],
        vec![None, None, Some(8)],
        vec![None, None, None],
    ];
    let m = greedy_match(&scores, 3);
    let verdicts = vec![
        MatchVerdict { identical: true, very_similar: true },
        MatchVerdict { identical: false, very_similar: true },
        MatchVerdict { identical: false, very_similar: false },
    ];
    let plan = plan_function_changes(&sources, &targets, &m.assignment, &verdicts, &m.unmatched_targets);
    assert_eq!(plan, vec![
        FunctionChange::Changed { source: 1, target: 2, kind: ChangeType::CrossFileMove },
        FunctionChange::Deleted { source: 2 },
        FunctionChange::Added { target: 1 },
    ]);
}

#[test]
fn unpaired_indices_on_each_side() {
    let pairs = vec![(0, 2), (2, 0)];
    assert_eq!(unpaired_indices(&pairs, 4, true), vec![1, 3]);
    assert_eq!(unpaired_indices(&pairs, 3, false), vec![1]);
    assert_eq!(unpaired_indices(&vec![], 2, true), vec![0, 1]);
}

#[test]
fn plan_of_a_matching() {
    let pairs = vec![(0, 1), (1, 0)];
    let identical = vec![true, false];
    let plan = plan_matched_changes(&pairs, &identical, 3, 3);
    assert_eq!(plan, vec![
        FunctionChange::Changed { source: 1, target: 0, kind: ChangeType::Modify },
        FunctionChange::Deleted { source: 2 },
        FunctionChange::Added { target: 2 },
    ]);
    assert_eq!(plan_matched_changes(&vec![], &vec![], 0, 1), vec![FunctionChange::Added { target: 0 }]);
}

#[test]
fn diff_error_messages() {
    assert_eq!(DiffError::ComparisonFailed("x".to_string()).message(), "Comparison failed: x");
    assert_eq!(DiffError::InvalidInput("bad".to_string()).message(), "Invalid input: bad");
    assert_eq!(DiffError::ProcessingError("io".to_string()).message(), "Processing error: io");
}

#[test]
fn statistics_of_a_comparison() {
    let changes = vec![
        FunctionChange::Changed { source: 0, target: 1, kind: ChangeType::Modify },
        FunctionChange::Changed { source: 1, target: 0, kind: ChangeType::Rename },
        FunctionChange::Deleted { source: 2 },
        FunctionChange::Added { target: 2 },
        FunctionChange::Added { target: 3 },
    ];
    let stats = diff_statistics(3, 4, 2, &changes);
    assert_eq!(stats.functions_compared, 7);
    assert_eq!(stats.functions_matched, 2);
    assert_eq!(stats.functions_added, 2);
    assert_eq!(stats.functions_removed, 1);
    assert_eq!(stats.functions_modified, 1);
}
