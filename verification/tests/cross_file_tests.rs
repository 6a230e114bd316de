use smart_diff::cross_file::{file_tracking_stats, all_file_paths};

#[test]
fn per_file_move_counts() {
    let moves = vec![
        ("a.java".to_string(), "b.java".to_string()),
        ("a.java".to_string(), "c.java".to_string()),
    ];
    let renames = vec![("c.java".to_string(), "a.java".to_string())];
    let a = file_tracking_stats("a.java", 5, 3, &moves, &renames);
    assert_eq!(a.total_functions, 5);
    assert_eq!(a.functions_moved_out, 2);
    assert_eq!(a.functions_moved_in, 1);
    assert_eq!(a.functions_renamed, 1);
    assert_eq!(a.net_function_change, -2);
    let c = file_tracking_stats("c.java", 1, 4, &moves, &renames);
    assert_eq!(c.functions_moved_out, 1);
    assert_eq!(c.functions_moved_in, 1);
    assert_eq!(c.net_function_change, 3);
}

#[test]
fn file_paths_union() {
    let a = vec!["x".to_string(), "y".to_string()];
    let b = vec!["y".to_string(), "z".to_string(), "x".to_string()];
    assert_eq!(all_file_paths(&a, &b), vec!["x".to_string(), "y".to_string(), "z".to_string()]);
}
