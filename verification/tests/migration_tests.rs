use smart_diff::migration::{
    SymbolKind, SymbolRecord, FileSymbols, TrackedKinds, SymbolMigration, should_track_symbol,
    find_matching_symbol, identify_symbol_migrations, group_migrations_by_files, track_migrations,
};

fn sym(name: &str, kind: SymbolKind, line: usize) -> SymbolRecord {
    SymbolRecord { name: name.to_string(), kind, line }
}

fn file(path: &str, symbols: Vec<SymbolRecord>) -> FileSymbols {
    FileSymbols { file_path: path.to_string(), symbols }
}

#[test]
fn tracked_kinds() {
    let t = TrackedKinds { track_functions: true, track_classes: false, track_variables: true };
    assert!(should_track_symbol(&t, SymbolKind::Method));
    assert!(!should_track_symbol(&t, SymbolKind::Interface));
    assert!(should_track_symbol(&t, SymbolKind::Field));
    assert!(!should_track_symbol(&t, SymbolKind::Other));
}

#[test]
fn symbols_are_found_by_name_then_by_place() {
    let target = vec![
        file("a.java", vec![sym("run", SymbolKind::Class, 1)]),
        file("b.java", vec![sym("run", SymbolKind::Function, 40), sym("start", SymbolKind::Function, 12)]),
    ];
    let exact = find_matching_symbol("run", SymbolKind::Function, 5, &target).unwrap();
    assert_eq!(exact.file, "b.java");
    assert!(!exact.was_renamed);
    let renamed = find_matching_symbol("begin", SymbolKind::Function, 5, &target).unwrap();
    assert_eq!(renamed.file, "b.java");
    assert!(renamed.was_renamed);
    assert_eq!(renamed.new_name.as_deref(), Some("start"));
    assert!(find_matching_symbol("begin", SymbolKind::Function, 100, &target).is_none());
}

#[test]
fn migrations_and_groups() {
    let t = TrackedKinds { track_functions: true, track_classes: true, track_variables: true };
    let source = vec![file("old.java", vec![sym("f", SymbolKind::Function, 1), sym("g", SymbolKind::Function, 30)])];
    let target = vec![
        file("old.java", vec![sym("g", SymbolKind::Function, 30)]),
        file("new.java", vec![sym("f", SymbolKind::Function, 2)]),
    ];
    let ms = identify_symbol_migrations(&t, &source, &target);
    assert_eq!(ms.len(), 1);
    assert_eq!(ms[0].symbol_name, "f");
    assert_eq!(ms[0].symbol_kind, "Function");
    assert_eq!(ms[0].target_file, "new.java");
    let m = |name: &str, from: &str, to: &str| SymbolMigration {
        symbol_name: name.to_string(),
        symbol_kind: "Function".to_string(),
        source_file: from.to_string(),
        target_file: to.to_string(),
        was_renamed: false,
        new_name: None,
    };
    let groups = group_migrations_by_files(&vec![m("a", "x", "y"), m("b", "x", "z"), m("c", "x", "y")]);
    assert_eq!(groups.len(), 2);
    assert_eq!(groups[0].migrated_symbols, vec!["a".to_string(), "c".to_string()]);
    assert_eq!(groups[1].target_file, "z");
}

#[test]
fn tracking_counts_migrations_and_groups() {
    let t = TrackedKinds { track_functions: true, track_classes: true, track_variables: false };
    let source = vec![file("old.java", vec![
        sym("f", SymbolKind::Function, 1),
        sym("C", SymbolKind::Class, 10),
        sym("v", SymbolKind::Variable, 20),
    ])];
    let target = vec![
        file("new.java", vec![sym("f", SymbolKind::Function, 2), sym("C", SymbolKind::Class, 11)]),
        file("vars.java", vec![sym("v", SymbolKind::Variable, 1)]),
    ];
    let result = track_migrations(&t, &source, &target);
    assert_eq!(result.symbol_migrations.len(), 2);
    assert_eq!(result.symbol_migrations[0].symbol_name, "f");
    assert_eq!(result.symbol_migrations[1].symbol_name, "C");
    assert_eq!(result.file_migrations.len(), 1);
    assert_eq!(result.file_migrations[0].migrated_symbols, vec!["f".to_string(), "C".to_string()]);
    assert!(result.reference_changes.is_empty());
    assert_eq!(result.statistics.total_symbols, 2);
    assert_eq!(result.statistics.migrated_symbols, 2);
    assert_eq!(result.statistics.file_migration_count, 1);
    assert_eq!(result.statistics.reference_change_count, 0);
}

#[test]
fn renamed_migrations_carry_the_new_name() {
    let t = TrackedKinds { track_functions: true, track_classes: true, track_variables: true };
    let source = vec![file("old.java", vec![sym("begin", SymbolKind::Function, 5), sym("keep", SymbolKind::Function, 50)])];
    let target = vec![
        file("old.java", vec![sym("keep", SymbolKind::Function, 50)]),
        file("new.java", vec![sym("start", SymbolKind::Function, 7)]),
    ];
    let ms = identify_symbol_migrations(&t, &source, &target);
    assert_eq!(ms.len(), 1);
    assert!(ms[0].was_renamed);
    assert_eq!(ms[0].new_name.as_deref(), Some("start"));
    assert_eq!(ms[0].target_file, "new.java");
}
