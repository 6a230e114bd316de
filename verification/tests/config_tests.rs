use smart_diff::config_keys::{ConfigKey, parse_config_key, key_name, configuration_sections};

#[test]
fn known_and_unknown_keys() {
    assert_eq!(parse_config_key("parser.max_file_size"), Some(ConfigKey::ParserMaxFileSize));
    assert_eq!(parse_config_key("cli.enable_progress"), Some(ConfigKey::CliEnableProgress));
    assert_eq!(parse_config_key("cli.default_include_patterns"), Some(ConfigKey::CliDefaultIncludePatterns));
    assert_eq!(parse_config_key("cli.default_exclude_patterns"), Some(ConfigKey::CliDefaultExcludePatterns));
    assert_eq!(parse_config_key("nope"), None);
    assert_eq!(key_name(ConfigKey::DiffEngineMaxTreeDepth), "diff_engine.max_tree_depth");
}

#[test]
fn listed_sections() {
    let sections = configuration_sections();
    assert_eq!(sections.len(), 5);
    assert_eq!(sections[0].0, "Parser");
    assert_eq!(sections[4].1.len(), 4);
    assert_eq!(sections[2].1[0], "diff_engine.default_similarity_threshold");
}

#[test]
fn listed_keys_are_known() {
    for (_, keys) in configuration_sections() {
        for key in keys {
            let k = parse_config_key(key);
            assert!(k.is_some(), "{}", key);
            assert_eq!(key_name(k.unwrap()), key);
        }
    }
}
