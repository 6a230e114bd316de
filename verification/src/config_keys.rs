//! Configuration keys of the command line: the keys that `config get`
//! knows, and the keys that `config list` shows by section.
use vstd::prelude::*;
use crate::text::str_eq;
use crate::cli_support::str_views;

verus! {

/// A configuration key that `config get` reads.
#[derive(Debug, Clone, Copy, PartialEq, Eq, Structural)]
pub enum ConfigKey {
    ParserMaxFileSize,
    ParserParseTimeout,
    ParserEnableErrorRecovery,
    SemanticMaxResolutionDepth,
    SemanticEnableCrossFileAnalysis,
    SemanticSymbolCacheSize,
    DiffEngineDefaultSimilarityThreshold,
    DiffEngineEnableRefactoringDetection,
    DiffEngineEnableCrossFileTracking,
    DiffEngineMaxTreeDepth,
    OutputDefaultFormat,
    OutputEnableColors,
    OutputIncludeTimestamps,
    CliDefaultVerbosity,
    CliEnableProgress,
    CliDefaultIncludePatterns,
    CliDefaultExcludePatterns,
}

/// The dotted name of a key.
pub open spec fn key_text(k: ConfigKey) -> Seq<char> {
    match k {
        ConfigKey::ParserMaxFileSize => "parser.max_file_size"@,
        ConfigKey::ParserParseTimeout => "parser.parse_timeout"@,
        ConfigKey::ParserEnableErrorRecovery => "parser.enable_error_recovery"@,
        ConfigKey::SemanticMaxResolutionDepth => "semantic.max_resolution_depth"@,
        ConfigKey::SemanticEnableCrossFileAnalysis => "semantic.enable_cross_file_analysis"@,
        ConfigKey::SemanticSymbolCacheSize => "semantic.symbol_cache_size"@,
        ConfigKey::DiffEngineDefaultSimilarityThreshold => "diff_engine.default_similarity_threshold"@,
        ConfigKey::DiffEngineEnableRefactoringDetection => "diff_engine.enable_refactoring_detection"@,
        ConfigKey::DiffEngineEnableCrossFileTracking => "diff_engine.enable_cross_file_tracking"@,
        ConfigKey::DiffEngineMaxTreeDepth => "diff_engine.max_tree_depth"@,
        ConfigKey::OutputDefaultFormat => "output.default_format"@,
        ConfigKey::OutputEnableColors => "output.enable_colors"@,
        ConfigKey::OutputIncludeTimestamps => "output.include_timestamps"@,
        ConfigKey::CliDefaultVerbosity => "cli.default_verbosity"@,
        ConfigKey::CliEnableProgress => "cli.enable_progress"@,
        ConfigKey::CliDefaultIncludePatterns => "cli.default_include_patterns"@,
        ConfigKey::CliDefaultExcludePatterns => "cli.default_exclude_patterns"@,
    }
}

/// The dotted name of a key.
pub fn key_name(k: ConfigKey) -> (res: &'static str)
    ensures
        res@ == key_text(k),
{
    match k {
        ConfigKey::ParserMaxFileSize => "parser.max_file_size",
        ConfigKey::ParserParseTimeout => "parser.parse_timeout",
        ConfigKey::ParserEnableErrorRecovery => "parser.enable_error_recovery",
        ConfigKey::SemanticMaxResolutionDepth => "semantic.max_resolution_depth",
        ConfigKey::SemanticEnableCrossFileAnalysis => "semantic.enable_cross_file_analysis",
        ConfigKey::SemanticSymbolCacheSize => "semantic.symbol_cache_size",
        ConfigKey::DiffEngineDefaultSimilarityThreshold => "diff_engine.default_similarity_threshold",
        ConfigKey::DiffEngineEnableRefactoringDetection => "diff_engine.enable_refactoring_detection",
        ConfigKey::DiffEngineEnableCrossFileTracking => "diff_engine.enable_cross_file_tracking",
        ConfigKey::DiffEngineMaxTreeDepth => "diff_engine.max_tree_depth",
        ConfigKey::OutputDefaultFormat => "output.default_format",
        ConfigKey::OutputEnableColors => "output.enable_colors",
        ConfigKey::OutputIncludeTimestamps => "output.include_timestamps",
        ConfigKey::CliDefaultVerbosity => "cli.default_verbosity",
        ConfigKey::CliEnableProgress => "cli.enable_progress",
        ConfigKey::CliDefaultIncludePatterns => "cli.default_include_patterns",
        ConfigKey::CliDefaultExcludePatterns => "cli.default_exclude_patterns",
    }
}

/// The key named `name`, where some key is.
pub open spec fn key_named(name: Seq<char>) -> Option<ConfigKey> {
    if name == "parser.max_file_size"@ {
        Some(ConfigKey::ParserMaxFileSize)
    } else if name == "parser.parse_timeout"@ {
        Some(ConfigKey::ParserParseTimeout)
    } else if name == "parser.enable_error_recovery"@ {
        Some(ConfigKey::ParserEnableErrorRecovery)
    } else if name == "semantic.max_resolution_depth"@ {
        Some(ConfigKey::SemanticMaxResolutionDepth)
    } else if name == "semantic.enable_cross_file_analysis"@ {
        Some(ConfigKey::SemanticEnableCrossFileAnalysis)
    } else if name == "semantic.symbol_cache_size"@ {
        Some(ConfigKey::SemanticSymbolCacheSize)
    } else if name == "diff_engine.default_similarity_threshold"@ {
        Some(ConfigKey::DiffEngineDefaultSimilarityThreshold)
    } else if name == "diff_engine.enable_refactoring_detection"@ {
        Some(ConfigKey::DiffEngineEnableRefactoringDetection)
    } else if name == "diff_engine.enable_cross_file_tracking"@ {
        Some(ConfigKey::DiffEngineEnableCrossFileTracking)
    } else if name == "diff_engine.max_tree_depth"@ {
        Some(ConfigKey::DiffEngineMaxTreeDepth)
    } else if name == "output.default_format"@ {
        Some(ConfigKey::OutputDefaultFormat)
    } else if name == "output.enable_colors"@ {
        Some(ConfigKey::OutputEnableColors)
    } else if name == "output.include_timestamps"@ {
        Some(ConfigKey::OutputIncludeTimestamps)
    } else if name == "cli.default_verbosity"@ {
        Some(ConfigKey::CliDefaultVerbosity)
    } else if name == "cli.enable_progress"@ {
        Some(ConfigKey::CliEnableProgress)
    } else if name == "cli.default_include_patterns"@ {
        Some(ConfigKey::CliDefaultIncludePatterns)
    } else if name == "cli.default_exclude_patterns"@ {
        Some(ConfigKey::CliDefaultExcludePatterns)
    } else {
        None
    }
}

/// The key named `name`; `None` for a name that no key has.
pub fn parse_config_key(name: &str) -> (res: Option<ConfigKey>)
    ensures
        res == key_named(name@),
{
    if str_eq(name, "parser.max_file_size") {
        return Some(ConfigKey::ParserMaxFileSize);
    }
    if str_eq(name, "parser.parse_timeout") {
        return Some(ConfigKey::ParserParseTimeout);
    }
    if str_eq(name, "parser.enable_error_recovery") {
        return Some(ConfigKey::ParserEnableErrorRecovery);
    }
    if str_eq(name, "semantic.max_resolution_depth") {
        return Some(ConfigKey::SemanticMaxResolutionDepth);
    }
    if str_eq(name, "semantic.enable_cross_file_analysis") {
        return Some(ConfigKey::SemanticEnableCrossFileAnalysis);
    }
    if str_eq(name, "semantic.symbol_cache_size") {
        return Some(ConfigKey::SemanticSymbolCacheSize);
    }
    if str_eq(name, "diff_engine.default_similarity_threshold") {
        return Some(ConfigKey::DiffEngineDefaultSimilarityThreshold);
    }
    if str_eq(name, "diff_engine.enable_refactoring_detection") {
        return Some(ConfigKey::DiffEngineEnableRefactoringDetection);
    }
    if str_eq(name, "diff_engine.enable_cross_file_tracking") {
        return Some(ConfigKey::DiffEngineEnableCrossFileTracking);
    }
    if str_eq(name, "diff_engine.max_tree_depth") {
        return Some(ConfigKey::DiffEngineMaxTreeDepth);
    }
    if str_eq(name, "output.default_format") {
        return Some(ConfigKey::OutputDefaultFormat);
    }
    if str_eq(name, "output.enable_colors") {
        return Some(ConfigKey::OutputEnableColors);
    }
    if str_eq(name, "output.include_timestamps") {
        return Some(ConfigKey::OutputIncludeTimestamps);
    }
    if str_eq(name, "cli.default_verbosity") {
        return Some(ConfigKey::CliDefaultVerbosity);
    }
    if str_eq(name, "cli.enable_progress") {
        return Some(ConfigKey::CliEnableProgress);
    }
    if str_eq(name, "cli.default_include_patterns") {
        return Some(ConfigKey::CliDefaultIncludePatterns);
    }
    if str_eq(name, "cli.default_exclude_patterns") {
        return Some(ConfigKey::CliDefaultExcludePatterns);
    }
    None
}

/// The sections of keys that `config list` shows, each with its keys.
pub open spec fn listed_sections() -> Seq<(Seq<char>, Seq<Seq<char>>)> {
    seq![
        ("Parser"@, seq!["parser.max_file_size"@, "parser.parse_timeout"@, "parser.enable_error_recovery"@]),
        ("Semantic Analysis"@, seq!["semantic.max_resolution_depth"@, "semantic.enable_cross_file_analysis"@, "semantic.symbol_cache_size"@]),
        ("Diff Engine"@, seq!["diff_engine.default_similarity_threshold"@, "diff_engine.enable_refactoring_detection"@, "diff_engine.enable_cross_file_tracking"@, "diff_engine.max_tree_depth"@]),
        ("Output"@, seq!["output.default_format"@, "output.enable_colors"@, "output.include_timestamps"@]),
        ("CLI"@, seq!["cli.default_verbosity"@, "cli.enable_progress"@, "cli.default_include_patterns"@, "cli.default_exclude_patterns"@]),
    ]
}

pub open spec fn section_views(v: Seq<(&str, Vec<&str>)>) -> Seq<(Seq<char>, Seq<Seq<char>>)> {
    Seq::new(v.len(), |i: int| (v[i].0@, str_views(v[i].1@)))
}

/// The sections of keys that `config list` shows.
pub fn configuration_sections() -> (res: Vec<(&'static str, Vec<&'static str>)>)
    ensures
        section_views(res@) == listed_sections(),
{
    let s1 = vec!["parser.max_file_size", "parser.parse_timeout", "parser.enable_error_recovery"];
    let s2 = vec!["semantic.max_resolution_depth", "semantic.enable_cross_file_analysis", "semantic.symbol_cache_size"];
    let s3 = vec!["diff_engine.default_similarity_threshold", "diff_engine.enable_refactoring_detection", "diff_engine.enable_cross_file_tracking", "diff_engine.max_tree_depth"];
    let s4 = vec!["output.default_format", "output.enable_colors", "output.include_timestamps"];
    let s5 = vec!["cli.default_verbosity", "cli.enable_progress", "cli.default_include_patterns", "cli.default_exclude_patterns"];
    assert(str_views(s1@) =~= listed_sections()[0].1);
    assert(str_views(s2@) =~= listed_sections()[1].1);
    assert(str_views(s3@) =~= listed_sections()[2].1);
    assert(str_views(s4@) =~= listed_sections()[3].1);
    assert(str_views(s5@) =~= listed_sections()[4].1);
    let res = vec![("Parser", s1), ("Semantic Analysis", s2), ("Diff Engine", s3), ("Output", s4), ("CLI", s5)];
    assert(section_views(res@) =~= listed_sections());
    res
}

/// Every key that `config get` knows is found again by its name.
pub proof fn lemma_key_names_round_trip(k: ConfigKey)
    ensures
        key_named(key_text(k)) == Some(k),
{
    reveal_strlit("parser.max_file_size");
    reveal_strlit("parser.parse_timeout");
    reveal_strlit("parser.enable_error_recovery");
    reveal_strlit("semantic.max_resolution_depth");
    reveal_strlit("semantic.enable_cross_file_analysis");
    reveal_strlit("semantic.symbol_cache_size");
    reveal_strlit("diff_engine.default_similarity_threshold");
    reveal_strlit("diff_engine.enable_refactoring_detection");
    reveal_strlit("diff_engine.enable_cross_file_tracking");
    reveal_strlit("diff_engine.max_tree_depth");
    reveal_strlit("output.default_format");
    reveal_strlit("output.enable_colors");
    reveal_strlit("output.include_timestamps");
    reveal_strlit("cli.default_verbosity");
    reveal_strlit("cli.enable_progress");
    reveal_strlit("cli.default_include_patterns");
    reveal_strlit("cli.default_exclude_patterns");
    // Each name differs from every name tried before it.
    match k {
        ConfigKey::ParserMaxFileSize => {},
        ConfigKey::ParserParseTimeout => {
            assert("parser.parse_timeout"@[7] != "parser.max_file_size"@[7]);
        },
        ConfigKey::ParserEnableErrorRecovery => {
            assert("parser.enable_error_recovery"@[7] != "parser.max_file_size"@[7]);
            assert("parser.enable_error_recovery"@[7] != "parser.parse_timeout"@[7]);
        },
        ConfigKey::SemanticMaxResolutionDepth => {
            assert("semantic.max_resolution_depth"@[0] != "parser.max_file_size"@[0]);
            assert("semantic.max_resolution_depth"@[0] != "parser.parse_timeout"@[0]);
            assert("semantic.max_resolution_depth"@[0] != "parser.enable_error_recovery"@[0]);
        },
        ConfigKey::SemanticEnableCrossFileAnalysis => {
            assert("semantic.enable_cross_file_analysis"@[0] != "parser.max_file_size"@[0]);
            assert("semantic.enable_cross_file_analysis"@[0] != "parser.parse_timeout"@[0]);
            assert("semantic.enable_cross_file_analysis"@[0] != "parser.enable_error_recovery"@[0]);
            assert("semantic.enable_cross_file_analysis"@[9] != "semantic.max_resolution_depth"@[9]);
        },
        ConfigKey::SemanticSymbolCacheSize => {
            assert("semantic.symbol_cache_size"@[0] != "parser.max_file_size"@[0]);
            assert("semantic.symbol_cache_size"@[0] != "parser.parse_timeout"@[0]);
            assert("semantic.symbol_cache_size"@[0] != "parser.enable_error_recovery"@[0]);
            assert("semantic.symbol_cache_size"@[9] != "semantic.max_resolution_depth"@[9]);
            assert("semantic.symbol_cache_size"@[9] != "semantic.enable_cross_file_analysis"@[9]);
        },
        ConfigKey::DiffEngineDefaultSimilarityThreshold => {
            assert("diff_engine.default_similarity_threshold"@[0] != "parser.max_file_size"@[0]);
            assert("diff_engine.default_similarity_threshold"@[0] != "parser.parse_timeout"@[0]);
            assert("diff_engine.default_similarity_threshold"@[0] != "parser.enable_error_recovery"@[0]);
            assert("diff_engine.default_similarity_threshold"@[0] != "semantic.max_resolution_depth"@[0]);
            assert("diff_engine.default_similarity_threshold"@[0] != "semantic.enable_cross_file_analysis"@[0]);
            assert("diff_engine.default_similarity_threshold"@[0] != "semantic.symbol_cache_size"@[0]);
        },
        ConfigKey::DiffEngineEnableRefactoringDetection => {
            assert("diff_engine.enable_refactoring_detection"@[0] != "parser.max_file_size"@[0]);
            assert("diff_engine.enable_refactoring_detection"@[0] != "parser.parse_timeout"@[0]);
            assert("diff_engine.enable_refactoring_detection"@[0] != "parser.enable_error_recovery"@[0]);
            assert("diff_engine.enable_refactoring_detection"@[0] != "semantic.max_resolution_depth"@[0]);
            assert("diff_engine.enable_refactoring_detection"@[0] != "semantic.enable_cross_file_analysis"@[0]);
            assert("diff_engine.enable_refactoring_detection"@[0] != "semantic.symbol_cache_size"@[0]);
            assert("diff_engine.enable_refactoring_detection"@[12] != "diff_engine.default_similarity_threshold"@[12]);
        },
        ConfigKey::DiffEngineEnableCrossFileTracking => {
            assert("diff_engine.enable_cross_file_tracking"@[0] != "parser.max_file_size"@[0]);
            assert("diff_engine.enable_cross_file_tracking"@[0] != "parser.parse_timeout"@[0]);
            assert("diff_engine.enable_cross_file_tracking"@[0] != "parser.enable_error_recovery"@[0]);
            assert("diff_engine.enable_cross_file_tracking"@[0] != "semantic.max_resolution_depth"@[0]);
            assert("diff_engine.enable_cross_file_tracking"@[0] != "semantic.enable_cross_file_analysis"@[0]);
            assert("diff_engine.enable_cross_file_tracking"@[0] != "semantic.symbol_cache_size"@[0]);
            assert("diff_engine.enable_cross_file_tracking"@[12] != "diff_engine.default_similarity_threshold"@[12]);
            assert("diff_engine.enable_cross_file_tracking"@[19] != "diff_engine.enable_refactoring_detection"@[19]);
        },
        ConfigKey::DiffEngineMaxTreeDepth => {
            assert("diff_engine.max_tree_depth"@[0] != "parser.max_file_size"@[0]);
            assert("diff_engine.max_tree_depth"@[0] != "parser.parse_timeout"@[0]);
            assert("diff_engine.max_tree_depth"@[0] != "parser.enable_error_recovery"@[0]);
            assert("diff_engine.max_tree_depth"@[0] != "semantic.max_resolution_depth"@[0]);
            assert("diff_engine.max_tree_depth"@[0] != "semantic.enable_cross_file_analysis"@[0]);
            assert("diff_engine.max_tree_depth"@[0] != "semantic.symbol_cache_size"@[0]);
            assert("diff_engine.max_tree_depth"@[12] != "diff_engine.default_similarity_threshold"@[12]);
            assert("diff_engine.max_tree_depth"@[12] != "diff_engine.enable_refactoring_detection"@[12]);
            assert("diff_engine.max_tree_depth"@[12] != "diff_engine.enable_cross_file_tracking"@[12]);
        },
        ConfigKey::OutputDefaultFormat => {
            assert("output.default_format"@[0] != "parser.max_file_size"@[0]);
            assert("output.default_format"@[0] != "parser.parse_timeout"@[0]);
            assert("output.default_format"@[0] != "parser.enable_error_recovery"@[0]);
            assert("output.default_format"@[0] != "semantic.max_resolution_depth"@[0]);
            assert("output.default_format"@[0] != "semantic.enable_cross_file_analysis"@[0]);
            assert("output.default_format"@[0] != "semantic.symbol_cache_size"@[0]);
            assert("output.default_format"@[0] != "diff_engine.default_similarity_threshold"@[0]);
            assert("output.default_format"@[0] != "diff_engine.enable_refactoring_detection"@[0]);
            assert("output.default_format"@[0] != "diff_engine.enable_cross_file_tracking"@[0]);
            assert("output.default_format"@[0] != "diff_engine.max_tree_depth"@[0]);
        },
        ConfigKey::OutputEnableColors => {
            assert("output.enable_colors"@[0] != "parser.max_file_size"@[0]);
            assert("output.enable_colors"@[0] != "parser.parse_timeout"@[0]);
            assert("output.enable_colors"@[0] != "parser.enable_error_recovery"@[0]);
            assert("output.enable_colors"@[0] != "semantic.max_resolution_depth"@[0]);
            assert("output.enable_colors"@[0] != "semantic.enable_cross_file_analysis"@[0]);
            assert("output.enable_colors"@[0] != "semantic.symbol_cache_size"@[0]);
            assert("output.enable_colors"@[0] != "diff_engine.default_similarity_threshold"@[0]);
            assert("output.enable_colors"@[0] != "diff_engine.enable_refactoring_detection"@[0]);
            assert("output.enable_colors"@[0] != "diff_engine.enable_cross_file_tracking"@[0]);
            assert("output.enable_colors"@[0] != "diff_engine.max_tree_depth"@[0]);
            assert("output.enable_colors"@[7] != "output.default_format"@[7]);
        },
        ConfigKey::OutputIncludeTimestamps => {
            assert("output.include_timestamps"@[0] != "parser.max_file_size"@[0]);
            assert("output.include_timestamps"@[0] != "parser.parse_timeout"@[0]);
            assert("output.include_timestamps"@[0] != "parser.enable_error_recovery"@[0]);
            assert("output.include_timestamps"@[0] != "semantic.max_resolution_depth"@[0]);
            assert("output.include_timestamps"@[0] != "semantic.enable_cross_file_analysis"@[0]);
            assert("output.include_timestamps"@[0] != "semantic.symbol_cache_size"@[0]);
            assert("output.include_timestamps"@[0] != "diff_engine.default_similarity_threshold"@[0]);
            assert("output.include_timestamps"@[0] != "diff_engine.enable_refactoring_detection"@[0]);
            assert("output.include_timestamps"@[0] != "diff_engine.enable_cross_file_tracking"@[0]);
            assert("output.include_timestamps"@[0] != "diff_engine.max_tree_depth"@[0]);
            assert("output.include_timestamps"@[7] != "output.default_format"@[7]);
            assert("output.include_timestamps"@[7] != "output.enable_colors"@[7]);
        },
        ConfigKey::CliDefaultVerbosity => {
            assert("cli.default_verbosity"@[0] != "parser.max_file_size"@[0]);
            assert("cli.default_verbosity"@[0] != "parser.parse_timeout"@[0]);
            assert("cli.default_verbosity"@[0] != "parser.enable_error_recovery"@[0]);
            assert("cli.default_verbosity"@[0] != "semantic.max_resolution_depth"@[0]);
            assert("cli.default_verbosity"@[0] != "semantic.enable_cross_file_analysis"@[0]);
            assert("cli.default_verbosity"@[0] != "semantic.symbol_cache_size"@[0]);
            assert("cli.default_verbosity"@[0] != "diff_engine.default_similarity_threshold"@[0]);
            assert("cli.default_verbosity"@[0] != "diff_engine.enable_refactoring_detection"@[0]);
            assert("cli.default_verbosity"@[0] != "diff_engine.enable_cross_file_tracking"@[0]);
            assert("cli.default_verbosity"@[0] != "diff_engine.max_tree_depth"@[0]);
            assert("cli.default_verbosity"@[0] != "output.default_format"@[0]);
            assert("cli.default_verbosity"@[0] != "output.enable_colors"@[0]);
            assert("cli.default_verbosity"@[0] != "output.include_timestamps"@[0]);
        },
        ConfigKey::CliEnableProgress => {
            assert("cli.enable_progress"@[0] != "parser.max_file_size"@[0]);
            assert("cli.enable_progress"@[0] != "parser.parse_timeout"@[0]);
            assert("cli.enable_progress"@[0] != "parser.enable_error_recovery"@[0]);
            assert("cli.enable_progress"@[0] != "semantic.max_resolution_depth"@[0]);
            assert("cli.enable_progress"@[0] != "semantic.enable_cross_file_analysis"@[0]);
            assert("cli.enable_progress"@[0] != "semantic.symbol_cache_size"@[0]);
            assert("cli.enable_progress"@[0] != "diff_engine.default_similarity_threshold"@[0]);
            assert("cli.enable_progress"@[0] != "diff_engine.enable_refactoring_detection"@[0]);
            assert("cli.enable_progress"@[0] != "diff_engine.enable_cross_file_tracking"@[0]);
            assert("cli.enable_progress"@[0] != "diff_engine.max_tree_depth"@[0]);
            assert("cli.enable_progress"@[0] != "output.default_format"@[0]);
            assert("cli.enable_progress"@[0] != "output.enable_colors"@[0]);
            assert("cli.enable_progress"@[0] != "output.include_timestamps"@[0]);
            assert("cli.enable_progress"@[4] != "cli.default_verbosity"@[4]);
        },
        ConfigKey::CliDefaultIncludePatterns => {
            assert("cli.default_include_patterns"@[0] != "parser.max_file_size"@[0]);
            assert("cli.default_include_patterns"@[0] != "parser.parse_timeout"@[0]);
            assert("cli.default_include_patterns"@[0] != "parser.enable_error_recovery"@[0]);
            assert("cli.default_include_patterns"@[0] != "semantic.max_resolution_depth"@[0]);
            assert("cli.default_include_patterns"@[0] != "semantic.enable_cross_file_analysis"@[0]);
            assert("cli.default_include_patterns"@[0] != "semantic.symbol_cache_size"@[0]);
            assert("cli.default_include_patterns"@[0] != "diff_engine.default_similarity_threshold"@[0]);
            assert("cli.default_include_patterns"@[0] != "diff_engine.enable_refactoring_detection"@[0]);
            assert("cli.default_include_patterns"@[0] != "diff_engine.enable_cross_file_tracking"@[0]);
            assert("cli.default_include_patterns"@[0] != "diff_engine.max_tree_depth"@[0]);
            assert("cli.default_include_patterns"@[0] != "output.default_format"@[0]);
            assert("cli.default_include_patterns"@[0] != "output.enable_colors"@[0]);
            assert("cli.default_include_patterns"@[0] != "output.include_timestamps"@[0]);
            assert("cli.default_include_patterns"@[12] != "cli.default_verbosity"@[12]);
            assert("cli.default_include_patterns"@[4] != "cli.enable_progress"@[4]);
        },
        ConfigKey::CliDefaultExcludePatterns => {
            assert("cli.default_exclude_patterns"@[0] != "parser.max_file_size"@[0]);
            assert("cli.default_exclude_patterns"@[0] != "parser.parse_timeout"@[0]);
            assert("cli.default_exclude_patterns"@[0] != "parser.enable_error_recovery"@[0]);
            assert("cli.default_exclude_patterns"@[0] != "semantic.max_resolution_depth"@[0]);
            assert("cli.default_exclude_patterns"@[0] != "semantic.enable_cross_file_analysis"@[0]);
            assert("cli.default_exclude_patterns"@[0] != "semantic.symbol_cache_size"@[0]);
            assert("cli.default_exclude_patterns"@[0] != "diff_engine.default_similarity_threshold"@[0]);
            assert("cli.default_exclude_patterns"@[0] != "diff_engine.enable_refactoring_detection"@[0]);
            assert("cli.default_exclude_patterns"@[0] != "diff_engine.enable_cross_file_tracking"@[0]);
            assert("cli.default_exclude_patterns"@[0] != "diff_engine.max_tree_depth"@[0]);
            assert("cli.default_exclude_patterns"@[0] != "output.default_format"@[0]);
            assert("cli.default_exclude_patterns"@[0] != "output.enable_colors"@[0]);
            assert("cli.default_exclude_patterns"@[0] != "output.include_timestamps"@[0]);
            assert("cli.default_exclude_patterns"@[12] != "cli.default_verbosity"@[12]);
            assert("cli.default_exclude_patterns"@[4] != "cli.enable_progress"@[4]);
            assert("cli.default_exclude_patterns"@[12] != "cli.default_include_patterns"@[12]);
        },
    }
}

/// Every key that `config list` shows is one that `config get` knows.
pub proof fn lemma_listed_keys_known(section: int, entry: int)
    requires
        0 <= section < listed_sections().len(),
        0 <= entry < listed_sections()[section].1.len(),
    ensures
        key_named(listed_sections()[section].1[entry]) is Some,
{
    if section == 0 {
        assert(entry == 0 || entry == 1 || entry == 2);
    } else if section == 1 {
        assert(entry == 0 || entry == 1 || entry == 2);
    } else if section == 2 {
        assert(entry == 0 || entry == 1 || entry == 2 || entry == 3);
    } else if section == 3 {
        assert(entry == 0 || entry == 1 || entry == 2);
    } else if section == 4 {
        assert(entry == 0 || entry == 1 || entry == 2 || entry == 3);
    }
}

} // verus!
