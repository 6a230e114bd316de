use vstd::prelude::*;

pub mod text;
pub mod edit_distance;
pub mod matching;
pub mod changes;
pub mod hierarchy;
pub mod ast;
pub mod paths;
pub mod names;
pub mod binja;
pub mod binary_matcher;
pub mod graph;
pub mod cli_support;
pub mod file_refactoring;
pub mod refactoring;
pub mod cross_file;
pub mod features;
pub mod smart;
pub mod config_keys;
pub mod migration;
pub mod order;

verus! {
}
