//! A CI-oriented code-quality gatekeeper core: it reconciles unified-diff
//! changed-line ranges with byte-offset-based tool output and assembles a
//! review plan for a pull-request hosting platform.

pub mod clang_tools;
pub mod cli;
pub mod common_fs;
pub mod git;
pub mod lint_error;
pub mod logger;
pub mod rest_api;
