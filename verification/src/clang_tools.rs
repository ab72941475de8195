//! Adapters for the output of the clang analysis tools.

pub mod clang_format;
