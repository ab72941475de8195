//! Tests of the log-level labels.

use cpp_linter::logger::{LogLevel, SimpleLogger};

#[test]
fn trace_log() {
    assert!(SimpleLogger::level_color(&LogLevel::Trace).contains("TRACE"));
}

#[test]
fn level_labels() {
    assert!(SimpleLogger::level_color(&LogLevel::Error).contains("ERROR"));
    assert!(SimpleLogger::level_color(&LogLevel::Warn).contains(" WARN"));
    assert!(SimpleLogger::level_color(&LogLevel::Info).contains(" INFO"));
    assert!(SimpleLogger::level_color(&LogLevel::Debug).contains("DEBUG"));
    assert!(SimpleLogger::level_color(&LogLevel::Trace).contains("TRACE"));
}
