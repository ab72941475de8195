//! The colouring of log-level labels for terminal output. The decision which
//! colour a level earns is verified; painting itself is the `colored`
//! crate's.

use colored::Colorize;
use vstd::prelude::*;

verus! {

/// The severity of one log line.
#[derive(Debug, PartialEq, Eq, Structural, Clone, Copy)]
pub enum LogLevel {
    Error,
    Warn,
    Info,
    Debug,
    Trace,
}

/// The level's label, upper-case and padded to a fixed width of five.
pub open spec fn spec_level_name(level: LogLevel) -> Seq<char> {
    match level {
        LogLevel::Error => "ERROR"@,
        LogLevel::Warn => " WARN"@,
        LogLevel::Info => " INFO"@,
        LogLevel::Debug => "DEBUG"@,
        LogLevel::Trace => "TRACE"@,
    }
}

/// The ANSI style prefix of the level's colour, bold: errors red, warnings
/// yellow, information green, debug blue and trace magenta.
pub open spec fn spec_level_style(level: LogLevel) -> Seq<char> {
    match level {
        LogLevel::Error => "\u{1b}[1;31m"@,
        LogLevel::Warn => "\u{1b}[1;33m"@,
        LogLevel::Info => "\u{1b}[1;32m"@,
        LogLevel::Debug => "\u{1b}[1;34m"@,
        LogLevel::Trace => "\u{1b}[1;35m"@,
    }
}

/// Relies on `colored::Colorize::red`, `bold` and the styled display: the
/// result is the input bare (colours disabled) or wrapped in exactly the
/// bold-red style prefix and the reset suffix, as long as the input holds no
/// escape character of its own.
#[verifier::external_body]
fn paint_red(s: &str) -> (r: String)
    requires
        forall|i: int| 0 <= i < s@.len() ==> s@[i] != '\u{1b}',
    ensures
        r@ == s@ || r@ == "\u{1b}[1;31m"@ + s@ + "\u{1b}[0m"@,
{
    s.red().bold().to_string()
}

/// Relies on `colored::Colorize::yellow` and `bold`, as [`paint_red`] does.
#[verifier::external_body]
fn paint_yellow(s: &str) -> (r: String)
    requires
        forall|i: int| 0 <= i < s@.len() ==> s@[i] != '\u{1b}',
    ensures
        r@ == s@ || r@ == "\u{1b}[1;33m"@ + s@ + "\u{1b}[0m"@,
{
    s.yellow().bold().to_string()
}

/// Relies on `colored::Colorize::green` and `bold`, as [`paint_red`] does.
#[verifier::external_body]
fn paint_green(s: &str) -> (r: String)
    requires
        forall|i: int| 0 <= i < s@.len() ==> s@[i] != '\u{1b}',
    ensures
        r@ == s@ || r@ == "\u{1b}[1;32m"@ + s@ + "\u{1b}[0m"@,
{
    s.green().bold().to_string()
}

/// Relies on `colored::Colorize::blue` and `bold`, as [`paint_red`] does.
#[verifier::external_body]
fn paint_blue(s: &str) -> (r: String)
    requires
        forall|i: int| 0 <= i < s@.len() ==> s@[i] != '\u{1b}',
    ensures
        r@ == s@ || r@ == "\u{1b}[1;34m"@ + s@ + "\u{1b}[0m"@,
{
    s.blue().bold().to_string()
}

/// Relies on `colored::Colorize::magenta` and `bold`, as [`paint_red`] does.
#[verifier::external_body]
fn paint_magenta(s: &str) -> (r: String)
    requires
        forall|i: int| 0 <= i < s@.len() ==> s@[i] != '\u{1b}',
    ensures
        r@ == s@ || r@ == "\u{1b}[1;35m"@ + s@ + "\u{1b}[0m"@,
{
    s.magenta().bold().to_string()
}

/// The terminal logger. Its formatting and sinks live with the surrounding
/// process; the level-to-colour decision is here.
#[derive(Default)]
pub struct SimpleLogger;

impl SimpleLogger {
    /// The level's padded upper-case label, painted in the level's colour:
    /// bare when colours are disabled, and otherwise wrapped in exactly the
    /// level's bold style prefix and the reset suffix.
    pub fn level_color(level: &LogLevel) -> (r: String)
        ensures
            r@ == spec_level_name(*level) || r@ == spec_level_style(*level) + spec_level_name(
                *level,
            ) + "\u{1b}[0m"@,
    {
        proof {
            reveal_strlit("ERROR");
            reveal_strlit(" WARN");
            reveal_strlit(" INFO");
            reveal_strlit("DEBUG");
            reveal_strlit("TRACE");
        }
        match level {
            LogLevel::Error => paint_red("ERROR"),
            LogLevel::Warn => paint_yellow(" WARN"),
            LogLevel::Info => paint_green(" INFO"),
            LogLevel::Debug => paint_blue("DEBUG"),
            LogLevel::Trace => paint_magenta("TRACE"),
        }
    }
}

} // verus!
