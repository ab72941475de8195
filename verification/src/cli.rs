//! Configuration options that callers hand to the core.

use vstd::prelude::*;

verus! {

/// Whether analysis is restricted to the lines a change set touches, and how
/// the restricting ranges are computed.
#[derive(Debug, PartialEq, Eq, Structural, Clone, Copy)]
pub enum LinesChangedOnly {
    /// No restriction: tools see the whole file.
    Off,
    /// Restrict to the diff's hunk ranges.
    Diff,
    /// Restrict to the added lines themselves, consolidated into ranges.
    On,
}

} // verus!
