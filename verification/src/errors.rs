//! The two validation failures that a conversion call can report.

use vstd::prelude::*;

verus! {

/// The input length is not a multiple of the configured code-unit width.
#[derive(Debug, Clone, PartialEq, Eq, Structural)]
pub struct WrongInputLen {
    pub input_len: usize,
    pub char_size: usize,
}

impl WrongInputLen {
    /// A short account of the failure.
    pub fn description(&self) -> (m: &'static str)
        ensures
            m@ == "input length was not valid for given char size"@,
    {
        "input length was not valid for given char size"
    }
}

/// The configured code-unit width is zero.
#[derive(Debug, Clone, PartialEq, Eq, Structural)]
pub struct CharSizeZero;

impl CharSizeZero {
    /// A short account of the failure.
    pub fn description(&self) -> (m: &'static str)
        ensures
            m@ == "Character size has to be non-zero"@,
    {
        "Character size has to be non-zero"
    }
}

/// Everything that can go wrong in one conversion call.  Both failures are
/// detected before any scanning or allocation, so a failed call never
/// produces partial output.
#[derive(Debug, Clone, PartialEq, Eq, Structural)]
pub enum ConversionError {
    CharSizeZero(CharSizeZero),
    WrongInputLen(WrongInputLen),
}

} // verus!
