//! Diagnostics: what the scanner reports about malformed input.

use vstd::prelude::*;

verus! {

/// The ways in which source text can be malformed.
#[derive(Debug, PartialEq, Clone, Copy, Eq, Structural)]
pub enum LexErrorKind {
    /// A character that begins no token, comment or blank.
    UnexpectedCharacter(char),
    /// A `"` with no closing `"` before the end of the input.
    UnterminatedString,
    /// A `/*` with no closing `*/` before the end of the input.
    UnterminatedBlockComment,
}

/// A diagnostic with the place it points at. Lines and columns count from
/// one; a column counts characters, not bytes.
#[derive(Debug, PartialEq, Clone, Copy, Eq, Structural)]
pub struct LexError {
    pub kind: LexErrorKind,
    pub line: u32,
    pub column: u32,
}

} // verus!
