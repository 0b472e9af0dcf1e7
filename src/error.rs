//! Errors of parsing and of translation.
use vstd::prelude::*;

verus! {

/// A grammar mismatch: what was expected and where.
///
/// `line` and `column` start at 1; a line of 0 means that the message already
/// carries its own position (errors reported by the expression parser).
pub struct ParseError {
    pub message: String,
    pub line: u64,
    pub column: u64,
}

/// A statement that the translator cannot turn into SQL.
pub struct TranslationError {
    pub message: String,
}

/// Either failure of the text-to-SQL pipeline.
pub enum CypherError {
    Parse(ParseError),
    Translation(TranslationError),
}

} // verus!
