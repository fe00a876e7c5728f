use vstd::prelude::*;

verus! {

/// The keywords of an `INSERT` statement.
#[derive(Clone, Copy, Debug, PartialEq, Eq, Structural)]
pub enum Keyword {
    Insert,
    Into,
    Values,
}

/// Why a statement was rejected. Offsets count characters from the start of the input.
#[derive(Clone, Copy, Debug, PartialEq, Eq, Structural)]
pub enum ParseError {
    /// The input ended where more text was required.
    UnexpectedEnd { offset: usize },
    /// The text at `offset` is not the keyword that was required.
    KeywordMismatch { expected: Keyword, found: char, offset: usize },
    /// A table name, alias or value was required but none stands at `offset`.
    MissingToken { offset: usize },
    /// A separator or an opening parenthesis was required, and `found` stands there instead.
    UnexpectedCharacter { found: char, offset: usize },
    /// A column or value list was not closed before the input ended at `offset`.
    UnterminatedList { offset: usize },
    /// The column and value lists have different lengths.
    ArityMismatch { columns: usize, values: usize },
}

} // verus!
