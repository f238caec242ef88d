use vstd::prelude::*;

verus! {

/// The kinds of fatal error the front end can report.  Lexing and parsing are
/// strictly fail-fast: the first violation aborts the whole parse and is
/// reported as exactly one of these.
#[derive(Debug, Clone, Copy, PartialEq, Eq, Structural)]
pub enum ErrorKind {
    /// The lexer met a leading grapheme with no lexical rule.
    UnexpectedGrapheme,
    /// A string literal or a comment ran off the end of the input.
    UnterminatedLiteral,
    /// A numeric run had two decimal points, or did not parse as a number.
    MalformedNumber,
    /// The parser saw a token that does not fit the current grammar position.
    UnexpectedToken,
    /// The parser needed another token but the stream was exhausted.
    UnexpectedEndOfInput,
    /// A grammar slot that is intentionally unbuilt was reached.
    NotYetImplemented,
}

/// A fatal error with its 1-indexed source location.
#[derive(Debug, Clone, Copy, PartialEq, Eq, Structural)]
pub struct Error {
    pub kind: ErrorKind,
    pub line: u64,
    pub col: u64,
}

} // verus!
